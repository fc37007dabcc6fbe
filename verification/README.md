# tkiw

A reward auto-picker for *The King is Watching*, as a DLL in the game's
process, with its decisions verified by Verus.

- `src/` is the library: the config format (parsing, generating an inert
  default, normalising unvalued weights), the picker's choice and reroll
  rules, the readings of the reward screen, the walks through the game's
  object registry and lists (each hop validated before it is taken), the PE
  image reader, symbol tables, the region cache behind every memory check,
  the code cave and trampoline encodings, and the fault report. Every
  function carries a contract; the laws the project promises stand as
  proof functions beside them (for instance, that normalising converges and
  keeps what the config says, and that the picker takes the highest-weighted
  option of the tier it picks from).
- `app/` is the DLL around it: the frame hook, reading the game's memory,
  calling into the game, files, the hotkey and the exception handler. It
  decides nothing that the library does not decide.
- `tests/` runs the library on concrete values.

The crash reporter writes into a fixed buffer, so reporting a fault
allocates nothing; the region cache answers only for regions a query found
readable since the last flush.
