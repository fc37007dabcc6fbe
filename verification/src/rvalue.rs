//! What a GameMaker `RValue` says, once its bytes are in hand.
//!
//! An `RValue` is 16 bytes: an 8-byte payload, then flags, then a kind tag.
//! Reading those bytes out of the live process is the caller's business;
//! this module decides what they mean. A real number is kept as its bit
//! pattern, so the library never does floating-point arithmetic.
use vstd::prelude::*;

verus! {

pub const KIND_REAL: u32 = 0;
pub const KIND_STRING: u32 = 1;
pub const KIND_ARRAY: u32 = 2;
pub const KIND_UNDEFINED: u32 = 5;
pub const KIND_OBJECT: u32 = 6;
pub const KIND_INT32: u32 = 7;
pub const KIND_INT64: u32 = 10;
pub const KIND_BOOL: u32 = 13;
/// `VALUE_REF`: the payload is `{high dword = ref type, low dword = id}`.
pub const KIND_REF: u32 = 15;

/// The ref type of an instance reference, as a card's `select_button` holds
/// once the card is built.
pub const INSTANCE_REF: u32 = 0x0400_0001;

/// A string descriptor's size field carries a flag in its high bit.
pub const STR_SIZE_MASK: u32 = 0x7FFF_FFFF;

/// Longer strings are refused rather than walked.
pub const STR_MAX: usize = 65536;

/// A decoded value.
#[derive(Debug, Clone, PartialEq, Eq)]
pub enum Cell {
    /// A double, by its bit pattern.
    Real(u64),
    Int(i64),
    Bool(bool),
    Str(String),
    /// The payload pointer of a GML array.
    Array(usize),
    /// The payload pointer of a struct.
    Object(usize),
    Ref { ref_type: u32, id: i32 },
    Undefined,
    Other { kind: u32, raw: u64 },
}

/// The low 32 bits of `raw`, read as a signed number.
pub open spec fn low_i32(raw: u64) -> int {
    let lo = raw as int % 0x1_0000_0000;
    if lo >= 0x8000_0000 {
        lo - 0x1_0000_0000
    } else {
        lo
    }
}

/// All 64 bits of `raw`, read as a signed number.
pub open spec fn as_i64(raw: u64) -> int {
    if raw >= 0x8000_0000_0000_0000 {
        raw - 0x1_0000_0000_0000_0000
    } else {
        raw as int
    }
}

/// The high 32 bits of `raw`.
pub open spec fn high_u32(raw: u64) -> int {
    raw as int / 0x1_0000_0000
}

fn low_signed(raw: u64) -> (v: i32)
    ensures
        v as int == low_i32(raw),
{
    let lo: u32 = (raw % 0x1_0000_0000) as u32;
    if lo >= 0x8000_0000 {
        let m: u32 = lo - 0x8000_0000;
        let v: i32 = (m as i32) - 0x7FFF_FFFF - 1;
        v
    } else {
        lo as i32
    }
}

fn signed64(raw: u64) -> (v: i64)
    ensures
        v as int == as_i64(raw),
{
    if raw >= 0x8000_0000_0000_0000 {
        let m: u64 = raw - 0x8000_0000_0000_0000;
        (m as i64) - 0x7FFF_FFFF_FFFF_FFFF - 1
    } else {
        raw as i64
    }
}

fn high_half(raw: u64) -> (v: u32)
    ensures
        v as int == high_u32(raw),
{
    let h: u64 = raw / 0x1_0000_0000;
    assert(h < 0x1_0000_0000) by {
        assert(raw < 0x1_0000_0000_0000_0000);
    }
    h as u32
}

/// The value an `RValue` holds, from its payload `raw`, its kind tag, and,
/// for a string, the text its descriptor led to if that could be read.
///
/// A 32-bit integer is the payload's low half, signed; a reference splits
/// the payload into the ref type above and the id below. A string whose
/// text could not be read, and any kind not listed, come back as `Other`.
pub fn decode_cell(raw: u64, kind: u32, text: Option<String>) -> (c: Cell)
    ensures
        kind == KIND_REAL ==> c == Cell::Real(raw),
        kind == KIND_INT32 ==> (c matches Cell::Int(v) && v as int == low_i32(raw)),
        kind == KIND_INT64 ==> (c matches Cell::Int(v) && v as int == as_i64(raw)),
        kind == KIND_BOOL ==> c == Cell::Bool(raw != 0),
        kind == KIND_UNDEFINED ==> c == Cell::Undefined,
        kind == KIND_STRING ==> match text {
            Some(t) => (c matches Cell::Str(s) && s@ == t@),
            None => c == (Cell::Other { kind, raw }),
        },
        kind == KIND_ARRAY ==> c == Cell::Array(raw as usize),
        kind == KIND_OBJECT ==> c == Cell::Object(raw as usize),
        kind == KIND_REF ==> (c matches Cell::Ref { ref_type, id } && ref_type as int == high_u32(
            raw,
        ) && id as int == low_i32(raw)),
        kind != KIND_REAL && kind != KIND_INT32 && kind != KIND_INT64 && kind != KIND_BOOL
            && kind != KIND_UNDEFINED && kind != KIND_STRING && kind != KIND_ARRAY && kind
            != KIND_OBJECT && kind != KIND_REF ==> c == (Cell::Other { kind, raw }),
{
    if kind == KIND_REAL {
        Cell::Real(raw)
    } else if kind == KIND_INT32 {
        let v: i32 = low_signed(raw);
        Cell::Int(v as i64)
    } else if kind == KIND_INT64 {
        Cell::Int(signed64(raw))
    } else if kind == KIND_BOOL {
        Cell::Bool(raw != 0)
    } else if kind == KIND_UNDEFINED {
        Cell::Undefined
    } else if kind == KIND_STRING {
        match text {
            Some(t) => Cell::Str(t),
            None => Cell::Other { kind, raw },
        }
    } else if kind == KIND_ARRAY {
        Cell::Array(raw as usize)
    } else if kind == KIND_OBJECT {
        Cell::Object(raw as usize)
    } else if kind == KIND_REF {
        Cell::Ref { ref_type: high_half(raw), id: low_signed(raw) }
    } else {
        Cell::Other { kind, raw }
    }
}

/// What a method call handed back in its result `RValue`, if it is a
/// number: a double, either width of integer, or a boolean.
pub fn method_result(kind: u32, payload: u64) -> (r: Option<Cell>)
    ensures
        kind == KIND_REAL ==> r == Some(Cell::Real(payload)),
        kind == KIND_INT32 ==> (r matches Some(Cell::Int(v)) && v as int == low_i32(payload)),
        kind == KIND_INT64 ==> (r matches Some(Cell::Int(v)) && v as int == as_i64(payload)),
        kind == KIND_BOOL ==> r == Some(Cell::Bool(payload != 0)),
        kind != KIND_REAL && kind != KIND_INT32 && kind != KIND_INT64 && kind != KIND_BOOL ==> r
            is None,
{
    if kind == KIND_REAL || kind == KIND_INT32 || kind == KIND_INT64 || kind == KIND_BOOL {
        Some(decode_cell(payload, kind, None))
    } else {
        None
    }
}

/// Whether a value is an instance reference.
pub open spec fn is_instance_ref(c: Cell) -> bool {
    c matches Cell::Ref { ref_type, .. } && ref_type == INSTANCE_REF
}

/// Whether a card has finished being set up: its `select_button` has become
/// a real instance reference. Until then the card holds placeholders.
pub fn card_ready(select_button: &Cell) -> (r: bool)
    ensures
        r == is_instance_ref(*select_button),
{
    match select_button {
        Cell::Ref { ref_type, id: _ } => *ref_type == INSTANCE_REF,
        _ => false,
    }
}

/// The instance id a card's `select_button` refers to, if it is an instance
/// reference.
pub fn select_ref(select_button: &Cell) -> (r: Option<i32>)
    ensures
        is_instance_ref(*select_button) <==> r is Some,
        r matches Some(i) ==> (select_button matches Cell::Ref { id, .. } && id == i),
{
    match select_button {
        Cell::Ref { ref_type, id } => if *ref_type == INSTANCE_REF {
            Some(*id)
        } else {
            None
        },
        _ => None,
    }
}

/// The text of a string value.
pub fn as_text(c: &Cell) -> (r: Option<&str>)
    ensures
        match c {
            Cell::Str(s) => (r matches Some(t) && t@ == s@),
            _ => r is None,
        },
{
    match c {
        Cell::Str(s) => Some(s.as_str()),
        _ => None,
    }
}

/// A string descriptor's length, with the flag bit cleared.
pub fn string_size(field: u32) -> (n: usize)
    ensures
        n as int == field as int % 0x8000_0000,
{
    let m: u32 = field & STR_SIZE_MASK;
    assert(m == field % 0x8000_0000) by (bit_vector)
        requires
            m == field & 0x7FFF_FFFFu32,
    ;
    m as usize
}

/// The position of the first byte below a tab, if there is one.
pub open spec fn first_low(b: Seq<u8>) -> Option<int> {
    if exists|i: int| 0 <= i < b.len() && b[i] < 9 {
        Some(choose|i: int| 0 <= i < b.len() && b[i] < 9 && forall|j: int| 0 <= j < i ==> b[j] >= 9)
    } else {
        None
    }
}

/// A NUL-terminated string, scanned from bytes read one at a time: the
/// bytes before the first NUL, provided no byte below a tab comes first;
/// binary is refused early rather than returned as text that looks like
/// data. No NUL within the bytes is no string.
pub fn cstr_scan(b: &[u8]) -> (r: Option<Vec<u8>>)
    ensures
        match first_low(b@) {
            Some(k) => if b@[k] == 0 {
                (r matches Some(v) && v@ == b@.subrange(0, k))
            } else {
                r is None
            },
            None => r is None,
        },
{
    let mut out: Vec<u8> = Vec::new();
    let mut i: usize = 0;
    while i < b.len()
        invariant
            0 <= i <= b.len(),
            out@ == b@.subrange(0, i as int),
            forall|j: int| 0 <= j < i ==> b@[j] >= 9,
        decreases b.len() - i,
    {
        let c = b[i];
        if c < 9 {
            proof {
                let k = choose|k: int|
                    0 <= k < b@.len() && b@[k] < 9 && forall|j: int| 0 <= j < k ==> b@[j] >= 9;
                if k < i {
                    assert(b@[k] >= 9);
                } else if k > i {
                    assert(b@[i as int] >= 9);
                }
            }
            if c == 0 {
                return Some(out);
            }
            return None;
        }
        out.push(c);
        i = i + 1;
    }
    None
}

} // verus!
