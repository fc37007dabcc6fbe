//! Drawing on the game's screen from any mod, without touching a detour.
//!
//! A feature registers a painter and holds the handle for as long as it wants
//! to draw. **Nothing is patched until something draws**: the detour into the
//! host Draw event goes in with the first painter and comes out with the last,
//! so a kit with no overlay feature active changes nothing about the game.
//!
//! Here is the bookkeeping that guarantee rests on -- the host, whether the
//! detour is in, which painters are registered -- and the colour arithmetic.
//! The painters themselves, and the drawing, are the embedding's business.
use vstd::prelude::*;

verus! {

/// A colour, as GameMaker holds one: a 24-bit **BGR** integer.
#[derive(Clone, Copy, PartialEq, Eq, Debug, Structural)]
pub struct Colour(pub u32);

impl Colour {
    pub fn black() -> (c: Colour)
        ensures
            c.0 == 0,
    {
        Colour(0x00_00_00)
    }

    pub fn white() -> (c: Colour)
        ensures
            c.0 == 0xFF_FF_FF,
    {
        Colour(0xFF_FF_FF)
    }

    pub fn red() -> (c: Colour)
        ensures
            c.0 == 0x00_00_FF,
    {
        Colour(0x00_00_FF)
    }

    pub fn green() -> (c: Colour)
        ensures
            c.0 == 0x00_FF_00,
    {
        Colour(0x00_FF_00)
    }

    pub fn blue() -> (c: Colour)
        ensures
            c.0 == 0xFF_00_00,
    {
        Colour(0xFF_00_00)
    }

    /// From the usual red, green and blue, in that order; stored BGR, as the
    /// game wants, so callers never handle the swap.
    pub fn rgb(r: u8, g: u8, b: u8) -> (c: Colour)
        ensures
            c.0 == b as int * 0x1_0000 + g as int * 0x100 + r as int,
    {
        let v = (b as u32) << 16u32 | (g as u32) << 8u32 | r as u32;
        assert(v == b as u32 * 0x1_0000 + g as u32 * 0x100 + r as u32) by (bit_vector)
            requires
                v == (b as u32) << 16u32 | (g as u32) << 8u32 | r as u32,
        ;
        Colour(v)
    }
}

/// A registered painter. Drawing continues while it is held; releasing it
/// stops the painter.
#[derive(Debug, PartialEq, Eq, Structural)]
pub struct PaintHandle(pub u64);

/// The overlay's state: the host Draw event, whether the detour into it is
/// in, and the painters registered.
pub struct Overlay {
    host: Option<(usize, Vec<u8>)>,
    detour: bool,
    painters: Vec<u64>,
    next_id: u64,
}

/// What registering a painter needs next.
#[derive(Debug)]
pub enum PaintStep {
    /// Install the detour at this site over these bytes, report it with
    /// [`Overlay::detour_installed`], and ask again.
    Install(usize, Vec<u8>),
    /// The painter is registered under this handle.
    Registered(PaintHandle),
}

/// Where the request to draw comes from: how many frames the game has run,
/// the game's thread, and the caller's thread.
#[derive(Clone, Copy)]
pub struct Window {
    pub frames: u64,
    pub game_thread: u64,
    pub this_thread: u64,
}

/// Patching live code is safe before the game runs, or on its own thread
/// inside the pump, where the Draw event provably is not executing.
pub open spec fn may_patch(w: Window) -> bool {
    w.frames == 0 || (w.game_thread != 0 && w.game_thread == w.this_thread)
}

impl Overlay {
    pub closed spec fn spec_host(&self) -> Option<(usize, Seq<u8>)> {
        match self.host {
            Some((site, bytes)) => Some((site, bytes@)),
            None => None,
        }
    }

    pub closed spec fn spec_detour(&self) -> bool {
        self.detour
    }

    /// The ids of the registered painters, oldest first.
    pub closed spec fn spec_painters(&self) -> Seq<u64> {
        self.painters@
    }

    pub closed spec fn spec_next_id(&self) -> u64 {
        self.next_id
    }

    /// Someone drawing means the detour is in, ids are never zero, and every
    /// id handed out so far is below the next.
    pub closed spec fn wf(&self) -> bool {
        &&& (self.painters.len() > 0 ==> self.detour)
        &&& self.next_id >= 1
        &&& forall|i: int| 0 <= i < self.painters.len() ==> 1 <= #[trigger] self.painters@[i] < self.next_id
    }

    /// No host, no detour, no painters.
    pub fn new() -> (o: Overlay)
        ensures
            o.wf(),
            o.spec_host() is None,
            !o.spec_detour(),
            o.spec_painters().len() == 0,
    {
        Overlay { host: None, detour: false, painters: Vec::new(), next_id: 1 }
    }

    /// Whether the detour is in.
    pub fn detour_in(&self) -> (b: bool)
        ensures
            b == self.spec_detour(),
    {
        self.detour
    }

    /// How many painters are registered.
    pub fn len(&self) -> (n: usize)
        ensures
            n == self.spec_painters().len(),
    {
        self.painters.len()
    }

    /// Record that the detour is in.
    pub fn detour_installed(&mut self)
        requires
            old(self).wf(),
        ensures
            final(self).wf(),
            final(self).spec_detour(),
            final(self).spec_host() == old(self).spec_host(),
            final(self).spec_painters() == old(self).spec_painters(),
            final(self).spec_next_id() == old(self).spec_next_id(),
    {
        self.detour = true;
    }

    /// Forget painters that failed, by id, and keep the rest in order.
    /// True when that leaves nobody drawing: take the detour out.
    pub fn sweep(&mut self, dead: &[u64]) -> (now_empty: bool)
        requires
            old(self).wf(),
        ensures
            final(self).spec_painters() == old(self).spec_painters().filter(|id: u64| !dead@.contains(id)),
            now_empty == (final(self).spec_painters().len() == 0 && old(self).spec_detour()),
            final(self).spec_detour() == (old(self).spec_detour() && !now_empty),
            final(self).spec_host() == old(self).spec_host(),
            final(self).wf(),
    {
        let mut kept: Vec<u64> = Vec::new();
        let mut i: usize = 0;
        let ghost keep = |id: u64| !dead@.contains(id);
        while i < self.painters.len()
            invariant
                0 <= i <= self.painters.len(),
                self.painters@ == old(self).painters@,
                self.next_id == old(self).next_id,
                old(self).wf(),
                kept@ == self.painters@.take(i as int).filter(keep),
                keep == (|id: u64| !dead@.contains(id)),
                forall|k: int| 0 <= k < kept.len() ==> 1 <= #[trigger] kept@[k] < self.next_id,
            decreases self.painters.len() - i,
        {
            let id = self.painters[i];
            proof {
                self.painters@.take(i as int).lemma_filter_push(id, keep);
            }
            assert(self.painters@.take(i + 1) =~= self.painters@.take(i as int).push(id));
            if !contains_id(dead, id) {
                kept.push(id);
            }
            i = i + 1;
        }
        assert(self.painters@.take(self.painters.len() as int) =~= self.painters@);
        self.painters = kept;
        let empty = self.painters.len() == 0;
        let now_empty = empty && self.detour;
        if empty {
            self.detour = false;
        }
        now_empty
    }
}

/// A copy of a run of bytes.
pub fn copy_bytes(b: &[u8]) -> (v: Vec<u8>)
    ensures
        v@ == b@,
{
    let mut v: Vec<u8> = Vec::new();
    let mut i: usize = 0;
    while i < b.len()
        invariant
            0 <= i <= b.len(),
            v@ == b@.take(i as int),
        decreases b.len() - i,
    {
        v.push(b[i]);
        assert(b@.take(i + 1) =~= b@.take(i as int).push(b@[i as int]));
        i = i + 1;
    }
    assert(b@.take(b.len() as int) =~= b@);
    v
}

/// Whether an id is in a list.
fn contains_id(ids: &[u64], id: u64) -> (r: bool)
    ensures
        r == ids@.contains(id),
{
    let mut i: usize = 0;
    while i < ids.len()
        invariant
            0 <= i <= ids.len(),
            forall|j: int| 0 <= j < i ==> ids@[j] != id,
        decreases ids.len() - i,
    {
        if ids[i] == id {
            assert(ids@[i as int] == id);
            return true;
        }
        i = i + 1;
    }
    false
}

/// Name the Draw event the overlay hangs off: `site` is `base + rva`,
/// `expected` the bytes currently there. Nothing is patched here; the detour
/// goes in only when the first painter is registered.
pub fn set_host(ov: &mut Overlay, site: usize, expected: &[u8])
    requires
        old(ov).wf(),
    ensures
        final(ov).wf(),
        final(ov).spec_host() == Some((site, expected@)),
        final(ov).spec_detour() == old(ov).spec_detour(),
        final(ov).spec_painters() == old(ov).spec_painters(),
        final(ov).spec_next_id() == old(ov).spec_next_id(),
{
    let bytes = copy_bytes(expected);
    ov.host = Some((site, bytes));
}

/// The refusal when no host has been named.
pub open spec fn no_host() -> Seq<char> {
    "overlay: no host Draw event set; call overlay::set_host first"@
}

/// The refusal when the detour would go in off the game's thread.
pub open spec fn wrong_thread() -> Seq<char> {
    "overlay: refusing to install the draw detour off the game's thread"@
}

/// Register a painter, drawn from `w`.
///
/// The first painter needs the detour in: without a host that is refused,
/// off the game's thread it is refused, and otherwise the answer is to install
/// it and ask again. With the detour in, the painter gets the next id.
pub fn paint(ov: &mut Overlay, w: Window) -> (r: Result<PaintStep, String>)
    requires
        old(ov).wf(),
        old(ov).spec_next_id() < u64::MAX,
    ensures
        final(ov).wf(),
        final(ov).spec_host() == old(ov).spec_host(),
        final(ov).spec_detour() == old(ov).spec_detour(),
        !old(ov).spec_detour() ==> {
            &&& final(ov).spec_painters() == old(ov).spec_painters()
            &&& final(ov).spec_next_id() == old(ov).spec_next_id()
            &&& match old(ov).spec_host() {
                None => r matches Err(m) && m@ == no_host(),
                Some((site, bytes)) => if may_patch(w) {
                    r matches Ok(PaintStep::Install(s, b)) && s == site && b@ == bytes
                } else {
                    r matches Err(m) && m@ == wrong_thread()
                },
            }
        },
        old(ov).spec_detour() ==> {
            &&& r matches Ok(PaintStep::Registered(h)) && h == PaintHandle(old(ov).spec_next_id())
            &&& final(ov).spec_painters() == old(ov).spec_painters().push(old(ov).spec_next_id())
            &&& final(ov).spec_next_id() == old(ov).spec_next_id() + 1
        },
{
    if !ov.detour {
        match &ov.host {
            None => {
                return Err("overlay: no host Draw event set; call overlay::set_host first".to_owned());
            },
            Some((site, bytes)) => {
                let at_startup = w.frames == 0;
                let on_game_thread = w.game_thread != 0 && w.game_thread == w.this_thread;
                if !at_startup && !on_game_thread {
                    return Err(
                        "overlay: refusing to install the draw detour off the game's thread".to_owned(),
                    );
                }
                let b = copy_bytes(bytes.as_slice());
                return Ok(PaintStep::Install(*site, b));
            },
        }
    }
    let id = ov.next_id;
    ov.painters.push(id);
    ov.next_id = id + 1;
    Ok(PaintStep::Registered(PaintHandle(id)))
}

/// Release a painter's handle: drawing by it stops. True when that was the
/// last painter, so the detour must come out; it is recorded as out.
pub fn release(ov: &mut Overlay, h: PaintHandle) -> (last: bool)
    requires
        old(ov).wf(),
    ensures
        final(ov).wf(),
        final(ov).spec_painters() == old(ov).spec_painters().filter(|id: u64| id != h.0),
        last == (final(ov).spec_painters().len() == 0 && old(ov).spec_detour()),
        final(ov).spec_host() == old(ov).spec_host(),
{
    let dead = [h.0];
    let r = ov.sweep(&dead);
    proof {
        assert((|id: u64| !dead@.contains(id)) =~= (|id: u64| id != h.0)) by {
            assert forall|id: u64| #[trigger] dead@.contains(id) <==> id == h.0 by {
                if id == h.0 {
                    assert(dead@[0] == id);
                }
            }
        }
    }
    r
}

} // verus!
