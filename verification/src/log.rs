//! The findings that outlive a log rotation.
//!
//! Every diagnostic worth having is reported once, and every one of them
//! happens in the first minute, while the thing they explain happens minutes
//! later. So the conclusions are kept, and rewritten at the top of each new
//! log file. Bounded: this is for conclusions, not a running commentary.
use vstd::prelude::*;

verus! {

/// How many findings are kept.
pub const MAX_FINDINGS: usize = 64;

/// The findings kept so far, oldest first.
pub struct Findings {
    lines: Vec<String>,
}

impl View for Findings {
    type V = Seq<Seq<char>>;

    closed spec fn view(&self) -> Seq<Seq<char>> {
        Seq::new(self.lines@.len(), |i: int| self.lines@[i]@)
    }
}

/// The findings after one more: kept while there is room.
pub open spec fn after_finding(kept: Seq<Seq<char>>, line: Seq<char>) -> Seq<Seq<char>> {
    if kept.len() < MAX_FINDINGS {
        kept.push(line)
    } else {
        kept
    }
}

/// The findings after each of `lines`, in order.
pub open spec fn after_findings(kept: Seq<Seq<char>>, lines: Seq<Seq<char>>) -> Seq<Seq<char>>
    decreases lines.len(),
{
    if lines.len() == 0 {
        kept
    } else {
        after_finding(after_findings(kept, lines.drop_last()), lines.last())
    }
}

impl Findings {
    /// None yet.
    pub fn new() -> (f: Findings)
        ensures
            f@ == Seq::<Seq<char>>::empty(),
    {
        Findings { lines: Vec::new() }
    }

    /// Remember `line`, if there is still room.
    pub fn finding(&mut self, line: &str)
        ensures
            final(self)@ == after_finding(old(self)@, line@),
    {
        if self.lines.len() < MAX_FINDINGS {
            self.lines.push(line.to_string());
            proof {
                assert(self@ =~= old(self)@.push(line@));
            }
        }
    }

    /// How many are kept.
    pub fn len(&self) -> (n: usize)
        ensures
            n == self@.len(),
    {
        self.lines.len()
    }

    /// The `i`th kept finding, oldest first.
    pub fn line(&self, i: usize) -> (s: &str)
        requires
            i < self@.len(),
        ensures
            s@ == self@[i as int],
    {
        self.lines[i].as_str()
    }
}

/// However many findings are reported, the first `MAX_FINDINGS` are the
/// ones kept, in the order they came.
pub proof fn lemma_findings_keep_the_first(lines: Seq<Seq<char>>)
    ensures
        after_findings(Seq::empty(), lines) == lines.take(
            if lines.len() < MAX_FINDINGS {
                lines.len() as int
            } else {
                MAX_FINDINGS as int
            },
        ),
    decreases lines.len(),
{
    if lines.len() > 0 {
        let init = lines.drop_last();
        lemma_findings_keep_the_first(init);
        if init.len() < MAX_FINDINGS {
            assert(init.take(init.len() as int).push(lines.last()) =~= lines.take(
                lines.len() as int,
            ));
        } else {
            assert(init.take(MAX_FINDINGS as int) =~= lines.take(MAX_FINDINGS as int));
        }
    }
}

} // verus!
