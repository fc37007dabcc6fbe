//! Just enough PE to find the game's sections, read from the executable's
//! bytes.
//!
//! Symbol discovery reads the executable **from disk** rather than scraping
//! it out of memory: the discriminator for a variable-id slot is that it holds
//! `0xFFFFFFFF` before the game resolves it at startup -- true on disk and
//! false in a running process. Live addresses come from adding the ASLR slide
//! afterwards.
//!
//! Offsets and RVAs are the file format's 32-bit quantities; sums of them wrap
//! as the format's own arithmetic does.
use vstd::prelude::*;

use crate::text::{chars_of, eq_ignore_ascii, same_ignoring_case, str_eq};

verus! {

/// `a + b` as a `u32`, wrapping.
pub open spec fn wadd(a: u32, b: u32) -> u32 {
    vstd::wrapping::u32_specs::wrapping_add(a, b)
}

/// The little-endian `u16` at `o`, if the bytes are there.
pub open spec fn le16(d: Seq<u8>, o: int) -> Option<u16> {
    if 0 <= o && o + 2 <= d.len() {
        Some((d[o] + d[o + 1] * 0x100) as u16)
    } else {
        None
    }
}

/// The little-endian `u32` at `o`, if the bytes are there.
pub open spec fn le32(d: Seq<u8>, o: int) -> Option<u32> {
    if 0 <= o && o + 4 <= d.len() {
        Some((d[o] + d[o + 1] * 0x100 + d[o + 2] * 0x1_0000 + d[o + 3] * 0x100_0000) as u32)
    } else {
        None
    }
}

/// The little-endian `u64` at `o`, if the bytes are there.
pub open spec fn le64(d: Seq<u8>, o: int) -> Option<u64> {
    if 0 <= o && o + 8 <= d.len() {
        Some((d[o] + d[o + 1] * 0x100 + d[o + 2] * 0x1_0000 + d[o + 3] * 0x100_0000 + d[o + 4]
            * 0x1_0000_0000 + d[o + 5] * 0x100_0000_0000 + d[o + 6] * 0x1_0000_0000_0000 + d[o + 7]
            * 0x100_0000_0000_0000) as u64)
    } else {
        None
    }
}

pub fn u16_at(d: &[u8], o: usize) -> (r: Option<u16>)
    ensures
        r == le16(d@, o as int),
{
    if o > d.len() || d.len() - o < 2 {
        return None;
    }
    Some((d[o] as u16) + (d[o + 1] as u16) * 0x100)
}

pub fn u32_at(d: &[u8], o: usize) -> (r: Option<u32>)
    ensures
        r == le32(d@, o as int),
{
    if o > d.len() || d.len() - o < 4 {
        return None;
    }
    Some((d[o] as u32) + (d[o + 1] as u32) * 0x100 + (d[o + 2] as u32) * 0x1_0000 + (d[o + 3] as u32)
        * 0x100_0000)
}

pub fn u64_at(d: &[u8], o: usize) -> (r: Option<u64>)
    ensures
        r == le64(d@, o as int),
{
    if o > d.len() || d.len() - o < 8 {
        return None;
    }
    Some((d[o] as u64) + (d[o + 1] as u64) * 0x100 + (d[o + 2] as u64) * 0x1_0000 + (d[o + 3] as u64)
        * 0x100_0000 + (d[o + 4] as u64) * 0x1_0000_0000 + (d[o + 5] as u64) * 0x100_0000_0000 + (d[o
        + 6] as u64) * 0x1_0000_0000_0000 + (d[o + 7] as u64) * 0x100_0000_0000_0000)
}

/// The little-endian `u16` at `base + add`.
pub fn u16_at_off(d: &[u8], base: usize, add: usize) -> (r: Option<u16>)
    ensures
        r == le16(d@, base + add),
{
    let n = d.len();
    match base.checked_add(add) {
        Some(o) => u16_at(d, o),
        None => None,
    }
}

/// The little-endian `u32` at `base + add`.
pub fn u32_at_off(d: &[u8], base: usize, add: usize) -> (r: Option<u32>)
    ensures
        r == le32(d@, base + add),
{
    let n = d.len();
    match base.checked_add(add) {
        Some(o) => u32_at(d, o),
        None => None,
    }
}

/// The little-endian `u64` at `base + add`.
pub fn u64_at_off(d: &[u8], base: usize, add: usize) -> (r: Option<u64>)
    ensures
        r == le64(d@, base + add),
{
    let n = d.len();
    match base.checked_add(add) {
        Some(o) => u64_at(d, o),
        None => None,
    }
}

/// What `String::from_utf8_lossy` makes of some bytes.
pub uninterp spec fn utf8_lossy(b: Seq<u8>) -> Seq<char>;

/// `String::from_utf8_lossy`, owned. Bytes that are valid UTF-8 come back
/// as the text they encode, as std documents; in particular ASCII bytes
/// come back as the same characters, one for one.
#[verifier::external_body]
pub(crate) fn from_utf8_lossy(b: &[u8]) -> (s: String)
    ensures
        s@ == utf8_lossy(b@),
        (forall|i: int| 0 <= i < b@.len() ==> #[trigger] b@[i] < 0x80) ==> s@ == b@.map_values(
            |x: u8| x as char,
        ),
{
    String::from_utf8_lossy(b).into_owned()
}

/// One section header.
pub struct Section {
    pub name: String,
    pub va: u32,
    pub vsize: u32,
    pub raw: u32,
    pub rawsize: u32,
}

/// A section header's fields: name, virtual address, virtual size, file
/// offset, file size.
pub type SectionView = (Seq<char>, u32, u32, u32, u32);

impl Section {
    pub open spec fn view_of(self) -> SectionView {
        (self.name@, self.va, self.vsize, self.raw, self.rawsize)
    }
}

/// An executable's bytes and the headers read from them.
pub struct Image {
    pub data: Vec<u8>,
    pub image_base: u64,
    /// SizeOfImage: how much address space the module occupies once loaded.
    pub size_of_image: u32,
    pub sections: Vec<Section>,
}

/// Where the first NUL byte is.
pub open spec fn first_zero(w: Seq<u8>) -> Option<int> {
    if exists|i: int| 0 <= i < w.len() && w[i] == 0 {
        Some(choose|i: int| 0 <= i < w.len() && w[i] == 0 && forall|j: int| 0 <= j < i ==> w[j] != 0)
    } else {
        None
    }
}

proof fn lemma_first_zero(w: Seq<u8>, k: int)
    requires
        0 <= k < w.len(),
        w[k] == 0,
        forall|j: int| 0 <= j < k ==> w[j] != 0,
    ensures
        first_zero(w) == Some(k),
{
    let c = choose|i: int| 0 <= i < w.len() && w[i] == 0 && forall|j: int| 0 <= j < i ==> w[j] != 0;
    assert(0 <= c < w.len() && w[c] == 0 && forall|j: int| 0 <= j < c ==> w[j] != 0);
    if c < k {
        assert(w[c] != 0);
    } else if c > k {
        assert(w[k] != 0);
    }
}

/// The name field of a section header: up to eight bytes, ending at the first
/// NUL.
pub open spec fn name_field(raw: Seq<u8>) -> Seq<u8> {
    match first_zero(raw) {
        Some(k) => raw.take(k),
        None => raw,
    }
}

/// The section header at `o`.
pub open spec fn section_at(d: Seq<u8>, o: int) -> Option<SectionView> {
    if 0 <= o && o + 8 <= d.len() {
        match (le32(d, o + 8), le32(d, o + 12), le32(d, o + 16), le32(d, o + 20)) {
            (Some(vsize), Some(va), Some(rawsize), Some(raw)) => Some(
                (utf8_lossy(name_field(d.subrange(o, o + 8))), va, vsize, raw, rawsize),
            ),
            _ => None,
        }
    } else {
        None
    }
}

/// The first `n` section headers of the table at `tab`.
pub open spec fn sections_at(d: Seq<u8>, tab: int, n: nat) -> Option<Seq<SectionView>>
    decreases n,
{
    if n == 0 {
        Some(Seq::empty())
    } else {
        match (sections_at(d, tab, (n - 1) as nat), section_at(d, tab + (n - 1) * 40)) {
            (Some(s), Some(x)) => Some(s.push(x)),
            _ => None,
        }
    }
}

/// The headers of a PE32+ image: image base, size of image, sections.
pub open spec fn headers(d: Seq<u8>) -> Option<(u64, u32, Seq<SectionView>)> {
    match le32(d, 0x3C) {
        None => None,
        Some(peo) => {
            let peo = peo as int;
            if !(peo + 4 <= d.len() && d.subrange(peo, peo + 4) == seq![0x50u8, 0x45, 0, 0]) {
                None
            } else {
                let opt = peo + 24;
                match (le16(d, peo + 6), le16(d, opt), le16(d, peo + 20)) {
                    (Some(nsec), Some(magic), Some(optsize)) => if magic != 0x20B {
                        None
                    } else {
                        match (le64(d, opt + 24), le32(d, opt + 56)) {
                            (Some(base), Some(size)) => match sections_at(d, opt + optsize, nsec as nat) {
                                Some(secs) => Some((base, size, secs)),
                                None => None,
                            },
                            _ => None,
                        }
                    },
                    _ => None,
                }
            }
        },
    }
}

/// Where the section a `rva` falls in backs it in the file: the first section
/// whose span covers it, and only where the file holds that byte.
pub open spec fn rva_offset(secs: Seq<SectionView>, rva: u32) -> Option<int>
    decreases secs.len(),
{
    if secs.len() == 0 {
        None
    } else {
        let s = secs[0];
        let span = if s.2 >= s.4 {
            s.2
        } else {
            s.4
        };
        if rva >= s.1 && rva < wadd(s.1, span) && rva - s.1 < s.4 {
            Some(wadd(s.3, (rva - s.1) as u32) as int)
        } else {
            rva_offset(secs.drop_first(), rva)
        }
    }
}

/// Whether the first `k` bytes are printable ASCII.
pub open spec fn printable_upto(w: Seq<u8>, k: int) -> bool {
    forall|j: int| 0 <= j < k ==> 0x20 <= #[trigger] w[j] < 0x7F
}

/// A printable NUL-terminated string starting at file offset `o`, looked for
/// within `limit` bytes.
pub open spec fn cstr_at(d: Seq<u8>, o: int, limit: int) -> Option<Seq<char>> {
    let end = if o + limit <= d.len() {
        o + limit
    } else {
        d.len() as int
    };
    if o > end {
        None
    } else {
        let w = d.subrange(o, end);
        match first_zero(w) {
            Some(k) => if printable_upto(w, k) {
                Some(w.take(k).map_values(|b: u8| b as char))
            } else {
                None
            },
            None => None,
        }
    }
}

/// Read the section header at `o`.
fn read_section(data: &[u8], o: usize) -> (r: Option<Section>)
    ensures
        match r {
            Some(sec) => section_at(data@, o as int) == Some(sec.view_of()),
            None => section_at(data@, o as int) is None,
        },
{
    if o > data.len() || data.len() - o < 8 {
        return None;
    }
    let f = (
        u32_at_off(data, o, 8),
        u32_at_off(data, o, 12),
        u32_at_off(data, o, 16),
        u32_at_off(data, o, 20),
    );
    match f {
        (Some(vsize), Some(va), Some(rawsize), Some(raw)) => {
            let ghost w = data@.subrange(o as int, o + 8);
            let mut end: usize = 0;
            while end < 8 && data[o + end] != 0
                invariant
                    0 <= end <= 8,
                    o + 8 <= data.len(),
                    w == data@.subrange(o as int, o + 8),
                    forall|j: int| 0 <= j < end ==> w[j] != 0,
                decreases 8 - end,
            {
                assert(w[end as int] == data@[o + end]);
                end = end + 1;
            }
            let mut raw_name: Vec<u8> = Vec::new();
            let mut k: usize = 0;
            while k < end
                invariant
                    0 <= k <= end <= 8,
                    o + 8 <= data.len(),
                    raw_name@ == data@.subrange(o as int, o + k),
                decreases end - k,
            {
                raw_name.push(data[o + k]);
                assert(data@.subrange(o as int, o + k + 1) =~= data@.subrange(o as int, o + k).push(
                    data@[o + k],
                ));
                k = k + 1;
            }
            proof {
                if end < 8 {
                    assert(w[end as int] == data@[o + end]);
                    lemma_first_zero(w, end as int);
                    assert(name_field(w) =~= raw_name@);
                } else {
                    assert(name_field(w) =~= raw_name@);
                }
            }
            let name = from_utf8_lossy(raw_name.as_slice());
            Some(Section { name, va, vsize, raw, rawsize })
        },
        _ => None,
    }
}

impl Image {
    /// The section headers, as values.
    pub open spec fn section_views(&self) -> Seq<SectionView> {
        self.sections@.map_values(|s: Section| s.view_of())
    }

    /// Whether `rva` lies in the span of the first section called `name`.
    pub open spec fn spec_rva_in(&self, rva: u32, name: Seq<char>) -> bool {
        exists|i: int|
            0 <= i < self.sections.len() && self.sections@[i].name@ == name && (forall|j: int|
                0 <= j < i ==> self.sections@[j].name@ != name) && ({
                let s = #[trigger] self.sections@[i];
                rva >= s.va && rva < wadd(
                    s.va,
                    if s.vsize >= s.rawsize {
                        s.vsize
                    } else {
                        s.rawsize
                    },
                )
            })
    }

    /// The index of the first section called `name`.
    pub open spec fn spec_first_section(&self, name: Seq<char>) -> Option<int> {
        if exists|i: int| 0 <= i < self.sections.len() && self.sections@[i].name@ == name {
            Some(
                choose|i: int|
                    0 <= i < self.sections.len() && self.sections@[i].name@ == name && forall|j: int|
                        0 <= j < i ==> self.sections@[j].name@ != name,
            )
        } else {
            None
        }
    }

    /// The initialised span of the first section called `name`, as RVAs.
    pub open spec fn spec_initialised(&self, name: Seq<char>) -> Option<(u32, u32)> {
        match self.spec_first_section(name) {
            Some(i) => Some((self.sections@[i].va, wadd(self.sections@[i].va, self.sections@[i].rawsize))),
            None => None,
        }
    }

    /// The `u32` at `rva`, if it is file-backed.
    pub open spec fn spec_u32_rva(&self, rva: u32) -> Option<u32> {
        match self.spec_rva2off(rva) {
            Some(o) => le32(self.data@, o),
            None => None,
        }
    }

    /// The `u64` at `rva`, if it is file-backed.
    pub open spec fn spec_u64_rva(&self, rva: u32) -> Option<u64> {
        match self.spec_rva2off(rva) {
            Some(o) => le64(self.data@, o),
            None => None,
        }
    }

    /// The RVA of a virtual address.
    pub open spec fn spec_va2rva(&self, va: u64) -> Option<u32> {
        if va >= self.image_base && va - self.image_base <= u32::MAX {
            Some((va - self.image_base) as u32)
        } else {
            None
        }
    }

    /// The file offset backing `rva`, if it is file-backed at all.
    pub open spec fn spec_rva2off(&self, rva: u32) -> Option<int> {
        rva_offset(self.section_views(), rva)
    }

    /// The printable string at `rva`.
    pub open spec fn spec_cstr(&self, rva: u32, limit: int) -> Option<Seq<char>> {
        match self.spec_rva2off(rva) {
            Some(o) => cstr_at(self.data@, o, limit),
            None => None,
        }
    }

    /// Read the headers out of an executable's bytes; `None` for anything
    /// that is not a well-formed PE32+ image.
    pub fn parse(data: Vec<u8>) -> (r: Option<Image>)
        ensures
            match r {
                Some(img) => img.data@ == data@ && headers(data@) == Some(
                    (img.image_base, img.size_of_image, img.section_views()),
                ),
                None => headers(data@) is None,
            },
    {
        let peo = match u32_at(data.as_slice(), 0x3C) {
            Some(p) => p as usize,
            None => return None,
        };
        if peo > data.len() || data.len() - peo < 4 {
            return None;
        }
        if !(data[peo] == 0x50 && data[peo + 1] == 0x45 && data[peo + 2] == 0 && data[peo + 3] == 0) {
            assert(data@.subrange(peo as int, peo + 4) != seq![0x50u8, 0x45, 0, 0]) by {
                if data@.subrange(peo as int, peo + 4) == seq![0x50u8, 0x45, 0, 0] {
                    assert(data@.subrange(peo as int, peo + 4)[0] == data@[peo as int]);
                    assert(data@.subrange(peo as int, peo + 4)[1] == data@[peo + 1]);
                    assert(data@.subrange(peo as int, peo + 4)[2] == data@[peo + 2]);
                    assert(data@.subrange(peo as int, peo + 4)[3] == data@[peo + 3]);
                }
            }
            return None;
        }
        assert(data@.subrange(peo as int, peo + 4) =~= seq![0x50u8, 0x45, 0, 0]);
        let nsec = match u16_at_off(data.as_slice(), peo, 6) {
            Some(n) => n as usize,
            None => return None,
        };
        let opt = match peo.checked_add(24) {
            Some(x) => x,
            None => return None,
        };
        let magic = match u16_at(data.as_slice(), opt) {
            Some(m) => m,
            None => return None,
        };
        let optsize = match u16_at_off(data.as_slice(), peo, 20) {
            Some(n) => n as usize,
            None => return None,
        };
        if magic != 0x20B {
            return None;
        }
        let image_base = match u64_at_off(data.as_slice(), opt, 24) {
            Some(b) => b,
            None => return None,
        };
        let size_of_image = match u32_at_off(data.as_slice(), opt, 56) {
            Some(s) => s,
            None => return None,
        };
        let sectab = if nsec == 0 {
            0
        } else {
            match opt.checked_add(optsize) {
                Some(x) => x,
                None => {
                    proof {
                        lemma_sections_past_end(data@, opt + optsize, nsec as nat);
                    }
                    return None;
                },
            }
        };
        assert(nsec == 0 ==> sections_at(data@, opt + optsize, 0) == Some(Seq::<SectionView>::empty()));
        assert(headers(data@) == (match sections_at(data@, opt + optsize, nsec as nat) {
            Some(secs) => Some((image_base, size_of_image, secs)),
            None => None,
        }));
        let mut sections: Vec<Section> = Vec::new();
        let mut i: usize = 0;
        while i < nsec
            invariant
                0 <= i <= nsec,
                nsec <= 0xFFFF,
                sections.len() == i,
                data@.len() <= usize::MAX,
                nsec > 0 ==> sectab == opt + optsize,
                headers(data@) == (match sections_at(data@, opt + optsize, nsec as nat) {
                    Some(secs) => Some((image_base, size_of_image, secs)),
                    None => None::<(u64, u32, Seq<SectionView>)>,
                }),
                sections_at(data@, sectab as int, i as nat) == Some(
                    sections@.map_values(|s: Section| s.view_of()),
                ),
            decreases nsec - i,
        {
            let o = match sectab.checked_add(i * 40) {
                Some(x) => x,
                None => {
                    assert(section_at(data@, sectab + i * 40) is None);
                    proof {
                        lemma_sections_fail(data@, sectab as int, (i + 1) as nat, nsec as nat);
                    }
                    return None;
                },
            };
            let ghost prev = sections@.map_values(|s: Section| s.view_of());
            if o > data.len() || data.len() - o < 8 {
                assert(section_at(data@, o as int) is None);
                assert(sections_at(data@, sectab as int, (i + 1) as nat) is None) by {
                    reveal_with_fuel(sections_at, 2);
                }
                proof {
                    lemma_sections_fail(data@, sectab as int, (i + 1) as nat, nsec as nat);
                }
                return None;
            }
            match read_section(data.as_slice(), o) {
                Some(sec) => {
                    sections.push(sec);
                    assert(sections@.map_values(|s: Section| s.view_of()) =~= prev.push(
                        sections@[i as int].view_of(),
                    ));
                },
                None => {
                    proof {
                        lemma_sections_fail(data@, sectab as int, (i + 1) as nat, nsec as nat);
                    }
                    return None;
                },
            }
            i = i + 1;
        }
        let img = Image { data, image_base, size_of_image, sections };
        assert(img.section_views() =~= sections@.map_values(|s: Section| s.view_of()));
        Some(img)
    }

    /// The first section called `name`.
    pub fn section(&self, name: &str) -> (r: Option<&Section>)
        ensures
            match r {
                Some(s) => exists|i: int|
                    0 <= i < self.sections.len() && self.sections@[i] == *s && s.name@ == name@
                        && forall|j: int| 0 <= j < i ==> self.sections@[j].name@ != name@,
                None => forall|j: int| 0 <= j < self.sections.len() ==> self.sections@[j].name@ != name@,
            },
    {
        let mut i: usize = 0;
        while i < self.sections.len()
            invariant
                0 <= i <= self.sections.len(),
                forall|j: int| 0 <= j < i ==> self.sections@[j].name@ != name@,
            decreases self.sections.len() - i,
        {
            if str_eq(self.sections[i].name.as_str(), name) {
                return Some(&self.sections[i]);
            }
            i = i + 1;
        }
        None
    }

    /// Whether `rva` lies in the section called `name`.
    pub fn rva_in(&self, rva: u32, name: &str) -> (r: bool)
        ensures
            r == self.spec_rva_in(rva, name@),
    {
        match self.section(name) {
            Some(s) => {
                let span = if s.vsize >= s.rawsize {
                    s.vsize
                } else {
                    s.rawsize
                };
                let r = rva >= s.va && rva < s.va.wrapping_add(span);
                proof {
                    if !r {
                        assert forall|i: int|
                            0 <= i < self.sections.len() && self.sections@[i].name@ == name@
                                && (forall|j: int| 0 <= j < i ==> self.sections@[j].name@ != name@) implies !({
                            let s = #[trigger] self.sections@[i];
                            rva >= s.va && rva < wadd(
                                s.va,
                                if s.vsize >= s.rawsize {
                                    s.vsize
                                } else {
                                    s.rawsize
                                },
                            )
                        }) by {
                            let k = choose|k: int|
                                0 <= k < self.sections.len() && self.sections@[k] == *s && s.name@ == name@
                                    && forall|j: int| 0 <= j < k ==> self.sections@[j].name@ != name@;
                            if i < k {
                                assert(self.sections@[i].name@ != name@);
                            } else if i > k {
                                assert(self.sections@[k].name@ != name@);
                            }
                        }
                    }
                }
                r
            },
            None => false,
        }
    }

    /// File offset backing `rva`, if it is file-backed at all.
    pub fn rva2off(&self, rva: u32) -> (r: Option<usize>)
        ensures
            match r {
                Some(o) => self.spec_rva2off(rva) == Some(o as int),
                None => self.spec_rva2off(rva) is None,
            },
    {
        let ghost views = self.section_views();
        assert(views.subrange(0, views.len() as int) =~= views);
        let mut i: usize = 0;
        while i < self.sections.len()
            invariant
                0 <= i <= self.sections.len(),
                views == self.section_views(),
                rva_offset(views, rva) == rva_offset(views.subrange(i as int, views.len() as int), rva),
            decreases self.sections.len() - i,
        {
            let s = &self.sections[i];
            let ghost rest = views.subrange(i as int, views.len() as int);
            assert(rest[0] == s.view_of());
            assert(rest.drop_first() =~= views.subrange(i + 1, views.len() as int));
            let span = if s.vsize >= s.rawsize {
                s.vsize
            } else {
                s.rawsize
            };
            if rva >= s.va && rva < s.va.wrapping_add(span) {
                let d = rva - s.va;
                if d < s.rawsize {
                    return Some(s.raw.wrapping_add(d) as usize);
                }
            }
            i = i + 1;
        }
        None
    }

    pub fn u32_rva(&self, rva: u32) -> (r: Option<u32>)
        ensures
            r == self.spec_u32_rva(rva),
    {
        match self.rva2off(rva) {
            Some(o) => u32_at(self.data.as_slice(), o),
            None => None,
        }
    }

    pub fn u64_rva(&self, rva: u32) -> (r: Option<u64>)
        ensures
            r == self.spec_u64_rva(rva),
    {
        match self.rva2off(rva) {
            Some(o) => u64_at(self.data.as_slice(), o),
            None => None,
        }
    }

    /// A printable NUL-terminated string at `rva`, looked for within `limit`
    /// bytes.
    pub fn cstr(&self, rva: u32, limit: usize) -> (r: Option<String>)
        ensures
            match r {
                Some(s) => self.spec_cstr(rva, limit as int) == Some(s@),
                None => self.spec_cstr(rva, limit as int) is None,
            },
    {
        let o = match self.rva2off(rva) {
            Some(o) => o,
            None => return None,
        };
        let d = &self.data;
        let end = if limit <= d.len() && o <= d.len() - limit {
            o + limit
        } else {
            d.len()
        };
        if o > end {
            return None;
        }
        let ghost w = d@.subrange(o as int, end as int);
        let mut k: usize = o;
        while k < end && d[k] != 0
            invariant
                o <= k <= end <= d.len(),
                w == d@.subrange(o as int, end as int),
                forall|j: int| 0 <= j < k - o ==> w[j] != 0,
            decreases end - k,
        {
            assert(w[k - o] == d@[k as int]);
            k = k + 1;
        }
        if k == end {
            assert forall|i: int| 0 <= i < w.len() implies w[i] != 0 by {}
            return None;
        }
        assert(w[k - o] == d@[k as int]);
        proof {
            lemma_first_zero(w, k - o);
        }
        let mut s = String::new();
        let mut j: usize = o;
        while j < k
            invariant
                o <= j <= k < end <= d.len(),
                w == d@.subrange(o as int, end as int),
                forall|x: int| 0 <= x < j - o ==> 0x20 <= #[trigger] w[x] < 0x7F,
                s@ == w.take(j - o).map_values(|b: u8| b as char),
                first_zero(w) == Some(k - o),
                self.spec_rva2off(rva) == Some(o as int),
                end == (if o + limit <= d.len() {
                    o + limit
                } else {
                    d.len() as int
                }),
                d == &self.data,
            decreases k - j,
        {
            let b = d[j];
            assert(w[j - o] == b);
            if b < 0x20 || b >= 0x7F {
                assert(!(0x20 <= w[j - o] < 0x7F));
                assert(!printable_upto(w, k - o));
                assert(self.data@.subrange(o as int, end as int) == w);
                let ghost e2: int = if o + limit <= self.data@.len() {
                    o + limit
                } else {
                    self.data@.len() as int
                };
                assert(e2 == end);
                assert(!(o > e2));
                assert(first_zero(self.data@.subrange(o as int, e2)) == Some(k - o));
                assert(cstr_at(self.data@, o as int, limit as int) is None);
                return None;
            }
            crate::text::push_char(&mut s, b as char);
            assert(w.take(j + 1 - o).map_values(|b: u8| b as char) =~= w.take(j - o).map_values(
                |b: u8| b as char,
            ).push(b as char));
            j = j + 1;
        }
        Some(s)
    }

    /// The RVA of a virtual address, if it lies above the image base within
    /// 32 bits of it.
    pub fn va2rva(&self, va: u64) -> (r: Option<u32>)
        ensures
            r == self.spec_va2rva(va),
    {
        if va < self.image_base {
            return None;
        }
        let d = va - self.image_base;
        if d > 0xFFFF_FFFF {
            return None;
        }
        Some(d as u32)
    }

    /// Bounds of the initialised part of the section called `name`, as RVAs.
    pub fn initialised_range(&self, name: &str) -> (r: Option<(u32, u32)>)
        ensures
            r == self.spec_initialised(name@),
    {
        let r = self.section(name);
        proof {
            match r {
                Some(sec) => {
                    let k = choose|k: int|
                        0 <= k < self.sections.len() && self.sections@[k] == *sec && sec.name@ == name@
                            && forall|j: int| 0 <= j < k ==> self.sections@[j].name@ != name@;
                    let c = choose|i: int|
                        0 <= i < self.sections.len() && self.sections@[i].name@ == name@ && forall|j: int|
                            0 <= j < i ==> self.sections@[j].name@ != name@;
                    assert(self.sections@[k].name@ == name@);
                    if c < k {
                        assert(self.sections@[c].name@ != name@);
                    } else if c > k {
                        assert(self.sections@[k].name@ != name@);
                    }
                },
                None => {},
            }
        }
        match r {
            Some(s) => Some((s.va, s.va.wrapping_add(s.rawsize))),
            None => None,
        }
    }
}

/// A table that starts past the end of the bytes reads as nothing, unless it
/// is empty.
proof fn lemma_sections_past_end(d: Seq<u8>, tab: int, n: nat)
    requires
        tab > d.len(),
    ensures
        n > 0 ==> sections_at(d, tab, n) is None,
{
    if n > 0 {
        assert(section_at(d, tab) is None);
        assert(sections_at(d, tab, 1) is None) by {
            reveal_with_fuel(sections_at, 2);
        }
        lemma_sections_fail(d, tab, 1, n);
    }
}

/// The import descriptors from file offset `desc` on: the first whose DLL
/// name matches `dll` ignoring ASCII case decides; a descriptor with no name
/// ends the table.
pub open spec fn desc_search(img: Image, desc: int, dll: Seq<char>, func: Seq<char>) -> Option<u32>
    decreases img.data@.len() - desc,
{
    let d = img.data@;
    match (le32(d, desc), le32(d, desc + 12), le32(d, desc + 16)) {
        (Some(ilt), Some(name_rva), Some(iat_rva)) => if name_rva == 0 {
            None
        } else if same_ignoring_case(
            match img.spec_cstr(name_rva, 260) {
                Some(n) => n,
                None => Seq::empty(),
            },
            dll,
        ) {
            match img.spec_rva2off(
                if ilt != 0 {
                    ilt
                } else {
                    iat_rva
                },
            ) {
                Some(walk) => entry_search(img, walk, 0, iat_rva, func),
                None => None,
            }
        } else {
            desc_search(img, desc + 20, dll, func)
        },
        _ => None,
    }
}

/// Whether a lookup entry imports `func` by name: not by ordinal, and the
/// name after its two-byte hint is `func`.
pub open spec fn names_func(img: Image, entry: u64, func: Seq<char>) -> bool {
    (entry & 0x8000_0000_0000_0000u64) == 0 && img.spec_cstr(
        ((entry & 0x7FFF_FFFFu64) + 2) as u32,
        260,
    ) == Some(func)
}

/// The lookup entries from file offset `walk` on, the `index`th onwards: the
/// IAT slot parallel to the first that names `func`, before the terminating
/// zero entry.
pub open spec fn entry_search(img: Image, walk: int, index: u32, iat_rva: u32, func: Seq<char>) -> Option<
    u32,
>
    decreases img.data@.len() - walk,
{
    match le64(img.data@, walk) {
        None => None,
        Some(entry) => if entry == 0 {
            None
        } else if names_func(img, entry, func) {
            Some(wadd(iat_rva, vstd::wrapping::u32_specs::wrapping_mul(index, 8)))
        } else {
            entry_search(img, walk + 8, wadd(index, 1), iat_rva, func)
        },
    }
}

/// Where the import directory starts in the file.
pub open spec fn import_table(img: Image) -> Option<int> {
    match le32(img.data@, 0x3C) {
        None => None,
        Some(peo) => match le32(img.data@, peo + 144) {
            None => None,
            Some(dir) => img.spec_rva2off(dir),
        },
    }
}

impl Image {
    /// RVA of the import-address-table slot holding `func` imported from
    /// `dll`, the DLL name matched ignoring ASCII case.
    ///
    /// Overwriting one pointer there redirects a call the game already makes
    /// every frame: no code is modified, and undoing it is writing the
    /// original pointer back.
    pub fn iat_slot(&self, dll: &str, func: &str) -> (r: Option<u32>)
        ensures
            r == (match import_table(*self) {
                Some(desc) => desc_search(*self, desc, dll@, func@),
                None => None,
            }),
    {
        let d = self.data.as_slice();
        let n = d.len();
        let peo = match u32_at(d, 0x3C) {
            Some(p) => p as usize,
            None => return None,
        };
        let import_dir = match u32_at_off(d, peo, 144) {
            Some(x) => x,
            None => return None,
        };
        let mut desc = match self.rva2off(import_dir) {
            Some(o) => o,
            None => return None,
        };
        let ghost start = desc as int;
        assert(import_table(*self) == Some(start));
        loop
            invariant
                d@ == self.data@,
                n == d@.len(),
                import_table(*self) == Some(start),
                desc_search(*self, start, dll@, func@) == desc_search(*self, desc as int, dll@, func@),
            decreases self.data@.len() - desc,
        {
            let f = (u32_at(d, desc), u32_at_off(d, desc, 12), u32_at_off(d, desc, 16));
            let (ilt, name_rva, iat_rva) = match f {
                (Some(a), Some(b), Some(c)) => (a, b, c),
                _ => return None,
            };
            if name_rva == 0 {
                return None;
            }
            let this_dll = match self.cstr(name_rva, 260) {
                Some(n) => n,
                None => String::new(),
            };
            if eq_ignore_ascii(this_dll.as_str(), dll) {
                let first = if ilt != 0 {
                    ilt
                } else {
                    iat_rva
                };
                let mut walk = match self.rva2off(first) {
                    Some(o) => o,
                    None => return None,
                };
                let mut index: u32 = 0;
                let ghost wstart = walk as int;
                assert(desc_search(*self, desc as int, dll@, func@) == entry_search(*self, wstart, 0, iat_rva, func@));
                loop
                    invariant
                        d@ == self.data@,
                        n == d@.len(),
                        import_table(*self) == Some(start),
                        desc_search(*self, start, dll@, func@) == entry_search(*self, wstart, 0, iat_rva, func@),
                        entry_search(*self, wstart, 0, iat_rva, func@) == entry_search(
                            *self,
                            walk as int,
                            index,
                            iat_rva,
                            func@,
                        ),
                    decreases self.data@.len() - walk,
                {
                    let entry = match u64_at(d, walk) {
                        Some(e) => e,
                        None => return None,
                    };
                    if entry == 0 {
                        return None;
                    }
                    if entry & 0x8000_0000_0000_0000u64 == 0 {
                        let masked = entry & 0x7FFF_FFFF;
                        assert(masked <= 0x7FFF_FFFF) by (bit_vector)
                            requires
                                masked == entry & 0x7FFF_FFFFu64,
                        ;
                        let hint_name = masked as u32;
                        match self.cstr(hint_name + 2, 260) {
                            Some(n) => {
                                if str_eq(n.as_str(), func) {
                                    return Some(iat_rva.wrapping_add(index.wrapping_mul(8)));
                                }
                            },
                            None => {},
                        }
                    }
                    walk = walk + 8;
                    index = index.wrapping_add(1);
                }
            }
            desc = desc + 20;
        }
    }
}

/// If a prefix of the section table fails to read, the whole table does.
proof fn lemma_sections_fail(d: Seq<u8>, tab: int, k: nat, n: nat)
    requires
        k <= n,
        sections_at(d, tab, k) is None,
    ensures
        sections_at(d, tab, n) is None,
    decreases n - k,
{
    if k < n {
        lemma_sections_fail(d, tab, k + 1, n);
    }
}

proof fn lemma_same_case_swap(n: Seq<char>, d1: Seq<char>, d2: Seq<char>)
    requires
        same_ignoring_case(d1, d2),
    ensures
        same_ignoring_case(n, d1) == same_ignoring_case(n, d2),
{
}

proof fn lemma_desc_search_ignores_case(img: Image, desc: int, d1: Seq<char>, d2: Seq<char>, func: Seq<char>)
    requires
        same_ignoring_case(d1, d2),
    ensures
        desc_search(img, desc, d1, func) == desc_search(img, desc, d2, func),
    decreases img.data@.len() - desc,
{
    let d = img.data@;
    match (le32(d, desc), le32(d, desc + 12), le32(d, desc + 16)) {
        (Some(ilt), Some(name_rva), Some(iat_rva)) => if name_rva != 0 {
            let n = match img.spec_cstr(name_rva, 260) {
                Some(n) => n,
                None => Seq::empty(),
            };
            lemma_same_case_swap(n, d1, d2);
            if !same_ignoring_case(n, d1) {
                if desc + 20 <= d.len() {
                    lemma_desc_search_ignores_case(img, desc + 20, d1, d2, func);
                } else {
                    assert(le32(d, desc + 20) is None);
                    assert(desc_search(img, desc + 20, d1, func) is None);
                    assert(desc_search(img, desc + 20, d2, func) is None);
                }
            }
        },
        _ => {},
    }
}

/// The IAT slot found for a DLL does not depend on how its name is cased:
/// two names equal ignoring ASCII case find the same slot.
pub proof fn lemma_iat_slot_ignores_case(img: Image, d1: Seq<char>, d2: Seq<char>, func: Seq<char>)
    requires
        same_ignoring_case(d1, d2),
    ensures
        match import_table(img) {
            Some(desc) => desc_search(img, desc, d1, func) == desc_search(img, desc, d2, func),
            None => true,
        },
{
    match import_table(img) {
        Some(desc) => lemma_desc_search_ignores_case(img, desc, d1, d2, func),
        None => {},
    }
}

} // verus!
