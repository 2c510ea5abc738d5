//! The offset table builder: drives a module's registry entries against one
//! image, isolating per-pattern failure and reporting every outcome.
use vstd::prelude::*;

use crate::offset_map::OffsetMap;
use crate::pattern::Pattern;
use crate::scanner::{find, find_spec, le32_at, lemma_capture_count_agrees, rip_target};

verus! {

/// A follow-up computation attached to a registry entry. It may add further
/// named offsets derived from the matched address and the image; it
/// tolerates missing prerequisites by doing nothing.
pub enum Derivation {
    /// No follow-up.
    NoDerivation,
    /// Record, under `name`, the little-endian 32-bit value embedded
    /// `delta` bytes after the matched address; nothing when that field
    /// lies outside the image.
    ReadAdjacent { name: String, delta: usize },
    /// Record, under `name`, an earlier entry's value plus `addend`, modulo
    /// 2^32; nothing when the `source` entry is absent.
    FromEarlier { name: String, source: String, addend: u32 },
}

/// One registered signature: the offset name it resolves, its compiled
/// pattern, and an optional derivation rule.
pub struct RegistryEntry {
    pub name: String,
    pub pattern: Pattern,
    pub derivation: Derivation,
}

impl RegistryEntry {
    /// The pattern's recorded totals agree with its atoms, and it captures
    /// at least one value to name.
    pub open spec fn wf(&self) -> bool {
        &&& self.pattern.wf()
        &&& self.pattern.capture_count >= 1
    }
}

/// One observation per attempted pattern; purely informational.
#[derive(Debug)]
pub enum Diagnostic {
    /// The pattern matched, and the offset name now stands for this
    /// module-relative address.
    Matched { name: String, rva: u32 },
    /// The pattern matched nothing in this image: the signature went stale.
    Stale { name: String },
}

/// What a derivation rule does to the map.
pub open spec fn derive_spec(
    d: Derivation,
    img: Seq<u8>,
    m: Map<Seq<char>, u32>,
    rva: u32,
) -> Map<Seq<char>, u32> {
    match d {
        Derivation::NoDerivation => m,
        Derivation::ReadAdjacent { name, delta } => if rva + delta + 4 <= img.len()
            && !m.contains_key(name@) {
            m.insert(name@, le32_at(img, rva + delta))
        } else {
            m
        },
        Derivation::FromEarlier { name, source, addend } => if m.contains_key(source@)
            && !m.contains_key(name@) {
            m.insert(name@, rip_target(m[source@] as int, addend))
        } else {
            m
        },
    }
}

/// What processing one entry does to the map: nothing when the pattern is
/// stale; otherwise the first captured address is recorded under the
/// entry's name (never overwriting), and the derivation rule runs.
pub open spec fn entry_step(e: RegistryEntry, img: Seq<u8>, m: Map<Seq<char>, u32>) -> Map<
    Seq<char>,
    u32,
> {
    match find_spec(e.pattern, img) {
        None => m,
        Some((pos, caps)) => {
            let rva = caps[0];
            let m1 = if m.contains_key(e.name@) {
                m
            } else {
                m.insert(e.name@, rva)
            };
            derive_spec(e.derivation, img, m1, rva)
        },
    }
}

/// The map after processing the entries in registration order, starting
/// from `m`.
pub open spec fn build_from(
    entries: Seq<RegistryEntry>,
    img: Seq<u8>,
    m: Map<Seq<char>, u32>,
) -> Map<Seq<char>, u32>
    decreases entries.len(),
{
    if entries.len() == 0 {
        m
    } else {
        build_from(entries.skip(1), img, entry_step(entries[0], img, m))
    }
}

/// The offset map one module's registry produces on one image.
pub open spec fn build_map(entries: Seq<RegistryEntry>, img: Seq<u8>) -> Map<Seq<char>, u32> {
    build_from(entries, img, Map::<Seq<char>, u32>::empty())
}

/// The diagnostic owed for one entry: stale exactly when the pattern finds
/// nothing, else the matched name and first captured address.
pub open spec fn diag_ok(e: RegistryEntry, img: Seq<u8>, d: Diagnostic) -> bool {
    match d {
        Diagnostic::Matched { name, rva } => name@ == e.name@ && match find_spec(e.pattern, img) {
            Some((pos, caps)) => rva == caps[0],
            None => false,
        },
        Diagnostic::Stale { name } => name@ == e.name@ && find_spec(e.pattern, img) is None,
    }
}

/// Two registry entries that agree in name and atoms, neither carrying a
/// derivation rule, are interchangeable for the builder.
pub open spec fn entry_view_eq(e1: RegistryEntry, e2: RegistryEntry) -> bool {
    &&& e1.name@ == e2.name@
    &&& e1.pattern.atoms@ == e2.pattern.atoms@
    &&& e1.derivation matches Derivation::NoDerivation
    &&& e2.derivation matches Derivation::NoDerivation
}

proof fn lemma_entry_step_congruent(
    e1: RegistryEntry,
    e2: RegistryEntry,
    img: Seq<u8>,
    m: Map<Seq<char>, u32>,
)
    requires
        entry_view_eq(e1, e2),
    ensures
        entry_step(e1, img, m) == entry_step(e2, img, m),
{
    crate::scanner::lemma_find_from_congruent(e1.pattern, e2.pattern, img, 0);
}

/// The map a module's build produces depends only on what its entries say:
/// their names and atoms. With the image fixed, interchangeable entries
/// build the same map, so a whole run is a function of the provided images.
pub proof fn lemma_build_from_congruent(
    s1: Seq<RegistryEntry>,
    s2: Seq<RegistryEntry>,
    img: Seq<u8>,
    m: Map<Seq<char>, u32>,
)
    requires
        s1.len() == s2.len(),
        forall|j: int| 0 <= j < s1.len() ==> entry_view_eq(#[trigger] s1[j], #[trigger] s2[j]),
    ensures
        build_from(s1, img, m) == build_from(s2, img, m),
    decreases s1.len(),
{
    if s1.len() > 0 {
        lemma_entry_step_congruent(s1[0], s2[0], img, m);
        assert forall|j: int| 0 <= j < s1.skip(1).len() implies entry_view_eq(
            #[trigger] s1.skip(1)[j],
            #[trigger] s2.skip(1)[j],
        ) by {
            assert(s1.skip(1)[j] == s1[j + 1]);
            assert(s2.skip(1)[j] == s2[j + 1]);
        }
        lemma_build_from_congruent(s1.skip(1), s2.skip(1), img, entry_step(s1[0], img, m));
    }
}

/// A derivation rule tolerates a missing prerequisite: a rule that reads
/// an earlier entry's value leaves the map untouched when that entry is
/// absent, rather than failing.
pub proof fn lemma_missing_prerequisite_is_skip(
    d: Derivation,
    img: Seq<u8>,
    m: Map<Seq<char>, u32>,
    rva: u32,
)
    requires
        d matches Derivation::FromEarlier { name, source, addend } && !m.contains_key(source@),
    ensures
        derive_spec(d, img, m, rva) == m,
{
}

/// One stale pattern never blocks the rest: an entry whose pattern matches
/// nothing contributes no entry, and the remaining entries build exactly
/// the map they would build without it.
pub proof fn lemma_stale_entry_skipped(
    e: RegistryEntry,
    rest: Seq<RegistryEntry>,
    img: Seq<u8>,
    m: Map<Seq<char>, u32>,
)
    requires
        find_spec(e.pattern, img) is None,
    ensures
        build_from(seq![e] + rest, img, m) == build_from(rest, img, m),
{
    assert((seq![e] + rest)[0] == e);
    assert((seq![e] + rest).skip(1) =~= rest);
    assert(entry_step(e, img, m) == m);
}

/// Runs one derivation rule against the image and the map built so far.
fn apply_derivation(d: &Derivation, image: &Vec<u8>, map: &mut OffsetMap, rva: u32)
    requires
        old(map).wf(),
    ensures
        final(map).wf(),
        final(map)@ == derive_spec(*d, image@, old(map)@, rva),
{
    proof {
        assert(image@.len() == image.len());
    }
    match d {
        Derivation::NoDerivation => {},
        Derivation::ReadAdjacent { name, delta } => {
            let start = match (rva as usize).checked_add(*delta) {
                Some(s) => s,
                None => {
                    return ;
                },
            };
            let end = match start.checked_add(4) {
                Some(e) => e,
                None => {
                    return ;
                },
            };
            if end <= image.len() {
                let value = crate::scanner::read_le32(image, start);
                map.insert(name.clone(), value);
            }
        },
        Derivation::FromEarlier { name, source, addend } => {
            match map.get(source) {
                Some(v) => {
                    let value = v.wrapping_add(*addend);
                    proof {
                        assert(value == rip_target(v as int, *addend));
                    }
                    map.insert(name.clone(), value);
                },
                None => {},
            }
        },
    }
}

/// Builds one module's offset map by running every registered pattern, in
/// registration order, against the image. A stale pattern contributes
/// nothing and never stops the pass; every attempt is reported in the
/// returned diagnostics, one per entry, in order.
pub fn build(entries: &Vec<RegistryEntry>, image: &Vec<u8>) -> (r: (OffsetMap, Vec<Diagnostic>))
    requires
        image@.len() <= u32::MAX,
        forall|i: int| 0 <= i < entries@.len() ==> (#[trigger] entries@[i]).wf(),
    ensures
        r.0.wf(),
        r.0@ == build_map(entries@, image@),
        r.1@.len() == entries@.len(),
        forall|i: int|
            0 <= i < entries@.len() ==> diag_ok(entries@[i], image@, #[trigger] r.1@[i]),
{
    let n = entries.len();
    let mut map = OffsetMap::new();
    let mut diags: Vec<Diagnostic> = Vec::new();
    let mut k: usize = 0;
    proof {
        assert(entries@.skip(0) =~= entries@);
    }
    while k < n
        invariant
            k <= n,
            n == entries@.len(),
            image@.len() <= u32::MAX,
            forall|i: int| 0 <= i < entries@.len() ==> (#[trigger] entries@[i]).wf(),
            map.wf(),
            build_map(entries@, image@) == build_from(entries@.skip(k as int), image@, map@),
            diags@.len() == k,
            forall|i: int| 0 <= i < k ==> diag_ok(entries@[i], image@, #[trigger] diags@[i]),
        decreases n - k,
    {
        let entry = &entries[k];
        proof {
            assert(entries@.skip(k as int)[0] == entries@[k as int]);
            assert(entries@.skip(k as int).skip(1) =~= entries@.skip(k as int + 1));
        }
        match find(&entry.pattern, image) {
            Some(m) => {
                proof {
                    lemma_capture_count_agrees(entry.pattern, image@, m.offset as int);
                }
                let rva = m.captures[0];
                map.insert(entry.name.clone(), rva);
                apply_derivation(&entry.derivation, image, &mut map, rva);
                diags.push(Diagnostic::Matched { name: entry.name.clone(), rva });
            },
            None => {
                diags.push(Diagnostic::Stale { name: entry.name.clone() });
            },
        }
        k = k + 1;
    }
    proof {
        assert(entries@.skip(n as int) =~= Seq::<RegistryEntry>::empty());
    }
    (map, diags)
}

} // verus!
