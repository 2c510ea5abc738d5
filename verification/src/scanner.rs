//! The image scanner: finds the first window of a byte buffer that a
//! compiled pattern matches, and extracts the captured values.
use vstd::prelude::*;

use crate::pattern::{atom_size, atoms_capture_count, atoms_size, Atom, Pattern};

verus! {

/// The little-endian 32-bit value stored at position `p`.
pub open spec fn le32_at(img: Seq<u8>, p: int) -> u32
    recommends
        0 <= p,
        p + 4 <= img.len(),
{
    (img[p] + img[p + 1] * 0x100 + img[p + 2] * 0x10000 + img[p + 3] * 0x1000000) as u32
}

/// The address an instruction-pointer-relative field resolves to: the
/// position just after the field plus the field's value, modulo 2^32.
pub open spec fn rip_target(after: int, disp: u32) -> u32
    recommends
        0 <= after,
{
    (((after + disp) % 0x100000000) as u32)
}

/// Whether one atom accepts the image bytes at position `p`.
pub open spec fn atom_matches(a: Atom, img: Seq<u8>, p: int) -> bool
    recommends
        0 <= p,
        p + atom_size(a) <= img.len(),
{
    match a {
        Atom::Exact(b) => img[p] == b,
        Atom::Wildcard => true,
        Atom::MaskedWildcard(v, m) => img[p] & m == v & m,
        Atom::CaptureRipRelative => true,
        Atom::CaptureRawLiteral => true,
        Atom::Skip(_) => true,
    }
}

/// Whether every atom accepts the image bytes, each at its own position.
pub open spec fn atoms_match(s: Seq<Atom>, img: Seq<u8>, p: int) -> bool
    decreases s.len(),
{
    s.len() == 0 || (atom_matches(s[0], img, p) && atoms_match(s.skip(1), img, p + atom_size(s[0])))
}

/// The values the capture atoms extract at position `p`, in atom order.
pub open spec fn atoms_captures(s: Seq<Atom>, img: Seq<u8>, p: int) -> Seq<u32>
    decreases s.len(),
{
    if s.len() == 0 {
        Seq::<u32>::empty()
    } else {
        let rest = atoms_captures(s.skip(1), img, p + atom_size(s[0]));
        match s[0] {
            Atom::CaptureRipRelative => seq![rip_target(p + 4, le32_at(img, p))] + rest,
            Atom::CaptureRawLiteral => seq![le32_at(img, p)] + rest,
            _ => rest,
        }
    }
}

/// A pattern matches the image at `pos`: the window fits and every atom accepts.
pub open spec fn match_at(p: Pattern, img: Seq<u8>, pos: int) -> bool {
    &&& 0 <= pos
    &&& pos + atoms_size(p.atoms@) <= img.len()
    &&& atoms_match(p.atoms@, img, pos)
}

/// The first match at or after `from`: its position and its captures.
pub open spec fn find_from(p: Pattern, img: Seq<u8>, from: int) -> Option<(int, Seq<u32>)>
    decreases img.len() + 1 - from,
{
    if from < 0 || from + atoms_size(p.atoms@) > img.len() {
        None
    } else if atoms_match(p.atoms@, img, from) {
        Some((from, atoms_captures(p.atoms@, img, from)))
    } else {
        find_from(p, img, from + 1)
    }
}

/// What the scanner returns on an image: the first match, if any.
pub open spec fn find_spec(p: Pattern, img: Seq<u8>) -> Option<(int, Seq<u32>)> {
    find_from(p, img, 0)
}

/// However a match sits in the image, the number of captured values is the
/// number of capture atoms.
pub proof fn lemma_atoms_captures_len(s: Seq<Atom>, img: Seq<u8>, p: int)
    ensures
        atoms_captures(s, img, p).len() == atoms_capture_count(s),
    decreases s.len(),
{
    if s.len() > 0 {
        lemma_atoms_captures_len(s.skip(1), img, p + atom_size(s[0]));
    }
}

/// Every match the scanner reports extracts exactly as many values as the
/// pattern's compiled capture count declares.
pub proof fn lemma_capture_count_agrees(p: Pattern, img: Seq<u8>, pos: int)
    requires
        p.wf(),
    ensures
        atoms_captures(p.atoms@, img, pos).len() == p.capture_count,
{
    lemma_atoms_captures_len(p.atoms@, img, pos);
}

/// What `find_from` reports is sound and first: a reported position
/// matches, every earlier in-range position does not, and a `None` means no
/// in-range position matches at all.
pub proof fn lemma_find_from_first(p: Pattern, img: Seq<u8>, from: int)
    requires
        0 <= from,
    ensures
        match find_from(p, img, from) {
            Some((pos, caps)) => from <= pos && match_at(p, img, pos) && caps == atoms_captures(
                p.atoms@,
                img,
                pos,
            ) && forall|q: int| from <= q < pos ==> !match_at(p, img, q),
            None => forall|q: int| from <= q ==> !match_at(p, img, q),
        },
    decreases img.len() + 1 - from,
{
    if from + atoms_size(p.atoms@) > img.len() {
        assert forall|q: int| from <= q implies !match_at(p, img, q) by {}
    } else if atoms_match(p.atoms@, img, from) {
    } else {
        lemma_find_from_first(p, img, from + 1);
    }
}

/// What the scanner finds depends on the pattern's atoms alone: two
/// compiled patterns with the same atoms find the same match.
pub proof fn lemma_find_from_congruent(p1: Pattern, p2: Pattern, img: Seq<u8>, from: int)
    requires
        p1.atoms@ == p2.atoms@,
    ensures
        find_from(p1, img, from) == find_from(p2, img, from),
    decreases img.len() + 1 - from,
{
    if !(from < 0 || from + atoms_size(p1.atoms@) > img.len()) && !atoms_match(
        p1.atoms@,
        img,
        from,
    ) {
        lemma_find_from_congruent(p1, p2, img, from + 1);
    }
}

/// Scanning the same immutable image with the same pattern always yields
/// the same outcome: the scanner's contract pins its result to the one
/// value of `find_spec`, so two results that both satisfy it are equal.
pub proof fn lemma_scanner_deterministic(
    p: Pattern,
    img: Seq<u8>,
    r1: Option<(int, Seq<u32>)>,
    r2: Option<(int, Seq<u32>)>,
)
    requires
        r1 == find_spec(p, img),
        r2 == find_spec(p, img),
    ensures
        r1 == r2,
{
}

/// A pattern of exact atoms only, whose byte run occurs in the image at
/// exactly one position, is found at exactly that position, with no
/// captures.
pub open spec fn all_exact(s: Seq<Atom>) -> bool {
    forall|i: int| 0 <= i < s.len() ==> (#[trigger] s[i]) matches Atom::Exact(_)
}

/// The byte run an all-exact atom sequence stands for.
pub open spec fn exact_bytes(s: Seq<Atom>) -> Seq<u8> {
    Seq::new(
        s.len(),
        |i: int|
            match s[i] {
                Atom::Exact(b) => b,
                _ => 0,
            },
    )
}

proof fn lemma_all_exact_size(s: Seq<Atom>)
    requires
        all_exact(s),
    ensures
        atoms_size(s) == s.len(),
    decreases s.len(),
{
    if s.len() > 0 {
        assert(s[0] matches Atom::Exact(_));
        lemma_all_exact_size(s.skip(1));
    }
}

proof fn lemma_all_exact_match(s: Seq<Atom>, img: Seq<u8>, p: int)
    requires
        all_exact(s),
        0 <= p,
        p + s.len() <= img.len(),
    ensures
        atoms_match(s, img, p) <==> img.subrange(p, p + s.len() as int) =~= exact_bytes(s),
        atoms_captures(s, img, p) == Seq::<u32>::empty(),
    decreases s.len(),
{
    if s.len() > 0 {
        assert(s[0] matches Atom::Exact(_));
        lemma_all_exact_match(s.skip(1), img, p + 1);
        let sub = img.subrange(p, p + s.len() as int);
        let subr = img.subrange(p + 1, p + s.len() as int);
        assert(subr =~= sub.skip(1));
        assert(exact_bytes(s).skip(1) =~= exact_bytes(s.skip(1)));
        if atoms_match(s, img, p) {
            assert(atoms_match(s.skip(1), img, p + 1));
            assert(subr =~= exact_bytes(s.skip(1)));
            assert forall|t: int| 0 <= t < s.len() implies sub[t] == exact_bytes(s)[t] by {
                if t == 0 {
                    assert(sub[0] == img[p]);
                } else {
                    assert(sub[t] == subr[t - 1]);
                    assert(exact_bytes(s.skip(1))[t - 1] == exact_bytes(s)[t]);
                }
            }
            assert(sub =~= exact_bytes(s));
        }
        if img.subrange(p, p + s.len() as int) =~= exact_bytes(s) {
            assert(img[p] == exact_bytes(s)[0]);
            assert(subr =~= exact_bytes(s.skip(1)));
        }
    }
}

/// A pattern containing only exact atoms, whose literal byte run is
/// embedded at exactly one position of the image, is found at exactly that
/// position.
pub proof fn lemma_exact_run_found(p: Pattern, img: Seq<u8>, k: int)
    requires
        p.wf(),
        all_exact(p.atoms@),
        0 <= k,
        k + p.atoms@.len() <= img.len(),
        img.subrange(k, k + p.atoms@.len() as int) =~= exact_bytes(p.atoms@),
        forall|j: int|
            0 <= j && j + p.atoms@.len() <= img.len() && j != k ==> !((#[trigger] img.subrange(
                j,
                j + p.atoms@.len() as int,
            )) =~= exact_bytes(p.atoms@)),
    ensures
        find_spec(p, img) == Some((k, Seq::<u32>::empty())),
{
    lemma_all_exact_size(p.atoms@);
    lemma_all_exact_match(p.atoms@, img, k);
    assert(match_at(p, img, k));
    lemma_find_from_first(p, img, 0);
    assert forall|j: int| 0 <= j && j + p.atoms@.len() <= img.len() && j != k implies !atoms_match(
        p.atoms@,
        img,
        j,
    ) by {
        lemma_all_exact_match(p.atoms@, img, j);
    }
    let r = find_spec(p, img);
    if r is None {
        assert(!match_at(p, img, k));
        assert(false);
    }
    let (pos, caps) = r.unwrap();
    if pos != k {
        if pos < k {
            assert(!match_at(p, img, pos));
        } else {
            assert(!match_at(p, img, k));
        }
        assert(false);
    }
    lemma_all_exact_match(p.atoms@, img, pos);
}

/// A successful scan: where the pattern began matching, and every captured
/// value, in pattern order.
pub struct ScanMatch {
    pub offset: usize,
    pub captures: Vec<u32>,
}

/// Reads the little-endian 32-bit value at `p`.
pub(crate) fn read_le32(image: &Vec<u8>, p: usize) -> (r: u32)
    requires
        p + 4 <= image@.len(),
    ensures
        r == le32_at(image@, p as int),
{
    proof {
        assert(image@.len() == image.len());
    }
    let b0 = image[p] as u32;
    let b1 = image[p + 1] as u32;
    let b2 = image[p + 2] as u32;
    let b3 = image[p + 3] as u32;
    b0 + b1 * 0x100 + b2 * 0x10000 + b3 * 0x1000000
}

/// Tests every atom of the pattern against one window of the image,
/// collecting captures; nothing on the first atom that rejects.
fn match_window(p: &Pattern, image: &Vec<u8>, pos: usize) -> (r: Option<Vec<u32>>)
    requires
        p.wf(),
        pos + p.byte_len <= image@.len(),
        image@.len() <= u32::MAX,
    ensures
        match r {
            Some(caps) => atoms_match(p.atoms@, image@, pos as int) && caps@ == atoms_captures(
                p.atoms@,
                image@,
                pos as int,
            ),
            None => !atoms_match(p.atoms@, image@, pos as int),
        },
{
    let n = p.atoms.len();
    let mut k: usize = 0;
    let mut cur: usize = pos;
    let mut caps: Vec<u32> = Vec::new();
    proof {
        assert(p.atoms@.skip(0) =~= p.atoms@);
        assert(Seq::<u32>::empty() + atoms_captures(p.atoms@, image@, pos as int)
            =~= atoms_captures(p.atoms@, image@, pos as int));
    }
    while k < n
        invariant
            k <= n,
            n == p.atoms@.len(),
            p.wf(),
            image@.len() <= u32::MAX,
            cur == pos + atoms_size(p.atoms@.take(k as int)),
            cur + atoms_size(p.atoms@.skip(k as int)) <= image@.len(),
            atoms_match(p.atoms@, image@, pos as int) == atoms_match(
                p.atoms@.skip(k as int),
                image@,
                cur as int,
            ),
            atoms_captures(p.atoms@, image@, pos as int) =~= caps@ + atoms_captures(
                p.atoms@.skip(k as int),
                image@,
                cur as int,
            ),
        decreases n - k,
    {
        let a = p.atoms[k];
        proof {
            assert(p.atoms@.skip(k as int)[0] == p.atoms@[k as int]);
            assert(p.atoms@.skip(k as int).skip(1) =~= p.atoms@.skip(k as int + 1));
            assert(atoms_size(p.atoms@.skip(k as int)) == atom_size(a) + atoms_size(
                p.atoms@.skip(k as int + 1),
            ));
            crate::pattern::lemma_atoms_size_push(p.atoms@.take(k as int), a);
            assert(p.atoms@.take(k as int + 1) =~= p.atoms@.take(k as int).push(a));
        }
        let ghost rest = atoms_captures(p.atoms@.skip(k as int + 1), image@, cur as int + atom_size(a));
        match a {
            Atom::Exact(b) => {
                if image[cur] != b {
                    return None;
                }
                cur = cur + 1;
            },
            Atom::Wildcard => {
                cur = cur + 1;
            },
            Atom::MaskedWildcard(v, m) => {
                if image[cur] & m != v & m {
                    return None;
                }
                cur = cur + 1;
            },
            Atom::CaptureRipRelative => {
                let disp = read_le32(image, cur);
                let after = (cur + 4) as u32;
                let value = after.wrapping_add(disp);
                proof {
                    assert(value == rip_target(cur as int + 4, disp));
                    assert(caps@ + (seq![value] + rest) =~= caps@.push(value) + rest);
                }
                caps.push(value);
                cur = cur + 4;
            },
            Atom::CaptureRawLiteral => {
                let value = read_le32(image, cur);
                proof {
                    assert(caps@ + (seq![value] + rest) =~= caps@.push(value) + rest);
                }
                caps.push(value);
                cur = cur + 4;
            },
            Atom::Skip(m) => {
                cur = cur + m;
            },
        }
        k = k + 1;
    }
    proof {
        assert(p.atoms@.skip(n as int) =~= Seq::<Atom>::empty());
        assert(caps@ + Seq::<u32>::empty() =~= caps@);
    }
    Some(caps)
}

/// Slides the pattern across the image and returns the first fully
/// matching window with its captures, or nothing when no window matches.
/// The scan is deterministic: the result is a function of the pattern and
/// the image alone.
pub fn find(p: &Pattern, image: &Vec<u8>) -> (r: Option<ScanMatch>)
    requires
        p.wf(),
        image@.len() <= u32::MAX,
    ensures
        match r {
            Some(m) => {
                &&& find_spec(*p, image@) == Some((m.offset as int, m.captures@))
                &&& m.captures@.len() == p.capture_count
                &&& match_at(*p, image@, m.offset as int)
                &&& m.captures@ == atoms_captures(p.atoms@, image@, m.offset as int)
                &&& forall|q: int| 0 <= q < m.offset ==> !match_at(*p, image@, q)
            },
            None => {
                &&& find_spec(*p, image@) is None
                &&& forall|q: int| !match_at(*p, image@, q)
            },
        },
{
    proof {
        lemma_find_from_first(*p, image@, 0);
    }
    if p.byte_len > image.len() {
        proof {
            assert(find_spec(*p, image@) is None);
            assert forall|q: int| !match_at(*p, image@, q) by {
                if 0 <= q {
                }
            }
        }
        return None;
    }
    let last = image.len() - p.byte_len;
    let mut start: usize = 0;
    loop
        invariant
            p.wf(),
            image@.len() <= u32::MAX,
            p.byte_len <= image@.len(),
            last == image@.len() - p.byte_len,
            start <= last + 1,
            find_spec(*p, image@) == find_from(*p, image@, start as int),
        decreases last + 1 - start,
    {
        if start > last {
            proof {
                lemma_find_from_first(*p, image@, 0);
                assert(find_spec(*p, image@) is None);
                assert forall|q: int| !match_at(*p, image@, q) by {
                    if 0 <= q {
                    }
                }
            }
            return None;
        }
        match match_window(p, image, start) {
            Some(caps) => {
                proof {
                    lemma_find_from_first(*p, image@, 0);
                    lemma_capture_count_agrees(*p, image@, start as int);
                    assert(find_spec(*p, image@) == Some(
                        (start as int, atoms_captures(p.atoms@, image@, start as int)),
                    ));
                    assert(match_at(*p, image@, start as int));
                }
                return Some(ScanMatch { offset: start, captures: caps });
            },
            None => {
                if start == last {
                    proof {
                        lemma_find_from_first(*p, image@, 0);
                        assert(find_from(*p, image@, start as int + 1) is None);
                        assert(find_spec(*p, image@) is None);
                        assert forall|q: int| !match_at(*p, image@, q) by {
                            if 0 <= q {
                            }
                        }
                    }
                    return None;
                }
                start = start + 1;
            },
        }
    }
}

} // verus!
