//! The compiled form of a signature: a sequence of match atoms.
use vstd::prelude::*;

verus! {

/// One compiled unit of a signature: a rule for a fixed number of image bytes.
#[derive(Clone, Copy, PartialEq, Eq, Debug)]
pub enum Atom {
    /// The byte must equal this value.
    Exact(u8),
    /// Any byte.
    Wildcard,
    /// Any byte whose bits under the mask equal the value's bits under the mask.
    MaskedWildcard(u8, u8),
    /// A 4-byte little-endian field; the captured value is the position just
    /// after the field plus the field's value, modulo 2^32.
    CaptureRipRelative,
    /// A 4-byte little-endian field captured as its raw value.
    CaptureRawLiteral,
    /// Advance this many bytes without any constraint.
    Skip(usize),
}

/// How many image bytes one atom covers.
pub open spec fn atom_size(a: Atom) -> nat {
    match a {
        Atom::Exact(_) => 1,
        Atom::Wildcard => 1,
        Atom::MaskedWildcard(_, _) => 1,
        Atom::CaptureRipRelative => 4,
        Atom::CaptureRawLiteral => 4,
        Atom::Skip(n) => n as nat,
    }
}

/// How many values one atom captures.
pub open spec fn atom_captures(a: Atom) -> nat {
    match a {
        Atom::CaptureRipRelative => 1,
        Atom::CaptureRawLiteral => 1,
        _ => 0,
    }
}

/// Total image bytes a sequence of atoms covers.
pub open spec fn atoms_size(s: Seq<Atom>) -> nat
    decreases s.len(),
{
    if s.len() == 0 {
        0
    } else {
        atom_size(s[0]) + atoms_size(s.skip(1))
    }
}

/// Total values a sequence of atoms captures.
pub open spec fn atoms_capture_count(s: Seq<Atom>) -> nat
    decreases s.len(),
{
    if s.len() == 0 {
        0
    } else {
        atom_captures(s[0]) + atoms_capture_count(s.skip(1))
    }
}

pub proof fn lemma_atoms_size_append(a: Seq<Atom>, b: Seq<Atom>)
    ensures
        atoms_size(a + b) == atoms_size(a) + atoms_size(b),
    decreases a.len(),
{
    if a.len() == 0 {
        assert(a + b =~= b);
    } else {
        assert((a + b).skip(1) =~= a.skip(1) + b);
        lemma_atoms_size_append(a.skip(1), b);
    }
}

pub proof fn lemma_atoms_capture_count_append(a: Seq<Atom>, b: Seq<Atom>)
    ensures
        atoms_capture_count(a + b) == atoms_capture_count(a) + atoms_capture_count(b),
    decreases a.len(),
{
    if a.len() == 0 {
        assert(a + b =~= b);
    } else {
        assert((a + b).skip(1) =~= a.skip(1) + b);
        lemma_atoms_capture_count_append(a.skip(1), b);
    }
}

pub proof fn lemma_atoms_size_push(s: Seq<Atom>, x: Atom)
    ensures
        atoms_size(s.push(x)) == atoms_size(s) + atom_size(x),
{
    assert(s.push(x) =~= s + seq![x]);
    lemma_atoms_size_append(s, seq![x]);
    assert(seq![x].skip(1) =~= Seq::<Atom>::empty());
    assert(atoms_size(seq![x]) == atom_size(x) + atoms_size(seq![x].skip(1)));
}

pub proof fn lemma_atoms_capture_count_push(s: Seq<Atom>, x: Atom)
    ensures
        atoms_capture_count(s.push(x)) == atoms_capture_count(s) + atom_captures(x),
{
    assert(s.push(x) =~= s + seq![x]);
    lemma_atoms_capture_count_append(s, seq![x]);
    assert(seq![x].skip(1) =~= Seq::<Atom>::empty());
    assert(atoms_capture_count(seq![x]) == atom_captures(x) + atoms_capture_count(seq![x].skip(1)));
}

/// A compiled signature: its atoms, and the two totals the compiler fixes.
#[derive(PartialEq, Eq, Debug)]
pub struct Pattern {
    pub atoms: Vec<Atom>,
    /// Number of values a successful scan extracts; equals the count of
    /// capture atoms.
    pub capture_count: usize,
    /// Number of image bytes one match covers; equals the sum of atom sizes.
    pub byte_len: usize,
}

impl Pattern {
    /// The recorded totals agree with the atoms.
    pub open spec fn wf(&self) -> bool {
        &&& self.byte_len == atoms_size(self.atoms@)
        &&& self.capture_count == atoms_capture_count(self.atoms@)
    }
}

/// Why a signature's text was rejected.
#[derive(Clone, Copy, PartialEq, Eq, Debug)]
pub enum PatternSyntaxError {
    /// A byte token with a lone hex digit or a stray character.
    MalformedByteToken,
    /// A capture or skip group opened and never closed.
    UnterminatedGroup,
    /// A capture group whose delimiters do not pair up.
    InconsistentCaptureDelimiters,
    /// The atoms are valid but their total byte length is not representable.
    PatternTooLong,
    /// The pattern is valid but captures nothing, so it cannot name an offset.
    MissingCapture,
}

} // verus!
