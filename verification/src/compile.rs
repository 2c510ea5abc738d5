//! The signature compiler: from pattern text to a sequence of atoms.
//!
//! Grammar, whitespace-insignificant (spaces only separate tokens):
//! two hex digits make an exact byte; a lone `?`, or a `??` standing as its
//! own token, is a one-byte wildcard; a hex digit next to a `?` fixes one
//! nibble and masks the other; `u4` captures a raw 4-byte little-endian
//! field; `${}` or `${'}` captures a 4-byte instruction-pointer-relative
//! field; `[n]` (one to four decimal digits) skips n bytes.
use vstd::prelude::*;

use crate::pattern::{
    atom_captures, atom_size, atoms_capture_count, atoms_size, lemma_atoms_capture_count_push,
    lemma_atoms_size_push, Atom, Pattern, PatternSyntaxError,
};

verus! {

pub open spec fn is_hex_digit(c: char) -> bool {
    (('0' <= c) && (c <= '9')) || (('a' <= c) && (c <= 'f')) || (('A' <= c) && (c <= 'F'))
}

/// The value of a hex digit, as an integer in 0..16.
pub open spec fn hex_value(c: char) -> int {
    if ('0' <= c) && (c <= '9') {
        c as int - '0' as int
    } else if ('a' <= c) && (c <= 'f') {
        10 + c as int - 'a' as int
    } else {
        10 + c as int - 'A' as int
    }
}

pub open spec fn is_dec_digit(c: char) -> bool {
    ('0' <= c) && (c <= '9')
}

pub open spec fn dec_value(c: char) -> int {
    c as int - '0' as int
}

/// A position starts a token when nothing, or a space, stands before it.
pub open spec fn token_start(s: Seq<char>, i: int) -> bool {
    i == 0 || s[i - 1] == ' '
}

/// Prepend an atom to the result of parsing the rest, if the rest parses.
pub open spec fn parse_cons(a: Atom, rest: Option<Seq<Atom>>) -> Option<Seq<Atom>> {
    match rest {
        Some(t) => Some(seq![a] + t),
        None => None,
    }
}

/// The meaning of the pattern text from position `i` on: the atoms it
/// denotes, or nothing when the text is malformed.
pub open spec fn parse_from(s: Seq<char>, i: int) -> Option<Seq<Atom>>
    decreases s.len() - i,
{
    if i < 0 || i >= s.len() {
        Some(Seq::<Atom>::empty())
    } else {
        let c = s[i];
        if c == ' ' {
            parse_from(s, i + 1)
        } else if c == '?' {
            if token_start(s, i) && i + 1 < s.len() && s[i + 1] == '?'
                && (i + 2 >= s.len() || s[i + 2] == ' ') {
                // a `??` token of its own is one wildcard byte
                parse_cons(Atom::Wildcard, parse_from(s, i + 2))
            } else if i + 1 < s.len() && is_hex_digit(s[i + 1]) {
                parse_cons(
                    Atom::MaskedWildcard(hex_value(s[i + 1]) as u8, 0x0f),
                    parse_from(s, i + 2),
                )
            } else {
                parse_cons(Atom::Wildcard, parse_from(s, i + 1))
            }
        } else if is_hex_digit(c) {
            if i + 1 < s.len() && is_hex_digit(s[i + 1]) {
                parse_cons(
                    Atom::Exact((16 * hex_value(c) + hex_value(s[i + 1])) as u8),
                    parse_from(s, i + 2),
                )
            } else if i + 1 < s.len() && s[i + 1] == '?' {
                parse_cons(
                    Atom::MaskedWildcard((16 * hex_value(c)) as u8, 0xf0),
                    parse_from(s, i + 2),
                )
            } else {
                None
            }
        } else if c == 'u' {
            if i + 1 < s.len() && s[i + 1] == '4' {
                parse_cons(Atom::CaptureRawLiteral, parse_from(s, i + 2))
            } else {
                None
            }
        } else if c == '$' {
            if i + 1 < s.len() && s[i + 1] == '{' {
                if i + 2 < s.len() && s[i + 2] == '}' {
                    parse_cons(Atom::CaptureRipRelative, parse_from(s, i + 3))
                } else if i + 3 < s.len() && s[i + 2] == '\'' && s[i + 3] == '}' {
                    parse_cons(Atom::CaptureRipRelative, parse_from(s, i + 4))
                } else {
                    None
                }
            } else {
                None
            }
        } else if c == '[' {
            if i + 1 < s.len() && is_dec_digit(s[i + 1]) {
                if i + 2 < s.len() && s[i + 2] == ']' {
                    parse_cons(Atom::Skip(dec_value(s[i + 1]) as usize), parse_from(s, i + 3))
                } else if i + 3 < s.len() && is_dec_digit(s[i + 2]) && s[i + 3] == ']' {
                    parse_cons(
                        Atom::Skip((10 * dec_value(s[i + 1]) + dec_value(s[i + 2])) as usize),
                        parse_from(s, i + 4),
                    )
                } else if i + 4 < s.len() && is_dec_digit(s[i + 2]) && is_dec_digit(s[i + 3])
                    && s[i + 4] == ']' {
                    parse_cons(
                        Atom::Skip(
                            (100 * dec_value(s[i + 1]) + 10 * dec_value(s[i + 2])
                                + dec_value(s[i + 3])) as usize,
                        ),
                        parse_from(s, i + 5),
                    )
                } else if i + 5 < s.len() && is_dec_digit(s[i + 2]) && is_dec_digit(s[i + 3])
                    && is_dec_digit(s[i + 4]) && s[i + 5] == ']' {
                    parse_cons(
                        Atom::Skip(
                            (1000 * dec_value(s[i + 1]) + 100 * dec_value(s[i + 2]) + 10
                                * dec_value(s[i + 3]) + dec_value(s[i + 4])) as usize,
                        ),
                        parse_from(s, i + 6),
                    )
                } else {
                    None
                }
            } else {
                None
            }
        } else {
            None
        }
    }
}

proof fn lemma_cons_measures(a: Atom, t: Seq<Atom>)
    ensures
        atoms_size(seq![a] + t) == atom_size(a) + atoms_size(t),
        atoms_capture_count(seq![a] + t) == atom_captures(a) + atoms_capture_count(t),
{
    crate::pattern::lemma_atoms_size_append(seq![a], t);
    crate::pattern::lemma_atoms_capture_count_append(seq![a], t);
    assert(seq![a].skip(1) =~= Seq::<Atom>::empty());
    assert(atoms_size(seq![a]) == atom_size(a) + atoms_size(seq![a].skip(1)));
    assert(atoms_capture_count(seq![a]) == atom_captures(a) + atoms_capture_count(
        seq![a].skip(1),
    ));
}

/// What parsing can produce, without computing it: the atoms cover at most
/// 9999 bytes per text character (a skip's four digits at most), and a `$`
/// or `u` anywhere in the remaining text guarantees at least one capture,
/// since only the two capture forms ever consume those characters.
pub proof fn lemma_parse_measures(s: Seq<char>, i: int)
    requires
        0 <= i <= s.len(),
        parse_from(s, i) is Some,
    ensures
        atoms_size(parse_from(s, i).unwrap()) <= 9999 * (s.len() - i),
        (exists|k: int| i <= k < s.len() && ((#[trigger] s[k]) == '$' || s[k] == 'u'))
            ==> atoms_capture_count(parse_from(s, i).unwrap()) >= 1,
    decreases s.len() - i,
{
    if i < 0 || i >= s.len() {
    } else {
        let c = s[i];
        let t = parse_from(s, i).unwrap();
        // the branch at `i`: the atom it yields, the position it moves to,
        // and whether it is a capture form
        let (a, j, is_cap): (Atom, int, bool) = if c == ' ' {
            (Atom::Wildcard, i + 1, false)  // no atom: handled separately below
        } else if c == '?' {
            if token_start(s, i) && i + 1 < s.len() && s[i + 1] == '?' && (i + 2 >= s.len() || s[
                i + 2] == ' ') {
                (Atom::Wildcard, i + 2, false)
            } else if i + 1 < s.len() && is_hex_digit(s[i + 1]) {
                (Atom::MaskedWildcard(hex_value(s[i + 1]) as u8, 0x0f), i + 2, false)
            } else {
                (Atom::Wildcard, i + 1, false)
            }
        } else if is_hex_digit(c) {
            if i + 1 < s.len() && is_hex_digit(s[i + 1]) {
                (Atom::Exact((16 * hex_value(c) + hex_value(s[i + 1])) as u8), i + 2, false)
            } else {
                (Atom::MaskedWildcard((16 * hex_value(c)) as u8, 0xf0), i + 2, false)
            }
        } else if c == 'u' {
            (Atom::CaptureRawLiteral, i + 2, true)
        } else if c == '$' {
            if i + 2 < s.len() && s[i + 2] == '}' {
                (Atom::CaptureRipRelative, i + 3, true)
            } else {
                (Atom::CaptureRipRelative, i + 4, true)
            }
        } else {
            if i + 2 < s.len() && s[i + 2] == ']' {
                (Atom::Skip(dec_value(s[i + 1]) as usize), i + 3, false)
            } else if i + 3 < s.len() && is_dec_digit(s[i + 2]) && s[i + 3] == ']' {
                (Atom::Skip((10 * dec_value(s[i + 1]) + dec_value(s[i + 2])) as usize), i + 4, false)
            } else if i + 4 < s.len() && is_dec_digit(s[i + 2]) && is_dec_digit(s[i + 3]) && s[i
                + 4] == ']' {
                (
                    Atom::Skip(
                        (100 * dec_value(s[i + 1]) + 10 * dec_value(s[i + 2]) + dec_value(
                            s[i + 3],
                        )) as usize,
                    ),
                    i + 5,
                    false,
                )
            } else {
                (
                    Atom::Skip(
                        (1000 * dec_value(s[i + 1]) + 100 * dec_value(s[i + 2]) + 10 * dec_value(
                            s[i + 3],
                        ) + dec_value(s[i + 4])) as usize,
                    ),
                    i + 6,
                    false,
                )
            }
        };
        if c == ' ' {
            lemma_parse_measures(s, i + 1);
            if exists|k: int| i <= k < s.len() && ((#[trigger] s[k]) == '$' || s[k] == 'u') {
                let k = choose|k: int|
                    i <= k < s.len() && ((#[trigger] s[k]) == '$' || s[k] == 'u');
                assert(k >= i + 1);
                assert(exists|k2: int|
                    i + 1 <= k2 < s.len() && ((#[trigger] s[k2]) == '$' || s[k2] == 'u'));
            }
        } else {
            assert(i < j <= s.len());
            assert(parse_from(s, i) == parse_cons(a, parse_from(s, j)));
            let rest = parse_from(s, j).unwrap();
            assert(t == seq![a] + rest);
            lemma_parse_measures(s, j);
            lemma_cons_measures(a, rest);
            assert(atom_size(a) <= 9999);
            assert(atoms_size(t) <= 9999 * (s.len() - i)) by (nonlinear_arith)
                requires
                    atoms_size(t) == atom_size(a) + atoms_size(rest),
                    atom_size(a) <= 9999,
                    atoms_size(rest) <= 9999 * (s.len() - j),
                    i < j <= s.len(),
            ;
            if exists|k: int| i <= k < s.len() && ((#[trigger] s[k]) == '$' || s[k] == 'u') {
                if is_cap {
                    assert(atom_captures(a) == 1);
                } else {
                    let k = choose|k: int|
                        i <= k < s.len() && ((#[trigger] s[k]) == '$' || s[k] == 'u');
                    // every character this branch consumed is a hex digit,
                    // `?`, `[`, `]` or a decimal digit: never `$` or `u`
                    assert(k >= j);
                    assert(exists|k2: int|
                        j <= k2 < s.len() && ((#[trigger] s[k2]) == '$' || s[k2] == 'u'));
                    assert(atoms_capture_count(rest) >= 1);
                }
            }
        }
    }
}

fn hex_digit_value(c: char) -> (r: Option<u8>)
    ensures
        match r {
            Some(v) => is_hex_digit(c) && v == hex_value(c),
            None => !is_hex_digit(c),
        },
{
    if '0' <= c && c <= '9' {
        Some((c as u8) - 0x30)
    } else if 'a' <= c && c <= 'f' {
        Some(10 + (c as u8) - 0x61)
    } else if 'A' <= c && c <= 'F' {
        Some(10 + (c as u8) - 0x41)
    } else {
        None
    }
}

fn dec_digit_value(c: char) -> (r: Option<u8>)
    ensures
        match r {
            Some(v) => is_dec_digit(c) && v == dec_value(c),
            None => !is_dec_digit(c),
        },
{
    if '0' <= c && c <= '9' {
        Some((c as u8) - 0x30)
    } else {
        None
    }
}

/// Reads one token at `i` (not a space): the atom it denotes and the
/// position just after it, or the reason the text is malformed.
fn next_atom(text: &str, i: usize) -> (r: Result<(Atom, usize), PatternSyntaxError>)
    requires
        i < text@.len(),
        text@[i as int] != ' ',
    ensures
        match r {
            Ok((a, j)) => i < j <= text@.len() && parse_from(text@, i as int) == parse_cons(
                a,
                parse_from(text@, j as int),
            ),
            Err(_) => parse_from(text@, i as int) is None,
        },
{
    let n = text.unicode_len();
    let c = text.get_char(i);
    if c == '?' {
        let at_start = i == 0 || text.get_char(i - 1) == ' ';
        if at_start && i + 1 < n && text.get_char(i + 1) == '?'
            && (i + 2 >= n || text.get_char(i + 2) == ' ') {
            return Ok((Atom::Wildcard, i + 2));
        }
        if i + 1 < n {
            let d = hex_digit_value(text.get_char(i + 1));
            match d {
                Some(v) => {
                    return Ok((Atom::MaskedWildcard(v, 0x0f), i + 2));
                },
                None => {
                    return Ok((Atom::Wildcard, i + 1));
                },
            }
        }
        return Ok((Atom::Wildcard, i + 1));
    }
    match hex_digit_value(c) {
        Some(hi) => {
            if i + 1 < n {
                let c1 = text.get_char(i + 1);
                match hex_digit_value(c1) {
                    Some(lo) => {
                        return Ok((Atom::Exact(16 * hi + lo), i + 2));
                    },
                    None => {
                        if c1 == '?' {
                            return Ok((Atom::MaskedWildcard(16 * hi, 0xf0), i + 2));
                        }
                        return Err(PatternSyntaxError::MalformedByteToken);
                    },
                }
            }
            return Err(PatternSyntaxError::MalformedByteToken);
        },
        None => {},
    }
    if c == 'u' {
        if i + 1 < n && text.get_char(i + 1) == '4' {
            return Ok((Atom::CaptureRawLiteral, i + 2));
        }
        return Err(PatternSyntaxError::MalformedByteToken);
    }
    if c == '$' {
        if i + 1 < n && text.get_char(i + 1) == '{' {
            if i + 2 < n {
                if text.get_char(i + 2) == '}' {
                    return Ok((Atom::CaptureRipRelative, i + 3));
                }
                if text.get_char(i + 2) == '\'' && i + 3 < n && text.get_char(i + 3) == '}' {
                    return Ok((Atom::CaptureRipRelative, i + 4));
                }
            }
            return Err(PatternSyntaxError::UnterminatedGroup);
        }
        return Err(PatternSyntaxError::InconsistentCaptureDelimiters);
    }
    if c == '[' {
        if i + 1 < n {
            match dec_digit_value(text.get_char(i + 1)) {
                Some(d1) => {
                    if i + 2 < n && text.get_char(i + 2) == ']' {
                        return Ok((Atom::Skip(d1 as usize), i + 3));
                    }
                    if i + 2 < n {
                        match dec_digit_value(text.get_char(i + 2)) {
                            Some(d2) => {
                                if i + 3 < n && text.get_char(i + 3) == ']' {
                                    return Ok((
                                        Atom::Skip(10 * (d1 as usize) + (d2 as usize)),
                                        i + 4,
                                    ));
                                }
                                if i + 3 < n {
                                    match dec_digit_value(text.get_char(i + 3)) {
                                        Some(d3) => {
                                            if i + 4 < n && text.get_char(i + 4) == ']' {
                                                return Ok((
                                                    Atom::Skip(
                                                        100 * (d1 as usize) + 10 * (d2 as usize)
                                                            + (d3 as usize),
                                                    ),
                                                    i + 5,
                                                ));
                                            }
                                            if i + 4 < n {
                                                match dec_digit_value(text.get_char(i + 4)) {
                                                    Some(d4) => {
                                                        if i + 5 < n && text.get_char(i + 5)
                                                            == ']' {
                                                            return Ok((
                                                                Atom::Skip(
                                                                    1000 * (d1 as usize) + 100 * (
                                                                    d2 as usize) + 10 * (
                                                                    d3 as usize) + (d4 as usize),
                                                                ),
                                                                i + 6,
                                                            ));
                                                        }
                                                        return Err(
                                                            PatternSyntaxError::UnterminatedGroup,
                                                        );
                                                    },
                                                    None => {
                                                        return Err(
                                                            PatternSyntaxError::UnterminatedGroup,
                                                        );
                                                    },
                                                }
                                            }
                                            return Err(PatternSyntaxError::UnterminatedGroup);
                                        },
                                        None => {
                                            return Err(PatternSyntaxError::UnterminatedGroup);
                                        },
                                    }
                                }
                                return Err(PatternSyntaxError::UnterminatedGroup);
                            },
                            None => {
                                return Err(PatternSyntaxError::UnterminatedGroup);
                            },
                        }
                    }
                    return Err(PatternSyntaxError::UnterminatedGroup);
                },
                None => {
                    return Err(PatternSyntaxError::UnterminatedGroup);
                },
            }
        }
        return Err(PatternSyntaxError::UnterminatedGroup);
    }
    Err(PatternSyntaxError::MalformedByteToken)
}

/// Parses the whole text into atoms.
fn parse_atoms(text: &str) -> (r: Result<Vec<Atom>, PatternSyntaxError>)
    ensures
        match r {
            Ok(atoms) => parse_from(text@, 0) == Some(atoms@),
            Err(_) => parse_from(text@, 0) is None,
        },
{
    let n = text.unicode_len();
    let mut i: usize = 0;
    let mut atoms: Vec<Atom> = Vec::new();
    loop
        invariant
            i <= n,
            n == text@.len(),
            parse_from(text@, 0) == (match parse_from(text@, i as int) {
                Some(t) => Some(atoms@ + t),
                None => None::<Seq<Atom>>,
            }),
        decreases n - i,
    {
        if i == n {
            proof {
                assert(parse_from(text@, i as int) == Some(Seq::<Atom>::empty()));
                assert(atoms@ + Seq::<Atom>::empty() =~= atoms@);
            }
            return Ok(atoms);
        }
        let c = text.get_char(i);
        if c == ' ' {
            i = i + 1;
        } else {
            let ghost i0 = i as int;
            match next_atom(text, i) {
                Ok((a, j)) => {
                    proof {
                        if parse_from(text@, j as int) is Some {
                            let t = parse_from(text@, j as int).unwrap();
                            assert(atoms@ + (seq![a] + t) =~= atoms@.push(a) + t);
                        }
                    }
                    atoms.push(a);
                    i = j;
                },
                Err(e) => {
                    return Err(e);
                },
            }
        }
    }
}

/// Computes the byte length and capture count of a parsed atom sequence;
/// nothing when the byte length does not fit the machine.
fn measure_atoms(atoms: &Vec<Atom>) -> (r: Option<(usize, usize)>)
    ensures
        match r {
            Some((bl, cc)) => bl == atoms_size(atoms@) && cc == atoms_capture_count(atoms@),
            None => atoms_size(atoms@) > usize::MAX,
        },
{
    let n = atoms.len();
    let mut k: usize = 0;
    let mut bl: usize = 0;
    let mut cc: usize = 0;
    while k < n
        invariant
            k <= n,
            n == atoms@.len(),
            bl == atoms_size(atoms@.take(k as int)),
            cc == atoms_capture_count(atoms@.take(k as int)),
            cc <= k,
        decreases n - k,
    {
        let a = atoms[k];
        let sz: usize = match a {
            Atom::Exact(_) => 1,
            Atom::Wildcard => 1,
            Atom::MaskedWildcard(_, _) => 1,
            Atom::CaptureRipRelative => 4,
            Atom::CaptureRawLiteral => 4,
            Atom::Skip(m) => m,
        };
        let caps: usize = match a {
            Atom::CaptureRipRelative => 1,
            Atom::CaptureRawLiteral => 1,
            _ => 0,
        };
        proof {
            assert(atoms@.take(k + 1) =~= atoms@.take(k as int).push(atoms@[k as int]));
            lemma_atoms_size_push(atoms@.take(k as int), atoms@[k as int]);
            lemma_atoms_capture_count_push(atoms@.take(k as int), atoms@[k as int]);
        }
        match bl.checked_add(sz) {
            Some(nbl) => {
                bl = nbl;
            },
            None => {
                proof {
                    assert(atoms@.take(n as int) =~= atoms@);
                    crate::pattern::lemma_atoms_size_append(
                        atoms@.take(k + 1),
                        atoms@.skip(k + 1),
                    );
                    assert(atoms@.take(k + 1) + atoms@.skip(k + 1) =~= atoms@);
                }
                return None;
            },
        }
        cc = cc + caps;
        k = k + 1;
    }
    proof {
        assert(atoms@.take(n as int) =~= atoms@);
    }
    Some((bl, cc))
}

/// Compiles signature text into a pattern. Pure: the result is a function
/// of the text alone, and the compiled pattern never changes afterwards.
pub fn compile(text: &str) -> (r: Result<Pattern, PatternSyntaxError>)
    ensures
        match r {
            Ok(p) => parse_from(text@, 0) == Some(p.atoms@) && p.wf(),
            Err(_) => parse_from(text@, 0) is None || atoms_size(parse_from(text@, 0).unwrap())
                > usize::MAX,
        },
{
    let atoms = match parse_atoms(text) {
        Ok(a) => a,
        Err(e) => {
            return Err(e);
        },
    };
    match measure_atoms(&atoms) {
        Some((bl, cc)) => Ok(Pattern { atoms, capture_count: cc, byte_len: bl }),
        None => Err(PatternSyntaxError::PatternTooLong),
    }
}

} // verus!
