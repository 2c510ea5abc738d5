//! Rendering a compiled pattern back to signature text, and the proof that
//! recompiling the rendering yields the same atoms: the compiler is a pure
//! function of its text input.
use vstd::prelude::*;

use crate::compile::{
    dec_value, hex_value, is_dec_digit, is_hex_digit, parse_cons, parse_from, token_start,
};
use crate::pattern::{Atom, Pattern};

verus! {

/// The character for one hex digit value, lower case.
pub open spec fn hex_char(n: int) -> char {
    if n == 0 {
        '0'
    } else if n == 1 {
        '1'
    } else if n == 2 {
        '2'
    } else if n == 3 {
        '3'
    } else if n == 4 {
        '4'
    } else if n == 5 {
        '5'
    } else if n == 6 {
        '6'
    } else if n == 7 {
        '7'
    } else if n == 8 {
        '8'
    } else if n == 9 {
        '9'
    } else if n == 10 {
        'a'
    } else if n == 11 {
        'b'
    } else if n == 12 {
        'c'
    } else if n == 13 {
        'd'
    } else if n == 14 {
        'e'
    } else {
        'f'
    }
}

/// The decimal rendering of a skip amount, one to four digits.
pub open spec fn dec_chars(n: int) -> Seq<char> {
    if n < 10 {
        seq![hex_char(n)]
    } else if n < 100 {
        seq![hex_char(n / 10), hex_char(n % 10)]
    } else if n < 1000 {
        seq![hex_char(n / 100), hex_char((n / 10) % 10), hex_char(n % 10)]
    } else {
        seq![
            hex_char(n / 1000),
            hex_char((n / 100) % 10),
            hex_char((n / 10) % 10),
            hex_char(n % 10),
        ]
    }
}

/// The canonical token for one atom.
pub open spec fn render_atom(a: Atom) -> Seq<char> {
    match a {
        Atom::Exact(b) => seq![hex_char(b as int / 16), hex_char(b as int % 16)],
        Atom::Wildcard => seq!['?'],
        Atom::MaskedWildcard(v, m) => if m == 0xf0 {
            seq![hex_char(v as int / 16), '?']
        } else {
            seq!['?', hex_char(v as int % 16)]
        },
        Atom::CaptureRipRelative => seq!['$', '{', '\'', '}'],
        Atom::CaptureRawLiteral => seq!['u', '4'],
        Atom::Skip(n) => seq!['['] + dec_chars(n as int) + seq![']'],
    }
}

/// The canonical text for an atom sequence: one token per atom, each
/// followed by one space.
pub open spec fn render_atoms(s: Seq<Atom>) -> Seq<char>
    decreases s.len(),
{
    if s.len() == 0 {
        Seq::<char>::empty()
    } else {
        render_atom(s[0]) + seq![' '] + render_atoms(s.skip(1))
    }
}

/// The atom forms the grammar can express: a masked wildcard fixes exactly
/// one nibble, and a skip fits in four decimal digits.
pub open spec fn atom_renderable(a: Atom) -> bool {
    match a {
        Atom::MaskedWildcard(v, m) => (m == 0xf0 && v % 16 == 0) || (m == 0x0f && v < 16),
        Atom::Skip(n) => n <= 9999,
        _ => true,
    }
}

pub open spec fn renderable_atoms(s: Seq<Atom>) -> bool {
    forall|i: int| 0 <= i < s.len() ==> atom_renderable(#[trigger] s[i])
}

proof fn lemma_hex_char(n: int)
    requires
        0 <= n < 16,
    ensures
        is_hex_digit(hex_char(n)),
        hex_value(hex_char(n)) == n,
        hex_char(n) != ' ',
        hex_char(n) != '?',
        hex_char(n) != ']',
        n < 10 ==> is_dec_digit(hex_char(n)) && dec_value(hex_char(n)) == n,
        n >= 10 ==> !is_dec_digit(hex_char(n)),
{
}

proof fn lemma_cons_renderable(a: Atom, rest: Option<Seq<Atom>>)
    requires
        atom_renderable(a),
        rest is Some,
        renderable_atoms(rest.unwrap()),
    ensures
        parse_cons(a, rest) is Some,
        renderable_atoms(parse_cons(a, rest).unwrap()),
{
    let t = parse_cons(a, rest).unwrap();
    assert forall|j: int| 0 <= j < t.len() implies atom_renderable(#[trigger] t[j]) by {
        if j == 0 {
            assert(t[0] == a);
        } else {
            assert(t[j] == rest.unwrap()[j - 1]);
        }
    }
}

proof fn lemma_hex_value_range(c: char)
    requires
        is_hex_digit(c),
    ensures
        0 <= hex_value(c) < 16,
{
}

/// Every atom the parser produces is renderable: the grammar can only
/// express one fixed nibble per masked byte and at most four skip digits.
pub proof fn lemma_parse_renderable(s: Seq<char>, i: int)
    requires
        parse_from(s, i) is Some,
    ensures
        renderable_atoms(parse_from(s, i).unwrap()),
    decreases s.len() - i,
{
    if i < 0 || i >= s.len() {
    } else {
        let c = s[i];
        if c == ' ' {
            lemma_parse_renderable(s, i + 1);
        } else if c == '?' {
            if token_start(s, i) && i + 1 < s.len() && s[i + 1] == '?' && (i + 2 >= s.len() || s[
                i + 2] == ' ') {
                lemma_parse_renderable(s, i + 2);
                lemma_cons_renderable(Atom::Wildcard, parse_from(s, i + 2));
            } else if i + 1 < s.len() && is_hex_digit(s[i + 1]) {
                lemma_parse_renderable(s, i + 2);
                lemma_hex_value_range(s[i + 1]);
                lemma_cons_renderable(
                    Atom::MaskedWildcard(hex_value(s[i + 1]) as u8, 0x0f),
                    parse_from(s, i + 2),
                );
            } else {
                lemma_parse_renderable(s, i + 1);
                lemma_cons_renderable(Atom::Wildcard, parse_from(s, i + 1));
            }
        } else if is_hex_digit(c) {
            lemma_hex_value_range(c);
            if i + 1 < s.len() && is_hex_digit(s[i + 1]) {
                lemma_parse_renderable(s, i + 2);
                lemma_hex_value_range(s[i + 1]);
                lemma_cons_renderable(
                    Atom::Exact((16 * hex_value(c) + hex_value(s[i + 1])) as u8),
                    parse_from(s, i + 2),
                );
            } else {
                lemma_parse_renderable(s, i + 2);
                lemma_cons_renderable(
                    Atom::MaskedWildcard((16 * hex_value(c)) as u8, 0xf0),
                    parse_from(s, i + 2),
                );
            }
        } else if c == 'u' {
            lemma_parse_renderable(s, i + 2);
            lemma_cons_renderable(Atom::CaptureRawLiteral, parse_from(s, i + 2));
        } else if c == '$' {
            if i + 2 < s.len() && s[i + 2] == '}' {
                lemma_parse_renderable(s, i + 3);
                lemma_cons_renderable(Atom::CaptureRipRelative, parse_from(s, i + 3));
            } else {
                lemma_parse_renderable(s, i + 4);
                lemma_cons_renderable(Atom::CaptureRipRelative, parse_from(s, i + 4));
            }
        } else {
            if i + 2 < s.len() && s[i + 2] == ']' {
                lemma_parse_renderable(s, i + 3);
                lemma_cons_renderable(
                    Atom::Skip(dec_value(s[i + 1]) as usize),
                    parse_from(s, i + 3),
                );
            } else if i + 3 < s.len() && is_dec_digit(s[i + 2]) && s[i + 3] == ']' {
                lemma_parse_renderable(s, i + 4);
                lemma_cons_renderable(
                    Atom::Skip((10 * dec_value(s[i + 1]) + dec_value(s[i + 2])) as usize),
                    parse_from(s, i + 4),
                );
            } else if i + 4 < s.len() && is_dec_digit(s[i + 2]) && is_dec_digit(s[i + 3]) && s[i
                + 4] == ']' {
                lemma_parse_renderable(s, i + 5);
                lemma_cons_renderable(
                    Atom::Skip(
                        (100 * dec_value(s[i + 1]) + 10 * dec_value(s[i + 2]) + dec_value(
                            s[i + 3],
                        )) as usize,
                    ),
                    parse_from(s, i + 5),
                );
            } else {
                lemma_parse_renderable(s, i + 6);
                lemma_cons_renderable(
                    Atom::Skip(
                        (1000 * dec_value(s[i + 1]) + 100 * dec_value(s[i + 2]) + 10 * dec_value(
                            s[i + 3],
                        ) + dec_value(s[i + 4])) as usize,
                    ),
                    parse_from(s, i + 6),
                );
            }
        }
    }
}

/// Parsing is position-local: after a prefix that ends in a space, the
/// rest of the text means what it means on its own.
proof fn lemma_parse_shift(pre: Seq<char>, rest: Seq<char>, j: int)
    requires
        0 <= j <= rest.len(),
        pre.len() > 0,
        pre[pre.len() - 1] == ' ',
    ensures
        parse_from(pre + rest, pre.len() + j) == parse_from(rest, j),
    decreases rest.len() - j,
{
    let s = pre + rest;
    let l = pre.len() as int;
    assert(s.len() == l + rest.len());
    assert forall|t: int| 0 <= t < rest.len() implies s[l + t] == rest[t] by {}
    if j >= rest.len() {
    } else {
        assert(token_start(s, l + j) == token_start(rest, j));
        if j + 1 <= rest.len() {
            lemma_parse_shift(pre, rest, j + 1);
        }
        if j + 2 <= rest.len() {
            lemma_parse_shift(pre, rest, j + 2);
        }
        if j + 3 <= rest.len() {
            lemma_parse_shift(pre, rest, j + 3);
        }
        if j + 4 <= rest.len() {
            lemma_parse_shift(pre, rest, j + 4);
        }
        if j + 5 <= rest.len() {
            lemma_parse_shift(pre, rest, j + 5);
        }
        if j + 6 <= rest.len() {
            lemma_parse_shift(pre, rest, j + 6);
        }
        assert(parse_from(s, l + j) == parse_from(rest, j));
    }
}

/// One canonical token at the head of the text parses back to its atom,
/// landing on the space that follows it.
#[verifier::rlimit(100)]
proof fn lemma_token_step(a: Atom, s: Seq<char>)
    requires
        atom_renderable(a),
        s.len() > render_atom(a).len(),
        forall|t: int| 0 <= t < render_atom(a).len() ==> s[t] == render_atom(a)[t],
        s[render_atom(a).len() as int] == ' ',
    ensures
        parse_from(s, 0) == parse_cons(a, parse_from(s, render_atom(a).len() as int)),
{
    let l = render_atom(a).len() as int;
    assert(s[l] == ' ');
    match a {
        Atom::Exact(b) => {
            lemma_hex_char(b as int / 16);
            lemma_hex_char(b as int % 16);
            assert(s[0] == hex_char(b as int / 16));
            assert(s[1] == hex_char(b as int % 16));
            assert(16 * (b as int / 16) + (b as int % 16) == b as int);
            assert(parse_from(s, 0) == parse_cons(a, parse_from(s, 2)));
        },
        Atom::Wildcard => {
            assert(s[0] == '?');
            assert(s[1] == ' ');
            assert(parse_from(s, 0) == parse_cons(a, parse_from(s, 1)));
        },
        Atom::MaskedWildcard(v, m) => {
            if m == 0xf0 {
                lemma_hex_char(v as int / 16);
                assert(s[0] == hex_char(v as int / 16));
                assert(s[1] == '?');
                assert(16 * (v as int / 16) == v as int);
                assert(parse_from(s, 0) == parse_cons(a, parse_from(s, 2)));
            } else {
                lemma_hex_char(v as int % 16);
                assert(s[0] == '?');
                assert(s[1] == hex_char(v as int % 16));
                assert(v as int % 16 == v as int);
                assert(parse_from(s, 0) == parse_cons(a, parse_from(s, 2)));
            }
        },
        Atom::CaptureRipRelative => {
            assert(s[0] == '$');
            assert(s[1] == '{');
            assert(s[2] == '\'');
            assert(s[3] == '}');
            assert(parse_from(s, 0) == parse_cons(a, parse_from(s, 4)));
        },
        Atom::CaptureRawLiteral => {
            assert(s[0] == 'u');
            assert(s[1] == '4');
            assert(parse_from(s, 0) == parse_cons(a, parse_from(s, 2)));
        },
        Atom::Skip(n) => {
            assert(s[0] == '[');
            let d = dec_chars(n as int);
            assert(s[1 + d.len() as int] == ']');
            if n < 10 {
                lemma_hex_char(n as int);
                assert(s[1] == hex_char(n as int));
                assert(s[2] == ']');
                assert(parse_from(s, 0) == parse_cons(a, parse_from(s, 3)));
            } else if n < 100 {
                lemma_hex_char(n as int / 10);
                lemma_hex_char(n as int % 10);
                assert(s[1] == hex_char(n as int / 10));
                assert(s[2] == hex_char(n as int % 10));
                assert(s[3] == ']');
                assert(10 * (n as int / 10) + n as int % 10 == n as int);
                assert(parse_from(s, 0) == parse_cons(a, parse_from(s, 4)));
            } else if n < 1000 {
                lemma_hex_char(n as int / 100);
                lemma_hex_char((n as int / 10) % 10);
                lemma_hex_char(n as int % 10);
                assert(s[1] == hex_char(n as int / 100));
                assert(s[2] == hex_char((n as int / 10) % 10));
                assert(s[3] == hex_char(n as int % 10));
                assert(s[4] == ']');
                assert(100 * (n as int / 100) + 10 * ((n as int / 10) % 10) + n as int % 10
                    == n as int);
                assert(parse_from(s, 0) == parse_cons(a, parse_from(s, 5)));
            } else {
                lemma_hex_char(n as int / 1000);
                lemma_hex_char((n as int / 100) % 10);
                lemma_hex_char((n as int / 10) % 10);
                lemma_hex_char(n as int % 10);
                assert(s[1] == hex_char(n as int / 1000));
                assert(s[2] == hex_char((n as int / 100) % 10));
                assert(s[3] == hex_char((n as int / 10) % 10));
                assert(s[4] == hex_char(n as int % 10));
                assert(s[5] == ']');
                assert(1000 * (n as int / 1000) + 100 * ((n as int / 100) % 10) + 10 * ((n as int
                    / 10) % 10) + n as int % 10 == n as int);
                assert(parse_from(s, 0) == parse_cons(a, parse_from(s, 6)));
            }
        },
    }
}

/// The round trip: compiling the canonical rendering of any renderable
/// atom sequence yields exactly that sequence. Together with the
/// compiler's contract, rendering a compiled pattern and recompiling it
/// reproduces the pattern's atoms.
pub proof fn lemma_render_round_trip(atoms: Seq<Atom>)
    requires
        renderable_atoms(atoms),
    ensures
        parse_from(render_atoms(atoms), 0) == Some(atoms),
    decreases atoms.len(),
{
    if atoms.len() == 0 {
    } else {
        let a = atoms[0];
        let tok = render_atom(a);
        let pre = tok + seq![' '];
        let rest = render_atoms(atoms.skip(1));
        let s = render_atoms(atoms);
        assert(s == tok + seq![' '] + rest);
        assert(s =~= pre + rest);
        let l = tok.len() as int;
        assert(pre.len() == l + 1);
        assert(pre[pre.len() - 1] == ' ');
        assert forall|t: int| 0 <= t < l implies s[t] == tok[t] by {}
        assert(s[l] == ' ');
        assert forall|i: int| 0 <= i < atoms.skip(1).len() implies atom_renderable(
            #[trigger] atoms.skip(1)[i],
        ) by {
            assert(atoms.skip(1)[i] == atoms[i + 1]);
        }
        lemma_render_round_trip(atoms.skip(1));
        lemma_parse_shift(pre, rest, 0);
        assert(parse_from(s, l + 1) == Some(atoms.skip(1)));
        // the space after the token only steps past itself
        assert(parse_from(s, l) == parse_from(s, l + 1));
        lemma_token_step(a, s);
        assert(parse_from(s, 0) == parse_cons(a, Some(atoms.skip(1))));
        assert(seq![a] + atoms.skip(1) =~= atoms);
    }
}

proof fn lemma_render_atoms_append(a: Seq<Atom>, b: Seq<Atom>)
    ensures
        render_atoms(a + b) == render_atoms(a) + render_atoms(b),
    decreases a.len(),
{
    if a.len() == 0 {
        assert(a + b =~= b);
        assert(render_atoms(a) + render_atoms(b) =~= render_atoms(b));
    } else {
        assert((a + b).skip(1) =~= a.skip(1) + b);
        lemma_render_atoms_append(a.skip(1), b);
        assert((a + b)[0] == a[0]);
        assert(render_atom(a[0]) + seq![' '] + (render_atoms(a.skip(1)) + render_atoms(b)) =~= (
        render_atom(a[0]) + seq![' '] + render_atoms(a.skip(1))) + render_atoms(b));
    }
}

proof fn lemma_render_atoms_push(s: Seq<Atom>, x: Atom)
    ensures
        render_atoms(s.push(x)) == render_atoms(s) + render_atom(x) + seq![' '],
{
    assert(s.push(x) =~= s + seq![x]);
    lemma_render_atoms_append(s, seq![x]);
    assert(seq![x].skip(1) =~= Seq::<Atom>::empty());
    assert(render_atoms(seq![x]) == render_atom(x) + seq![' '] + render_atoms(
        seq![x].skip(1),
    ));
    assert(render_atom(x) + seq![' '] + Seq::<char>::empty() =~= render_atom(x) + seq![' ']);
    assert(render_atoms(s) + (render_atom(x) + seq![' ']) =~= render_atoms(s) + render_atom(x)
        + seq![' ']);
}

/// The text for one hex digit value, lower case.
fn hex_str(n: u8) -> (r: &'static str)
    requires
        n < 16,
    ensures
        r@ == seq![hex_char(n as int)],
{
    let s: &'static str = match n {
        0 => "0",
        1 => "1",
        2 => "2",
        3 => "3",
        4 => "4",
        5 => "5",
        6 => "6",
        7 => "7",
        8 => "8",
        9 => "9",
        10 => "a",
        11 => "b",
        12 => "c",
        13 => "d",
        14 => "e",
        _ => "f",
    };
    proof {
        reveal_strlit("0");
        reveal_strlit("1");
        reveal_strlit("2");
        reveal_strlit("3");
        reveal_strlit("4");
        reveal_strlit("5");
        reveal_strlit("6");
        reveal_strlit("7");
        reveal_strlit("8");
        reveal_strlit("9");
        reveal_strlit("a");
        reveal_strlit("b");
        reveal_strlit("c");
        reveal_strlit("d");
        reveal_strlit("e");
        reveal_strlit("f");
        assert(s@ =~= seq![hex_char(n as int)]);
    }
    s
}

/// Renders a pattern's atoms as canonical signature text: one token per
/// atom, space separated. Compiling the result reproduces the same atoms.
pub fn render(p: &Pattern) -> (r: String)
    requires
        renderable_atoms(p.atoms@),
    ensures
        r@ == render_atoms(p.atoms@),
{
    let mut out = String::new();
    let n = p.atoms.len();
    let mut k: usize = 0;
    proof {
        assert(p.atoms@.take(0) =~= Seq::<Atom>::empty());
    }
    while k < n
        invariant
            k <= n,
            n == p.atoms@.len(),
            renderable_atoms(p.atoms@),
            out@ == render_atoms(p.atoms@.take(k as int)),
        decreases n - k,
    {
        let ghost prev = out@;
        let a = p.atoms[k];
        proof {
            assert(atom_renderable(p.atoms@[k as int]));
            reveal_strlit("?");
            reveal_strlit("${'}");
            reveal_strlit("u4");
            reveal_strlit("[");
            reveal_strlit("]");
            reveal_strlit(" ");
        }
        match a {
            Atom::Exact(b) => {
                out.append(hex_str(b / 16));
                out.append(hex_str(b % 16));
            },
            Atom::Wildcard => {
                out.append("?");
            },
            Atom::MaskedWildcard(v, m) => {
                if m == 0xf0 {
                    out.append(hex_str(v / 16));
                    out.append("?");
                } else {
                    out.append("?");
                    out.append(hex_str(v % 16));
                }
            },
            Atom::CaptureRipRelative => {
                out.append("${'}");
            },
            Atom::CaptureRawLiteral => {
                out.append("u4");
            },
            Atom::Skip(m) => {
                out.append("[");
                if m < 10 {
                    out.append(hex_str(m as u8));
                } else if m < 100 {
                    out.append(hex_str((m / 10) as u8));
                    out.append(hex_str((m % 10) as u8));
                } else if m < 1000 {
                    out.append(hex_str((m / 100) as u8));
                    out.append(hex_str(((m / 10) % 10) as u8));
                    out.append(hex_str((m % 10) as u8));
                } else {
                    out.append(hex_str((m / 1000) as u8));
                    out.append(hex_str(((m / 100) % 10) as u8));
                    out.append(hex_str(((m / 10) % 10) as u8));
                    out.append(hex_str((m % 10) as u8));
                }
                out.append("]");
            },
        }
        proof {
            assert(out@ =~= prev + render_atom(a));
        }
        out.append(" ");
        proof {
            assert(p.atoms@.take(k + 1) =~= p.atoms@.take(k as int).push(a));
            lemma_render_atoms_push(p.atoms@.take(k as int), a);
            assert(out@ =~= render_atoms(p.atoms@.take(k + 1)));
        }
        k = k + 1;
    }
    proof {
        assert(p.atoms@.take(n as int) =~= p.atoms@);
    }
    out
}

} // verus!
