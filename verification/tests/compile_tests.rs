use sigscan::compile::compile;
use sigscan::pattern::{Atom, PatternSyntaxError};
use sigscan::registry::entry;

#[test]
fn exact_bytes() {
    let p = compile("488935").unwrap();
    assert_eq!(p.atoms, vec![Atom::Exact(0x48), Atom::Exact(0x89), Atom::Exact(0x35)]);
    assert_eq!(p.byte_len, 3);
    assert_eq!(p.capture_count, 0);
}

#[test]
fn upper_and_lower_hex() {
    let p = compile("Ab cD").unwrap();
    assert_eq!(p.atoms, vec![Atom::Exact(0xab), Atom::Exact(0xcd)]);
}

#[test]
fn lone_wildcard_tokens() {
    assert_eq!(compile("?").unwrap().atoms, vec![Atom::Wildcard]);
    // a `??` token of its own is one wildcard byte
    assert_eq!(compile("??").unwrap().atoms, vec![Atom::Wildcard]);
    assert_eq!(compile("?? ??").unwrap().atoms, vec![Atom::Wildcard, Atom::Wildcard]);
}

#[test]
fn inline_wildcards_are_per_byte() {
    // inside a longer token each `?` is one wildcard byte
    let p = compile("e8????").unwrap();
    assert_eq!(
        p.atoms,
        vec![Atom::Exact(0xe8), Atom::Wildcard, Atom::Wildcard, Atom::Wildcard, Atom::Wildcard]
    );
    assert_eq!(p.byte_len, 5);
}

#[test]
fn masked_nibbles() {
    assert_eq!(compile("4?").unwrap().atoms, vec![Atom::MaskedWildcard(0x40, 0xf0)]);
    assert_eq!(compile("?a").unwrap().atoms, vec![Atom::MaskedWildcard(0x0a, 0x0f)]);
}

#[test]
fn trailing_wildcard_in_token() {
    let p = compile("4c8d4424?").unwrap();
    assert_eq!(
        p.atoms,
        vec![
            Atom::Exact(0x4c),
            Atom::Exact(0x8d),
            Atom::Exact(0x44),
            Atom::Exact(0x24),
            Atom::Wildcard
        ]
    );
}

#[test]
fn raw_literal_capture() {
    let p = compile("u4").unwrap();
    assert_eq!(p.atoms, vec![Atom::CaptureRawLiteral]);
    assert_eq!(p.byte_len, 4);
    assert_eq!(p.capture_count, 1);
}

#[test]
fn rip_relative_capture_forms() {
    assert_eq!(compile("${'}").unwrap().atoms, vec![Atom::CaptureRipRelative]);
    assert_eq!(compile("${}").unwrap().atoms, vec![Atom::CaptureRipRelative]);
    let p = compile("${'}").unwrap();
    assert_eq!(p.byte_len, 4);
    assert_eq!(p.capture_count, 1);
}

#[test]
fn skip_amounts() {
    assert_eq!(compile("[4]").unwrap().atoms, vec![Atom::Skip(4)]);
    assert_eq!(compile("[0]").unwrap().atoms, vec![Atom::Skip(0)]);
    assert_eq!(compile("[27]").unwrap().atoms, vec![Atom::Skip(27)]);
    assert_eq!(compile("[123]").unwrap().atoms, vec![Atom::Skip(123)]);
    assert_eq!(compile("[4095]").unwrap().atoms, vec![Atom::Skip(4095)]);
    assert_eq!(compile("[4095]").unwrap().byte_len, 4095);
}

#[test]
fn mixed_token() {
    let p = compile("8b81u4 c3 8b81[4]").unwrap();
    assert_eq!(
        p.atoms,
        vec![
            Atom::Exact(0x8b),
            Atom::Exact(0x81),
            Atom::CaptureRawLiteral,
            Atom::Exact(0xc3),
            Atom::Exact(0x8b),
            Atom::Exact(0x81),
            Atom::Skip(4)
        ]
    );
    assert_eq!(p.byte_len, 2 + 4 + 1 + 2 + 4);
    assert_eq!(p.capture_count, 1);
}

#[test]
fn capture_count_sums_all_capture_atoms() {
    let p = compile("8905${'} 488d0d${} ff15${} 488b0d").unwrap();
    assert_eq!(p.capture_count, 3);
    let q = compile("498d87 u4 4d69f4 ${}").unwrap();
    assert_eq!(q.capture_count, 2);
}

#[test]
fn empty_text_is_empty_pattern() {
    let p = compile("").unwrap();
    assert!(p.atoms.is_empty());
    assert_eq!(p.byte_len, 0);
    assert_eq!(p.capture_count, 0);
}

#[test]
fn malformed_byte_tokens() {
    assert_eq!(compile("4"), Err(PatternSyntaxError::MalformedByteToken));
    assert_eq!(compile("48 9"), Err(PatternSyntaxError::MalformedByteToken));
    assert_eq!(compile("zz"), Err(PatternSyntaxError::MalformedByteToken));
    assert_eq!(compile("u5"), Err(PatternSyntaxError::MalformedByteToken));
    assert_eq!(compile("u"), Err(PatternSyntaxError::MalformedByteToken));
}

#[test]
fn unterminated_groups() {
    assert_eq!(compile("${"), Err(PatternSyntaxError::UnterminatedGroup));
    assert_eq!(compile("${'"), Err(PatternSyntaxError::UnterminatedGroup));
    assert_eq!(compile("[12"), Err(PatternSyntaxError::UnterminatedGroup));
    assert_eq!(compile("[]"), Err(PatternSyntaxError::UnterminatedGroup));
    assert_eq!(compile("[12345]"), Err(PatternSyntaxError::UnterminatedGroup));
}

#[test]
fn inconsistent_capture_delimiters() {
    assert_eq!(compile("$x"), Err(PatternSyntaxError::InconsistentCaptureDelimiters));
    assert_eq!(compile("$"), Err(PatternSyntaxError::InconsistentCaptureDelimiters));
}

#[test]
fn entry_rejects_pattern_without_capture() {
    assert!(matches!(entry("dwThing", "90"), Err(PatternSyntaxError::MissingCapture)));
    assert!(entry("dwThing", "90${'}").is_ok());
}

#[test]
fn compilation_is_pure() {
    let a = compile("488935${'} 4885f6").unwrap();
    let b = compile("488935${'} 4885f6").unwrap();
    assert_eq!(a.atoms, b.atoms);
    assert_eq!(a.byte_len, b.byte_len);
    assert_eq!(a.capture_count, b.capture_count);
}
