use sigscan::compile::compile;
use sigscan::render::render;
use sigscan::scanner::find;

#[test]
fn exact_run_found_at_embedding_offset() {
    // a literal byte run embedded once is found at exactly that offset
    let p = compile("4885f6").unwrap();
    let mut image = vec![0u8; 16];
    image[5] = 0x48;
    image[6] = 0x85;
    image[7] = 0xf6;
    let m = find(&p, &image).unwrap();
    assert_eq!(m.offset, 5);
    assert!(m.captures.is_empty());
}

#[test]
fn rip_relative_capture_at_pattern_end() {
    // a rip-relative field at bytes [3..7) of a 7-byte pattern, the field
    // standing at absolute position 10: captured value is 14 + 0x10 = 30
    let p = compile("aabbcc${'}").unwrap();
    assert_eq!(p.byte_len, 7);
    let mut image = vec![0u8; 20];
    image[7] = 0xaa;
    image[8] = 0xbb;
    image[9] = 0xcc;
    image[10] = 0x10;
    let m = find(&p, &image).unwrap();
    assert_eq!(m.offset, 7);
    assert_eq!(m.captures, vec![30]);
}

#[test]
fn rip_relative_negative_displacement_wraps() {
    let p = compile("aa${'}").unwrap();
    let mut image = vec![0u8; 8];
    image[0] = 0xaa;
    // displacement -4 as little-endian two's complement
    image[1] = 0xfc;
    image[2] = 0xff;
    image[3] = 0xff;
    image[4] = 0xff;
    let m = find(&p, &image).unwrap();
    assert_eq!(m.offset, 0);
    // position after the field is 5; 5 + (-4) = 1
    assert_eq!(m.captures, vec![1]);
}

#[test]
fn raw_literal_capture_is_unadjusted() {
    let p = compile("498d87 u4 4d69f4").unwrap();
    let image = vec![0x49, 0x8d, 0x87, 0x78, 0x56, 0x34, 0x12, 0x4d, 0x69, 0xf4];
    let m = find(&p, &image).unwrap();
    assert_eq!(m.offset, 0);
    assert_eq!(m.captures, vec![0x12345678]);
}

#[test]
fn masked_wildcards_match_one_nibble() {
    let p = compile("4?").unwrap();
    assert_eq!(find(&p, &vec![0x4c]).unwrap().offset, 0);
    assert!(find(&p, &vec![0x5c]).is_none());
    let q = compile("?c").unwrap();
    assert_eq!(find(&q, &vec![0x4c]).unwrap().offset, 0);
    assert!(find(&q, &vec![0x4d]).is_none());
}

#[test]
fn skip_advances_without_constraint() {
    let p = compile("aa[2]bb").unwrap();
    assert_eq!(p.byte_len, 4);
    let image = vec![0x00, 0xaa, 0x07, 0x09, 0xbb, 0x00];
    let m = find(&p, &image).unwrap();
    assert_eq!(m.offset, 1);
}

#[test]
fn wildcards_match_any_byte() {
    let p = compile("aa ?? ?? bb").unwrap();
    assert_eq!(p.byte_len, 4);
    let image = vec![0xaa, 0x01, 0x02, 0xbb];
    assert_eq!(find(&p, &image).unwrap().offset, 0);
}

#[test]
fn first_match_wins() {
    let p = compile("aabb").unwrap();
    let image = vec![0x00, 0xaa, 0xbb, 0x00, 0xaa, 0xbb];
    assert_eq!(find(&p, &image).unwrap().offset, 1);
}

#[test]
fn stale_pattern_finds_nothing() {
    let p = compile("deadbeef").unwrap();
    let image = vec![0u8; 32];
    assert!(find(&p, &image).is_none());
}

#[test]
fn pattern_longer_than_image_finds_nothing() {
    let p = compile("aabbccdd").unwrap();
    let image = vec![0xaa, 0xbb];
    assert!(find(&p, &image).is_none());
}

#[test]
fn capture_count_matches_extraction() {
    // the compiled capture count equals the number of values extracted
    let p = compile("8905${'} 488d0d${} ff15${} 488b0d").unwrap();
    let mut image = vec![0u8; 40];
    let bytes = [
        0x89u8, 0x05, 1, 0, 0, 0, 0x48, 0x8d, 0x0d, 2, 0, 0, 0, 0xff, 0x15, 3, 0, 0, 0, 0x48,
        0x8b, 0x0d,
    ];
    image[..bytes.len()].copy_from_slice(&bytes);
    let m = find(&p, &image).unwrap();
    assert_eq!(p.capture_count, 3);
    assert_eq!(m.captures.len(), 3);
}

#[test]
fn scanning_is_deterministic() {
    let p = compile("aa?b ${} [3] u4").unwrap();
    let mut image = vec![0u8; 64];
    image[10] = 0xaa;
    image[11] = 0x2b;
    let m1 = find(&p, &image).unwrap();
    let m2 = find(&p, &image).unwrap();
    assert_eq!(m1.offset, m2.offset);
    assert_eq!(m1.captures, m2.captures);
}

#[test]
fn render_round_trip_reproduces_atoms() {
    // compiling, rendering the atoms, and recompiling yields the same atoms
    let texts = [
        "488935${'} 4885f6",
        "8b81u4 c3????????? 8b81[4] c3????????? 8b81",
        "4? ?a ?? [123] u4 ${}",
        "498d87 u4 4d69f4",
        "[4095] e8???? 74?",
    ];
    for text in texts {
        let p = compile(text).unwrap();
        let rendered = render(&p);
        let q = compile(&rendered).unwrap();
        assert_eq!(p.atoms, q.atoms);
        assert_eq!(p.byte_len, q.byte_len);
        assert_eq!(p.capture_count, q.capture_count);
    }
}

#[test]
fn render_is_canonical_text() {
    let p = compile("48 8935${}4885 f6").unwrap();
    assert_eq!(render(&p), "48 89 35 ${'} 48 85 f6 ");
}
