use cpython_rust_modules::b64::standard_b64encode;

fn enc(s: &[u8]) -> String {
    String::from_utf8(standard_b64encode(s)).unwrap()
}

#[test]
fn rfc4648_test_vectors() {
    assert_eq!(enc(b""), "");
    assert_eq!(enc(b"f"), "Zg==");
    assert_eq!(enc(b"fo"), "Zm8=");
    assert_eq!(enc(b"foo"), "Zm9v");
    assert_eq!(enc(b"foob"), "Zm9vYg==");
    assert_eq!(enc(b"fooba"), "Zm9vYmE=");
    assert_eq!(enc(b"foobar"), "Zm9vYmFy");
}

#[test]
fn encodes_hello() {
    assert_eq!(enc(b"hello"), "aGVsbG8=");
    assert_eq!(enc(b"hello world~"), "aGVsbG8gd29ybGR+");
}

#[test]
fn uses_plus_and_slash() {
    assert_eq!(enc(&[0xfb, 0xff]), "+/8=");
    assert_eq!(enc(&[0xff, 0xff, 0xff]), "////");
    assert_eq!(enc(&[0xf8]), "+A==");
}

#[test]
fn stops_at_first_nul() {
    assert_eq!(enc(b"hi\0there"), "aGk=");
    assert_eq!(enc(b"\0abc"), "");
    assert_eq!(enc(b"abc\0"), "YWJj");
}

#[test]
fn output_length_is_four_per_started_group() {
    for n in 0..40usize {
        let data: Vec<u8> = (0..n).map(|i| (i as u8).wrapping_mul(37).wrapping_add(1) | 1).collect();
        assert_eq!(standard_b64encode(&data).len(), 4 * ((n + 2) / 3));
    }
}

#[test]
fn output_holds_only_alphabet_bytes() {
    let data: Vec<u8> = (1..=255u8).collect();
    let out = standard_b64encode(&data);
    assert!(!out.is_empty());
    for c in out {
        assert!(c.is_ascii_alphanumeric() || c == b'+' || c == b'/' || c == b'=');
        assert_ne!(c, 0);
    }
}

#[test]
fn concatenation_at_group_boundary() {
    let a = b"abcdef";
    let b = b"xy";
    let mut ab = a.to_vec();
    ab.extend_from_slice(b);
    assert_eq!(enc(&ab), format!("{}{}", enc(a), enc(b)));
    assert_eq!(enc(&ab), "YWJjZGVmeHk=");
}

#[test]
fn distinct_inputs_distinct_outputs() {
    let inputs: [&[u8]; 6] = [b"a", b"b", b"ab", b"aa", b"abc", b"abd"];
    for (i, x) in inputs.iter().enumerate() {
        for (j, y) in inputs.iter().enumerate() {
            assert_eq!(i == j, enc(x) == enc(y));
        }
    }
}
