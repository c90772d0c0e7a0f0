use mj_tui::clipboard::base64_encode;

#[test]
fn encodes_known_vectors() {
    assert_eq!(base64_encode(b""), "");
    assert_eq!(base64_encode(b"f"), "Zg==");
    assert_eq!(base64_encode(b"fo"), "Zm8=");
    assert_eq!(base64_encode(b"foo"), "Zm9v");
    assert_eq!(base64_encode(b"foob"), "Zm9vYg==");
    assert_eq!(base64_encode(b"fooba"), "Zm9vYmE=");
    assert_eq!(base64_encode(b"foobar"), "Zm9vYmFy");
}

#[test]
fn encodes_cjk() {
    assert_eq!(base64_encode("雪".as_bytes()), "6Zuq");
    let s = base64_encode("　　雪落了一夜。".as_bytes());
    assert!(s.len() % 4 == 0, "base64 长度应是 4 的倍数: {s}");
}

#[test]
fn encodes_emoji() {
    let s = base64_encode("👨‍👩‍👧".as_bytes());
    assert!(s.len() % 4 == 0);
    assert!(!s.is_empty());
}

#[test]
fn output_length_is_always_a_multiple_of_four() {
    for n in 0..20 {
        let data = vec![b'x'; n];
        let s = base64_encode(&data);
        assert!(s.len() % 4 == 0, "n={n} 时长度 {} 不是 4 的倍数", s.len());
        assert_eq!(s.len(), 4 * ((n + 2) / 3));
    }
}

#[test]
fn high_bytes_use_plus_and_slash() {
    assert_eq!(base64_encode(&[0xfb, 0xff]), "+/8=");
}
