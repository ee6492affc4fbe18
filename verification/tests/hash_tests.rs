use i18n_transform::generate_hash;

#[test]
fn hash_deterministic() {
    let a = generate_hash("안녕");
    let b = generate_hash("안녕");
    assert_eq!(a, b);
}

#[test]
fn hash_known_values() {
    assert_eq!(generate_hash("안녕"), "3beb11af");
    assert_eq!(generate_hash("hello"), "a9cede7");
    assert_eq!(generate_hash("a"), "2b5c4");
    assert_eq!(generate_hash("こんにちは"), "ab391401");
    assert_eq!(generate_hash("text"), "7c73af98");
}

#[test]
fn hash_empty_input() {
    // The accumulator stays at its seed for empty input.
    assert_eq!(generate_hash(""), "1505");
}

#[test]
fn hash_length_bounded() {
    for s in ["", "a", "안녕", "a longer piece of text with many words"] {
        let h = generate_hash(s);
        assert!(h.len() >= 1 && h.len() <= 8);
    }
}

#[test]
fn hash_shorter_than_eight_not_padded() {
    // "hello" hashes to seven hex digits; no zero padding is added.
    assert_eq!(generate_hash("hello").len(), 7);
}
