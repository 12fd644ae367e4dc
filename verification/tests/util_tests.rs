use openfocus::util::generate_id;

#[test]
fn test_generate_id_length() {
    assert!(generate_id().len() == 11)
}

#[test]
fn test_generate_id_chars() {
    for _ in 0..32 {
        let id = generate_id();
        assert!(id.chars().all(|c| {
            c.is_ascii_alphanumeric() || c == '_' || c == '-'
        }));
    }
}
