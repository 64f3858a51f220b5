use crm_migration::error::MigrationError;
use crm_migration::family_refresh::field_queries::{part, FRAGMENT_BYTES};

#[test]
fn utf8_fragments_are_lossless_and_bounded() {
    let text = "a🙂é".repeat(10000);
    let mut offset = 0;
    let mut joined = String::new();
    while offset < text.len() {
        let (p, end) = part(&text, offset).unwrap();
        assert!(p.len() <= FRAGMENT_BYTES);
        joined.push_str(p);
        offset = end;
    }
    assert_eq!(text, joined);
    assert!(part("🙂", 1).is_err());
    assert!(part("x", 2).is_err());
}

#[test]
fn fragments_end_on_the_last_boundary_within_the_bound() {
    let text = "🙂".repeat(FRAGMENT_BYTES);
    let (p, end) = part(&text, 0).unwrap();
    assert_eq!(end, FRAGMENT_BYTES);
    assert_eq!(p.len(), FRAGMENT_BYTES);
    let shifted = format!("a{}", text);
    let (q, end) = part(&shifted, 0).unwrap();
    assert_eq!(end, FRAGMENT_BYTES - 3);
    assert_eq!(q.len(), FRAGMENT_BYTES - 3);
    assert_eq!(part("abc", 3).unwrap(), ("", 3));
    assert_eq!(part("é", 1), Err(MigrationError::InvalidInput));
}
