use shors::shortener::Shortener;

#[test]
fn shorten_then_resolve_returns_original() {
    let mut s = Shortener::new();
    let rec = s.shorten("https://example.com").unwrap();
    assert_eq!(
        s.get_original_url(rec.id.clone()),
        Some("https://example.com".to_string())
    );
}

#[test]
fn resolve_never_issued_id_is_absent() {
    let mut s = Shortener::new();
    assert_eq!(s.get_original_url("ab12".to_string()), None);
    let rec = s.shorten("https://example.com").unwrap();
    let bogus = format!("{}x", rec.id);
    assert_eq!(s.get_original_url(bogus), None);
}

#[test]
fn successive_shortens_issue_distinct_ids() {
    let mut s = Shortener::new();
    let r1 = s.shorten("https://example.com/a").unwrap();
    let r2 = s.shorten("https://example.com/b").unwrap();
    let r3 = s.shorten("https://example.com/a").unwrap();
    assert_ne!(r1.id, r2.id);
    assert_ne!(r1.id, r3.id);
    assert_ne!(r2.id, r3.id);
    assert_eq!(
        s.get_original_url(r2.id.clone()),
        Some("https://example.com/b".to_string())
    );
}

#[test]
fn shorten_with_counter_at_zero_encodes_zero() {
    let mut s = Shortener::new();
    let rec = s.shorten("https://example.com").unwrap();

    // A second fresh service allocates from the same counter value, so its
    // first identifier is the encoding of zero as well.
    let mut fresh = Shortener::new();
    let encoded_zero = fresh.next_id();
    assert_eq!(rec.id, encoded_zero);

    assert_eq!(rec.long_url, "https://example.com".to_string());
    assert_eq!(rec.link, format!("https://sho.rs/{}", rec.id));
    assert!(!rec.archived);
}

#[test]
fn next_id_advances_the_mirror() {
    let mut s = Shortener::new();
    assert_eq!(s.current_counter(), 0);
    let first = s.next_id();
    assert_eq!(s.current_counter(), 1);
    let second = s.next_id();
    assert_eq!(s.current_counter(), 2);
    assert_ne!(first, second);
}
