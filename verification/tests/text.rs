use probing_web::text::{i64_text, parse_i64};

#[test]
fn written_integers_read_back() {
    for v in [0i64, 7, -7, 1_000_000, i64::MAX, i64::MIN] {
        assert_eq!(parse_i64(i64_text(v).as_str()), Some(v));
    }
    assert_eq!(i64_text(-42), "-42");
    assert_eq!(parse_i64("12x"), None);
    assert_eq!(parse_i64(""), None);
    assert_eq!(parse_i64("+5"), Some(5));
    assert_eq!(parse_i64("-"), None);
}
