use resend_rs::parse::parse_id_object;

#[test]
fn parse_simple_success_body() {
    assert_eq!(parse_id_object("{\"id\":\"abc123\"}"), Some("abc123".to_string()));
}

#[test]
fn parse_tolerates_whitespace() {
    assert_eq!(parse_id_object(" {\n  \"id\" : \"x\"\r\n} \t"), Some("x".to_string()));
}

#[test]
fn parse_decodes_escapes() {
    assert_eq!(
        parse_id_object("{\"id\":\"a\\\"b\\\\c\\/d\\ne\\tf\"}"),
        Some("a\"b\\c/d\ne\tf".to_string())
    );
}

#[test]
fn parse_decodes_control_unicode_escape() {
    assert_eq!(parse_id_object("{\"id\":\"a\\u0001b\"}"), Some("a\u{1}b".to_string()));
}

#[test]
fn parse_decodes_general_unicode_escape() {
    assert_eq!(parse_id_object("{\"id\":\"\\u0041b\"}"), Some("Ab".to_string()));
    assert_eq!(parse_id_object("{\"id\":\"\\u20aC\"}"), Some("\u{20ac}".to_string()));
}

#[test]
fn parse_decodes_surrogate_pair() {
    assert_eq!(parse_id_object("{\"id\":\"\\uD83D\\uDE00\"}"), Some("\u{1F600}".to_string()));
}

#[test]
fn parse_rejects_lone_surrogates() {
    assert_eq!(parse_id_object("{\"id\":\"\\uD800\"}"), None);
    assert_eq!(parse_id_object("{\"id\":\"\\uDC00\"}"), None);
    assert_eq!(parse_id_object("{\"id\":\"\\uD800\\u0041\"}"), None);
}

#[test]
fn parse_empty_id() {
    assert_eq!(parse_id_object("{\"id\":\"\"}"), Some(String::new()));
}

#[test]
fn parse_ignores_unknown_members() {
    assert_eq!(parse_id_object("{\"id\":\"x\",\"a\":\"b\"}"), Some("x".to_string()));
    assert_eq!(parse_id_object("{\"a\":\"b\",\"id\":\"x\"}"), Some("x".to_string()));
    assert_eq!(
        parse_id_object("{\"n\":123,\"b\":true,\"u\":null,\"id\":\"x\"}"),
        Some("x".to_string())
    );
}

#[test]
fn parse_ignores_nested_unknown_members() {
    assert_eq!(
        parse_id_object("{\"meta\":{\"k\":[1,2,{\"z\":\"}]\"}]},\"id\":\"x\"}"),
        Some("x".to_string())
    );
    assert_eq!(parse_id_object("{\"tags\":[\"a\",\"b\"],\"id\":\"x\"}"), Some("x".to_string()));
}

#[test]
fn parse_rejects_duplicate_id_member() {
    assert_eq!(parse_id_object("{\"id\":\"x\",\"id\":\"y\"}"), None);
}

#[test]
fn parse_rejects_mismatched_brackets_in_unknown_member() {
    assert_eq!(parse_id_object("{\"a\":[},\"id\":\"x\"}"), None);
}

#[test]
fn parse_rejects_empty_object() {
    assert_eq!(parse_id_object("{}"), None);
}

#[test]
fn parse_rejects_missing_id() {
    assert_eq!(parse_id_object("{\"di\":\"x\"}"), None);
    assert_eq!(parse_id_object("{\"a\":\"b\",\"c\":\"d\"}"), None);
}

#[test]
fn parse_rejects_non_string_id() {
    assert_eq!(parse_id_object("{\"id\":5}"), None);
    assert_eq!(parse_id_object("{\"id\":5,\"a\":\"b\"}"), None);
}

#[test]
fn parse_rejects_trailing_text() {
    assert_eq!(parse_id_object("{\"id\":\"x\"}x"), None);
}

#[test]
fn parse_rejects_trailing_comma() {
    assert_eq!(parse_id_object("{\"id\":\"x\",}"), None);
}

#[test]
fn parse_rejects_unknown_escape() {
    assert_eq!(parse_id_object("{\"id\":\"\\q\"}"), None);
}

#[test]
fn parse_rejects_unterminated_string() {
    assert_eq!(parse_id_object("{\"id\":\"x"), None);
}

#[test]
fn parse_rejects_raw_control_character() {
    assert_eq!(parse_id_object("{\"id\":\"a\u{1}b\"}"), None);
}

#[test]
fn parse_rejects_plain_text() {
    assert_eq!(parse_id_object("invalid from address"), None);
}
