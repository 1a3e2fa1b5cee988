use ip_resolver::normalize::normalize;
use ip_resolver::scan::extract_ip_from_text;

#[test]
fn json_ip_field_is_returned_unchanged() {
    let r = normalize("{\"ip\":\"203.0.113.7\"}");
    assert_eq!(r, Some("203.0.113.7".to_string()));
}

#[test]
fn json_ip_field_skips_octet_validation() {
    let r = normalize("{\"ip\":\"999.999.999.999\"}");
    assert_eq!(r, Some("999.999.999.999".to_string()));
}

#[test]
fn json_ip_field_wins_over_origin() {
    let r = normalize("{\"ip\":\"1.1.1.1\",\"origin\":\"2.2.2.2\"}");
    assert_eq!(r, Some("1.1.1.1".to_string()));
}

#[test]
fn json_non_string_ip_field_falls_through() {
    let r = normalize("{\"ip\": 5}");
    assert_eq!(r, None);
}

#[test]
fn json_origin_clipped_at_comma() {
    let r = normalize("{\"origin\": \"198.51.100.4, 10.0.0.1\"}");
    assert_eq!(r, Some("198.51.100.4".to_string()));
}

#[test]
fn json_origin_clipped_at_colon() {
    let r = normalize("{\"origin\": \"1.2.3.4:8080\"}");
    assert_eq!(r, Some("1.2.3.4".to_string()));
}

#[test]
fn json_origin_plain() {
    let r = normalize("{\"origin\": \"9.8.7.6\"}");
    assert_eq!(r, Some("9.8.7.6".to_string()));
}

#[test]
fn json_without_known_fields_scans_the_text() {
    let r = normalize("{\"addr\": \"3.3.3.3\"}");
    assert_eq!(r, Some("3.3.3.3".to_string()));
}

#[test]
fn invalid_octet_is_skipped_for_a_later_match() {
    let r = normalize("your address is 192.168.1.999 but also 10.0.0.5");
    assert_eq!(r, Some("10.0.0.5".to_string()));
}

#[test]
fn extract_skips_invalid_octet() {
    let r = extract_ip_from_text("your address is 192.168.1.999 but also 10.0.0.5");
    assert_eq!(r, Some("10.0.0.5".to_string()));
}

#[test]
fn no_dotted_quad_means_absent() {
    assert_eq!(normalize("no address here"), None);
    assert_eq!(extract_ip_from_text(""), None);
    assert_eq!(extract_ip_from_text("one.two.three.four"), None);
}

#[test]
fn octet_boundaries() {
    assert_eq!(
        extract_ip_from_text("255.255.255.255"),
        Some("255.255.255.255".to_string())
    );
    assert_eq!(extract_ip_from_text("256.1.1.1"), None);
}

#[test]
fn word_boundaries_are_respected() {
    assert_eq!(extract_ip_from_text("x1.2.3.4"), None);
    assert_eq!(extract_ip_from_text("1.2.3.45x"), None);
    assert_eq!(
        extract_ip_from_text("(1.2.3.4)"),
        Some("1.2.3.4".to_string())
    );
}

#[test]
fn group_lengths_are_one_to_three_digits() {
    assert_eq!(extract_ip_from_text("1234.5.6.7"), None);
    assert_eq!(
        extract_ip_from_text("12.34.56.78"),
        Some("12.34.56.78".to_string())
    );
}

#[test]
fn first_valid_quad_wins() {
    let r = extract_ip_from_text("first 8.8.8.8 then 9.9.9.9");
    assert_eq!(r, Some("8.8.8.8".to_string()));
}

#[test]
fn plain_text_with_label_scans() {
    let r = normalize("ip: 10.1.2.3");
    assert_eq!(r, Some("10.1.2.3".to_string()));
}
