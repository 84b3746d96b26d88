use backup_extract::filename::{sanitize_name, u64_to_string, unique_name};

#[test]
fn sanitize_replaces_reserved_characters() {
    assert_eq!(sanitize_name("a<b>c:d\"e/f\\g|h?i*j"), "a_b_c_d_e_f_g_h_i_j");
}

#[test]
fn sanitize_replaces_control_characters() {
    assert_eq!(sanitize_name("a\u{1}b\u{1f}c\u{7f}d"), "a_b_c_d");
}

#[test]
fn sanitize_trims_dots_and_spaces() {
    assert_eq!(sanitize_name("  .John Smith. . "), "John Smith");
}

#[test]
fn sanitize_empty_falls_back_to_placeholder() {
    assert_eq!(sanitize_name(""), "unknown");
    assert_eq!(sanitize_name(" .. . "), "unknown");
}

#[test]
fn sanitize_keeps_ordinary_names() {
    assert_eq!(sanitize_name("Jane Doe"), "Jane Doe");
}

#[test]
fn decimal_rendering() {
    assert_eq!(u64_to_string(0), "0");
    assert_eq!(u64_to_string(7), "7");
    assert_eq!(u64_to_string(10), "10");
    assert_eq!(u64_to_string(12345), "12345");
    assert_eq!(u64_to_string(u64::MAX), "18446744073709551615");
}

#[test]
fn unique_name_takes_base_when_free() {
    let used: Vec<String> = Vec::new();
    assert_eq!(unique_name(&used, "John Smith"), "John Smith");
}

#[test]
fn unique_name_appends_incrementing_suffix() {
    let used = vec![String::from("John Smith")];
    assert_eq!(unique_name(&used, "John Smith"), "John Smith 1");
    let used = vec![String::from("John Smith"), String::from("John Smith 1")];
    assert_eq!(unique_name(&used, "John Smith"), "John Smith 2");
}

#[test]
fn unique_name_skips_to_first_free_suffix() {
    let used = vec![
        String::from("a"),
        String::from("a 1"),
        String::from("a 3"),
    ];
    assert_eq!(unique_name(&used, "a"), "a 2");
}
