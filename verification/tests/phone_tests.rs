use backup_extract::phone::normalize_phone;

#[test]
fn normalize_strips_separators_and_prefixes() {
    assert_eq!(normalize_phone("(555) 123-4567"), "+15551234567");
}

#[test]
fn normalize_keeps_existing_plus() {
    assert_eq!(normalize_phone("+44 20 7946 0958"), "+442079460958");
    assert_eq!(normalize_phone("+15551234567"), "+15551234567");
}

#[test]
fn normalize_of_empty_is_default_prefix() {
    assert_eq!(normalize_phone(""), "+1");
    assert_eq!(normalize_phone("()- "), "+1");
}

#[test]
fn normalize_is_idempotent_on_samples() {
    let samples = [
        "(555) 123-4567",
        "+44 20 7946 0958",
        "",
        "555-1234",
        "+1 (555) 000-0000",
        "plain words",
    ];
    for s in samples {
        let once = normalize_phone(s);
        let twice = normalize_phone(&once);
        assert_eq!(once, twice);
    }
}

#[test]
fn normalize_leaves_other_characters_alone() {
    assert_eq!(normalize_phone("555.123.4567"), "+1555.123.4567");
}
