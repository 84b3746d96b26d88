use backup_extract::address_book::{contact_pairs, display_name, find_first_value, find_person};
use backup_extract::contacts::{contacts_from_rows, Contact};
use backup_extract::db::{MultiValueRow, PersonRow};

fn person(row_id: i64, first: Option<&str>, last: Option<&str>) -> PersonRow {
    PersonRow {
        row_id,
        first: first.map(String::from),
        middle: None,
        last: last.map(String::from),
        nickname: None,
        prefix: None,
        suffix: None,
        organization: None,
        department: None,
        job_title: None,
        birthday: None,
        note: None,
    }
}

fn mv(record_id: i64, property: i64, value: Option<&str>) -> MultiValueRow {
    MultiValueRow {
        record_id,
        property,
        value: value.map(String::from),
        int_value: None,
    }
}

#[test]
fn display_name_joins_first_and_last() {
    assert_eq!(display_name(&person(1, Some("Jane"), Some("Doe"))), "Jane Doe");
    assert_eq!(display_name(&person(1, Some("Cher"), None)), "Cher");
}

#[test]
fn find_person_first_match_policy() {
    let persons = vec![
        person(1, None, Some("Ghost")),
        person(2, Some("Jane"), Some("Doe")),
        person(3, Some("Jane"), Some("Doe")),
    ];
    assert_eq!(find_person(&persons, "Jane Doe"), Some(1));
    assert_eq!(find_person(&persons, "Nobody Here"), None);
}

#[test]
fn find_first_value_skips_other_properties_and_nulls() {
    let mvs = vec![
        mv(2, 4, Some("jane@example.com")),
        mv(2, 3, None),
        mv(2, 3, Some("(555) 123-4567")),
        mv(2, 3, Some("(555) 999-9999")),
    ];
    let v = find_first_value(&mvs, 2, 3);
    assert_eq!(v.as_deref(), Some("(555) 123-4567"));
    assert!(find_first_value(&mvs, 7, 3).is_none());
}

#[test]
fn contact_pairs_normalizes_every_number() {
    let persons = vec![
        person(1, Some("Jane"), Some("Doe")),
        person(2, None, None),
        person(3, Some("Bob"), None),
    ];
    let mvs = vec![
        mv(1, 3, Some("(555) 123-4567")),
        mv(1, 3, Some("+44 20 7946 0958")),
        mv(2, 3, Some("(555) 000-0000")),
        mv(3, 4, Some("bob@example.com")),
    ];
    let pairs = contact_pairs(&persons, &mvs);
    // the nameless person and the phoneless person contribute nothing
    assert_eq!(pairs.len(), 2);
    assert_eq!(pairs[0].name, "Jane Doe");
    assert_eq!(pairs[0].phone_number, "+15551234567");
    assert_eq!(pairs[1].name, "Jane Doe");
    assert_eq!(pairs[1].phone_number, "+442079460958");
}

#[test]
fn contacts_from_rows_builds_structured_contacts() {
    let mut p = person(1, Some("Jane"), Some("Doe"));
    p.birthday = Some(0);
    let rows = vec![person(7, None, Some("Skipped")), p];
    let mvs = vec![
        mv(1, 3, Some("(555) 123-4567")),
        mv(1, 4, Some("jane@example.com")),
        MultiValueRow {
            record_id: 1,
            property: 12,
            value: Some(String::from("86400")),
            int_value: Some(86400),
        },
    ];
    let contacts = contacts_from_rows(&rows, &mvs).expect("dates decode");
    assert_eq!(contacts.len(), 1);
    let c = &contacts[0];
    assert_eq!(c.first_name, "Jane");
    assert_eq!(c.last_name.as_deref(), Some("Doe"));
    assert_eq!(c.phone_number.as_deref(), Some("+15551234567"));
    assert_eq!(c.email.as_deref(), Some("jane@example.com"));
    assert_eq!(c.birthday, Some((978307200, true)));
    assert_eq!(c.anniversary, Some((978307200 + 86400, true)));
}

#[test]
fn card_lists_each_stored_detail() {
    let c = Contact {
        first_name: String::from("Jane"),
        middle_name: Some(String::from("Q")),
        last_name: Some(String::from("Doe")),
        nickname: Some(String::from("JD")),
        prefix: Some(String::from("Dr")),
        suffix: None,
        phone_number: Some(String::from("+15551234567")),
        email: Some(String::from("jane@example.com")),
        organization: Some(String::from("Acme")),
        department: Some(String::from("R&D")),
        job_title: Some(String::from("Engineer")),
        birthday: None,
        anniversary: None,
        note: Some(String::from("likes verification")),
    };
    let card = c.to_string().expect("no dates, cannot fail");
    assert_eq!(
        card,
        "[Dr Jane Q Doe (JD)]:\nPhone Number: +15551234567\nEmail: jane@example.com\nOrganization: Acme\nDepartment: R&D\nJob Title: Engineer\nNote: likes verification\n"
    );
}

#[test]
fn card_of_bare_contact_is_name_line_only() {
    let c = Contact {
        first_name: String::from("Ann"),
        middle_name: None,
        last_name: None,
        nickname: None,
        prefix: None,
        suffix: None,
        phone_number: None,
        email: None,
        organization: None,
        department: None,
        job_title: None,
        birthday: None,
        anniversary: None,
        note: None,
    };
    assert_eq!(c.to_string().expect("cannot fail"), "[Ann]:\n");
}

#[test]
fn card_shows_dates_when_stored() {
    let c = Contact {
        first_name: String::from("Ann"),
        middle_name: None,
        last_name: None,
        nickname: None,
        prefix: None,
        suffix: None,
        phone_number: None,
        email: None,
        organization: None,
        department: None,
        job_title: None,
        birthday: Some((978307200, true)),
        anniversary: Some((978307200, false)),
        note: None,
    };
    let card = c.to_string().expect("dates in range format");
    assert!(card.starts_with("[Ann]:\nBirthday: "));
    assert!(card.contains("\nAnniversary: "));
    // the year appears only where it is known
    let birthday_line = card.lines().find(|l| l.starts_with("Birthday: ")).unwrap();
    assert!(birthday_line.contains("2001") || birthday_line.contains("2000"));
    let anniversary_line = card.lines().find(|l| l.starts_with("Anniversary: ")).unwrap();
    assert!(!anniversary_line.contains("2001") && !anniversary_line.contains("2000"));
}

#[test]
fn report_joins_cards_with_blank_lines() {
    let bare = |name: &str| Contact {
        first_name: String::from(name),
        middle_name: None,
        last_name: None,
        nickname: None,
        prefix: None,
        suffix: None,
        phone_number: None,
        email: None,
        organization: None,
        department: None,
        job_title: None,
        birthday: None,
        anniversary: None,
        note: None,
    };
    let contacts = vec![bare("Ann"), bare("Bob")];
    let report = backup_extract::contacts::contacts_report(&contacts).expect("no dates");
    assert_eq!(report, "[Ann]:\n\n[Bob]:\n\n");
}
