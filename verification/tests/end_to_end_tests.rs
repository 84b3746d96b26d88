use backup_extract::address_book::contact_pairs;
use backup_extract::db::{HandleRow, MessageRow, MultiValueRow, PersonRow};
use backup_extract::messages::{group_messages, render_all, ServicePolicy};

// The fixture rows of one small backup: one contact, one handle, two
// messages in a single session.
fn fixture_persons() -> Vec<PersonRow> {
    vec![PersonRow {
        row_id: 1,
        first: Some(String::from("Jane")),
        middle: None,
        last: Some(String::from("Doe")),
        nickname: None,
        prefix: None,
        suffix: None,
        organization: None,
        department: None,
        job_title: None,
        birthday: None,
        note: None,
    }]
}

fn fixture_mvs() -> Vec<MultiValueRow> {
    vec![MultiValueRow {
        record_id: 1,
        property: 3,
        value: Some(String::from("(555) 123-4567")),
        int_value: None,
    }]
}

fn fixture_handles() -> Vec<HandleRow> {
    vec![HandleRow {
        row_id: 1,
        id: String::from("+15551234567"),
        service: Some(String::from("iMessage")),
    }]
}

fn fixture_messages() -> Vec<MessageRow> {
    // raw timestamps in nanoseconds: 0 and 10000 land in the same second
    vec![
        MessageRow {
            text: Some(String::from("Hello Jane")),
            is_from_me: Some(false),
            date: Some(0),
            handle_id: Some(1),
            msg_type: Some(0),
        },
        MessageRow {
            text: Some(String::from("Hi!")),
            is_from_me: Some(true),
            date: Some(10000),
            handle_id: Some(1),
            msg_type: Some(0),
        },
    ]
}

#[test]
fn full_extraction_scenario() {
    let contacts = contact_pairs(&fixture_persons(), &fixture_mvs());
    assert_eq!(contacts.len(), 1);
    assert_eq!(contacts[0].name, "Jane Doe");
    assert_eq!(contacts[0].phone_number, "+15551234567");

    let groups = group_messages(
        &contacts,
        &fixture_handles(),
        &fixture_messages(),
        ServicePolicy::AnyService,
    );
    assert_eq!(groups.len(), 1);
    assert_eq!(groups[0].name, "Jane Doe");
    assert_eq!(groups[0].messages.len(), 2);
    assert_eq!(groups[0].messages[0].timestamp, 978307200);
    assert_eq!(groups[0].messages[1].timestamp, 978307200);

    let files = render_all(&groups).expect("render succeeds");
    assert_eq!(files.len(), 1);
    assert_eq!(files[0].0, "Jane Doe.txt");
    let text = &files[0].1;
    // a single session block: one header, both lines in order
    assert_eq!(text.matches("\n      | ").count(), 1);
    let jane_at = text.find("[Jane Doe]: Hello Jane\n").expect("her line");
    let me_at = text.find("[me]: Hi!\n").expect("my line");
    assert!(jane_at < me_at);
}
