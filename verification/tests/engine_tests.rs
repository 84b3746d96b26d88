use backup_extract::address_book::Contact;
use backup_extract::db::{HandleRow, MessageRow};
use backup_extract::messages::{
    group_messages, render_all, render_conversation, ConversationGroup, Message, ServicePolicy,
};

fn jane() -> Contact {
    Contact { name: String::from("Jane Doe"), phone_number: String::from("+15551234567") }
}

fn handle_row(row_id: i64, id: &str, service: Option<&str>) -> HandleRow {
    HandleRow { row_id, id: String::from(id), service: service.map(String::from) }
}

fn msg_row(text: &str, from_me: bool, date_ns: i64, handle_id: i64) -> MessageRow {
    MessageRow {
        text: Some(String::from(text)),
        is_from_me: Some(from_me),
        date: Some(date_ns),
        handle_id: Some(handle_id),
        msg_type: Some(0),
    }
}

fn header_count(s: &str) -> usize {
    s.matches("\n      | ").count()
}

#[test]
fn groups_are_chronologically_ordered() {
    let contacts = vec![jane()];
    let handles = vec![handle_row(5, "+15551234567", Some("iMessage"))];
    // rows arrive out of order
    let rows = vec![
        msg_row("third", false, 30_000_000_000, 5),
        msg_row("first", false, 10_000_000_000, 5),
        msg_row("second", true, 20_000_000_000, 5),
    ];
    let groups = group_messages(&contacts, &handles, &rows, ServicePolicy::AnyService);
    assert_eq!(groups.len(), 1);
    let msgs = &groups[0].messages;
    assert_eq!(msgs.len(), 3);
    for w in msgs.windows(2) {
        assert!(w[0].timestamp <= w[1].timestamp);
    }
    assert_eq!(msgs[0].content.as_deref(), Some("first"));
    assert_eq!(msgs[1].content.as_deref(), Some("second"));
    assert_eq!(msgs[2].content.as_deref(), Some("third"));
}

#[test]
fn non_text_and_unmatched_rows_are_excluded() {
    let contacts = vec![jane()];
    let handles = vec![
        handle_row(5, "+15551234567", Some("iMessage")),
        handle_row(6, "+15551234567", None),  // legacy service: excluded
    ];
    let rows = vec![
        msg_row("kept", false, 0, 5),
        MessageRow {
            text: Some(String::from("system event")),
            is_from_me: Some(false),
            date: Some(0),
            handle_id: Some(5),
            msg_type: Some(2),  // not a standard text message
        },
        msg_row("via legacy handle", false, 0, 6),
        msg_row("unknown handle", false, 0, 99),
    ];
    let groups = group_messages(&contacts, &handles, &rows, ServicePolicy::AnyService);
    assert_eq!(groups.len(), 1);
    assert_eq!(groups[0].messages.len(), 1);
    assert_eq!(groups[0].messages[0].content.as_deref(), Some("kept"));
}

#[test]
fn primary_only_policy_excludes_other_services() {
    let contacts = vec![jane()];
    let handles = vec![handle_row(5, "+15551234567", Some("SMS"))];
    let rows = vec![msg_row("hi", false, 0, 5)];
    let any = group_messages(&contacts, &handles, &rows, ServicePolicy::AnyService);
    assert_eq!(any[0].messages.len(), 1);
    let primary = group_messages(&contacts, &handles, &rows, ServicePolicy::PrimaryOnly);
    assert_eq!(primary[0].messages.len(), 0);
}

#[test]
fn same_number_goes_to_first_contact() {
    let mut carol = jane();
    carol.name = String::from("Carol");
    let contacts = vec![jane(), carol];
    let handles = vec![handle_row(5, "+15551234567", Some("iMessage"))];
    let rows = vec![msg_row("hi", false, 0, 5)];
    let groups = group_messages(&contacts, &handles, &rows, ServicePolicy::AnyService);
    assert_eq!(groups.len(), 2);
    assert_eq!(groups[0].name, "Jane Doe");
    assert_eq!(groups[0].messages.len(), 1);
    assert_eq!(groups[1].name, "Carol");
    assert_eq!(groups[1].messages.len(), 0);
}

#[test]
fn session_break_exactly_over_two_hours() {
    let base = 978307200;
    let msgs = vec![
        Message { content: Some(String::from("a")), is_from_me: false, timestamp: base },
        // exactly two hours later: no new session
        Message { content: Some(String::from("b")), is_from_me: true, timestamp: base + 7200 },
        // more than two hours after the previous: a new session
        Message { content: Some(String::from("c")), is_from_me: false, timestamp: base + 7200 + 7201 },
    ];
    let out = render_conversation("Jane Doe", &msgs).expect("render must succeed");
    let text = out.expect("non-empty group renders");
    assert_eq!(header_count(&text), 2);
    assert!(text.contains("[Jane Doe]: a\n"));
    assert!(text.contains("[me]: b\n"));
    assert!(text.contains("[Jane Doe]: c\n"));
}

#[test]
fn missing_text_renders_placeholder() {
    let msgs = vec![Message { content: None, is_from_me: false, timestamp: 978307200 }];
    let text = render_conversation("Jane Doe", &msgs).unwrap().unwrap();
    assert!(text.contains("[Jane Doe]: <unknown>\n"));
}

#[test]
fn empty_group_renders_nothing() {
    let msgs: Vec<Message> = Vec::new();
    let out = render_conversation("Jane Doe", &msgs).expect("render must succeed");
    assert!(out.is_none());
}

#[test]
fn empty_group_produces_no_output_file() {
    let groups = vec![
        ConversationGroup {
            name: String::from("Silent Bob"),
            messages: Vec::new(),
        },
        ConversationGroup {
            name: String::from("Jane Doe"),
            messages: vec![Message {
                content: Some(String::from("hi")),
                is_from_me: false,
                timestamp: 978307200,
            }],
        },
    ];
    let files = render_all(&groups).expect("render must succeed");
    assert_eq!(files.len(), 1);
    assert_eq!(files[0].0, "Jane Doe.txt");
}

#[test]
fn filename_collision_gets_numeric_suffix() {
    let m = Message { content: Some(String::from("x")), is_from_me: false, timestamp: 978307200 };
    let groups = vec![
        ConversationGroup { name: String::from("John Smith"), messages: vec![m.clone()] },
        // a name that sanitizes to the same stem
        ConversationGroup { name: String::from("John Smith."), messages: vec![m] },
    ];
    let files = render_all(&groups).expect("render must succeed");
    assert_eq!(files.len(), 2);
    assert_eq!(files[0].0, "John Smith.txt");
    assert_eq!(files[1].0, "John Smith 1.txt");
}

#[test]
fn same_name_contacts_share_one_group() {
    let contacts = vec![
        Contact { name: String::from("Jane Doe"), phone_number: String::from("+15551111111") },
        Contact { name: String::from("Jane Doe"), phone_number: String::from("+15552222222") },
    ];
    let handles = vec![
        handle_row(1, "+15551111111", Some("iMessage")),
        handle_row(2, "+15552222222", Some("iMessage")),
    ];
    let rows = vec![
        msg_row("to first number", false, 10_000_000_000, 1),
        msg_row("to second number", false, 20_000_000_000, 2),
    ];
    let groups = group_messages(&contacts, &handles, &rows, ServicePolicy::AnyService);
    assert_eq!(groups.len(), 1);
    assert_eq!(groups[0].name, "Jane Doe");
    assert_eq!(groups[0].messages.len(), 2);
}

#[test]
fn equal_timestamps_keep_row_order() {
    let contacts = vec![jane()];
    let handles = vec![handle_row(5, "+15551234567", Some("iMessage"))];
    // all three land on the same second: ordering falls to row order
    let rows = vec![
        msg_row("a", false, 100, 5),
        msg_row("b", true, 200, 5),
        msg_row("c", false, 300, 5),
    ];
    let groups = group_messages(&contacts, &handles, &rows, ServicePolicy::AnyService);
    assert_eq!(groups.len(), 1);
    let msgs = &groups[0].messages;
    assert_eq!(msgs.len(), 3);
    assert_eq!(msgs[0].content.as_deref(), Some("a"));
    assert_eq!(msgs[1].content.as_deref(), Some("b"));
    assert_eq!(msgs[2].content.as_deref(), Some("c"));
}
