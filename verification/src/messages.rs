//! The conversation extraction engine and transcript renderer.
//!
//! Messages join to contacts through their handle: a message of the standard
//! text type points at a handle row; a handle represents a real messaging
//! endpoint when it carries a service; the handle's address equals some
//! contact's normalized phone number. The first matching handle row and the
//! first matching contact win, as everywhere in this crate. Each distinct
//! contact name owns one conversation group holding its matched messages in
//! ascending timestamp order.
//!
//! A transcript renders a group line by line, inserting a session-break
//! header exactly before the first message and wherever more than two hours
//! passed since the previous message. Output files take the sanitized,
//! collision-suffixed name of their contact; an empty group produces no file.
use vstd::prelude::*;

use crate::address_book::Contact;
use crate::db::{
    fetch_handle_rows, fetch_message_rows, fetch_multi_value_rows, fetch_person_rows,
    open_database, HandleRow, MessageRow,
};
use crate::filename::{contains_name, sanitize_name, sanitize_spec, suffixed, taken, unique_name};
use crate::manifest::Manifest;
use crate::text::{clone_opt, eq_str, opt_str_view};
use crate::timecode::{format_timestamp_local, msg_timestamp_spec};
use crate::Error;

verus! {

/// One extracted message: its text (absent for non-text attachments), who
/// sent it, and its decoded UNIX timestamp in seconds.
#[derive(Clone)]
pub struct Message {
    pub content: Option<String>,
    pub is_from_me: bool,
    pub timestamp: i64,
}

/// A contact's conversation: its display name and its messages in ascending
/// timestamp order.
pub struct ConversationGroup {
    pub name: String,
    pub messages: Vec<Message>,
}

/// Which handle rows count as real messaging endpoints: any with a service
/// recorded, or only those on the primary messaging service. The source data
/// is ambiguous on this point, so it is a caller's choice.
#[derive(Clone, Copy)]
pub enum ServicePolicy {
    AnyService,
    PrimaryOnly,
}

/// The abstract value of a message: what the contracts compare.
#[verifier::ext_equal]
pub ghost struct MsgView {
    pub content: Option<Seq<char>>,
    pub from_me: bool,
    pub timestamp: int,
}

/// The abstract value of an extracted message.
pub open spec fn msg_view(m: Message) -> MsgView {
    MsgView {
        content: opt_str_view(m.content),
        from_me: m.is_from_me,
        timestamp: m.timestamp as int,
    }
}

/// Whether a raw message row is a standard text message with the columns the
/// extraction needs.
pub open spec fn row_eligible(row: MessageRow) -> bool {
    &&& row.msg_type matches Some(t) && t == 0
    &&& row.date is Some
    &&& row.handle_id is Some
}

/// The sender flag of a raw row; a missing flag means not from me.
pub open spec fn row_from_me(row: MessageRow) -> bool {
    match row.is_from_me {
        Some(b) => b,
        None => false,
    }
}

/// The abstract value an eligible raw row extracts to.
pub open spec fn row_view(row: MessageRow) -> MsgView {
    MsgView {
        content: opt_str_view(row.text),
        from_me: row_from_me(row),
        timestamp: msg_timestamp_spec(row.date.unwrap() as int),
    }
}

/// The abstract values of a sequence of extracted messages.
pub open spec fn msg_views(s: Seq<Message>) -> Seq<MsgView> {
    s.map_values(|m: Message| msg_view(m))
}

/// The abstract values of a sequence of raw rows.
pub open spec fn row_views(s: Seq<MessageRow>) -> Seq<MsgView> {
    s.map_values(|r: MessageRow| row_view(r))
}

/// Whether a handle row counts as a messaging endpoint under the policy.
pub open spec fn handle_ok(h: HandleRow, policy: ServicePolicy) -> bool {
    match policy {
        ServicePolicy::AnyService => h.service is Some,
        ServicePolicy::PrimaryOnly => h.service matches Some(s) && s@ == "iMessage"@,
    }
}

/// The address of the first handle row with this row identifier that counts
/// under the policy.
pub open spec fn first_handle(handles: Seq<HandleRow>, hid: int, policy: ServicePolicy) -> Option<
    Seq<char>,
>
    decreases handles.len(),
{
    if handles.len() == 0 {
        None
    } else if handles[0].row_id == hid && handle_ok(handles[0], policy) {
        Some(handles[0].id@)
    } else {
        first_handle(handles.drop_first(), hid, policy)
    }
}

/// The name of the first contact whose normalized number equals `phone`.
pub open spec fn owner_name(contacts: Seq<Contact>, phone: Seq<char>) -> Option<Seq<char>>
    decreases contacts.len(),
{
    if contacts.len() == 0 {
        None
    } else if contacts[0].phone_number@ == phone {
        Some(contacts[0].name@)
    } else {
        owner_name(contacts.drop_first(), phone)
    }
}

/// The contact name a raw row's message belongs to, if any: the row must be
/// an eligible text message, its handle must count under the policy, and the
/// handle's address must be some contact's number.
pub open spec fn target_of(
    contacts: Seq<Contact>,
    handles: Seq<HandleRow>,
    row: MessageRow,
    policy: ServicePolicy,
) -> Option<Seq<char>> {
    if !row_eligible(row) {
        None
    } else {
        match first_handle(handles, row.handle_id.unwrap() as int, policy) {
            None => None,
            Some(phone) => owner_name(contacts, phone),
        }
    }
}

/// The raw rows whose message belongs to `name`, in row order.
pub open spec fn matching_rows(
    contacts: Seq<Contact>,
    handles: Seq<HandleRow>,
    rows: Seq<MessageRow>,
    policy: ServicePolicy,
    name: Seq<char>,
) -> Seq<MessageRow>
    decreases rows.len(),
{
    if rows.len() == 0 {
        Seq::empty()
    } else {
        matching_rows(contacts, handles, rows.drop_last(), policy, name) + (if target_of(
            contacts,
            handles,
            rows.last(),
            policy,
        ) == Some(name) {
            seq![rows.last()]
        } else {
            Seq::empty()
        })
    }
}

proof fn lemma_first_handle_skip(handles: Seq<HandleRow>, hid: int, policy: ServicePolicy, i: int)
    requires
        0 <= i <= handles.len(),
        forall|j: int|
            0 <= j < i ==> !((#[trigger] handles[j]).row_id == hid && handle_ok(
                handles[j],
                policy,
            )),
    ensures
        first_handle(handles, hid, policy) == first_handle(handles.skip(i), hid, policy),
    decreases i,
{
    if i == 0 {
        assert(handles.skip(0) =~= handles);
    } else {
        lemma_first_handle_skip(handles, hid, policy, i - 1);
        assert(handles.skip(i - 1).len() > 0);
        assert(handles.skip(i - 1)[0] == handles[i - 1]);
        assert(handles.skip(i - 1).drop_first() =~= handles.skip(i));
        assert(first_handle(handles.skip(i - 1), hid, policy) == first_handle(
            handles.skip(i - 1).drop_first(),
            hid,
            policy,
        ));
    }
}

proof fn lemma_owner_skip(contacts: Seq<Contact>, phone: Seq<char>, i: int)
    requires
        0 <= i <= contacts.len(),
        forall|j: int| 0 <= j < i ==> (#[trigger] contacts[j]).phone_number@ != phone,
    ensures
        owner_name(contacts, phone) == owner_name(contacts.skip(i), phone),
    decreases i,
{
    if i == 0 {
        assert(contacts.skip(0) =~= contacts);
    } else {
        lemma_owner_skip(contacts, phone, i - 1);
        assert(contacts.skip(i - 1).len() > 0);
        assert(contacts.skip(i - 1)[0] == contacts[i - 1]);
        assert(contacts.skip(i - 1).drop_first() =~= contacts.skip(i));
        assert(owner_name(contacts.skip(i - 1), phone) == owner_name(
            contacts.skip(i - 1).drop_first(),
            phone,
        ));
    }
}

/// Finds the address of the first handle row with identifier `hid` that
/// counts under the policy.
fn find_handle(handles: &Vec<HandleRow>, hid: i64, policy: ServicePolicy) -> (r: Option<String>)
    ensures
        opt_str_view(r) == first_handle(handles@, hid as int, policy),
{
    let n = handles.len();
    let mut i: usize = 0;
    while i < n
        invariant
            0 <= i <= n,
            n == handles@.len(),
            forall|j: int|
                0 <= j < i ==> !((#[trigger] handles@[j]).row_id == hid as int && handle_ok(
                    handles@[j],
                    policy,
                )),
        decreases n - i,
    {
        let h = &handles[i];
        if h.row_id == hid {
            let ok = match policy {
                ServicePolicy::AnyService => h.service.is_some(),
                ServicePolicy::PrimaryOnly => match &h.service {
                    Some(s) => eq_str(s.as_str(), "iMessage"),
                    None => false,
                },
            };
            if ok {
                proof {
                    lemma_first_handle_skip(handles@, hid as int, policy, i as int);
                    assert(handles@.skip(i as int)[0] == handles@[i as int]);
                }
                return Some(h.id.clone());
            }
        }
        i += 1;
    }
    proof {
        lemma_first_handle_skip(handles@, hid as int, policy, n as int);
        assert(handles@.skip(n as int).len() == 0);
    }
    None
}

/// Finds the name of the first contact whose normalized number is `phone`.
fn find_owner(contacts: &Vec<Contact>, phone: &String) -> (r: Option<String>)
    ensures
        opt_str_view(r) == owner_name(contacts@, phone@),
{
    let n = contacts.len();
    let mut i: usize = 0;
    while i < n
        invariant
            0 <= i <= n,
            n == contacts@.len(),
            forall|j: int| 0 <= j < i ==> (#[trigger] contacts@[j]).phone_number@ != phone@,
        decreases n - i,
    {
        if contacts[i].phone_number.eq(phone) {
            proof {
                lemma_owner_skip(contacts@, phone@, i as int);
                assert(contacts@.skip(i as int)[0] == contacts@[i as int]);
            }
            return Some(contacts[i].name.clone());
        }
        i += 1;
    }
    proof {
        lemma_owner_skip(contacts@, phone@, n as int);
        assert(contacts@.skip(n as int).len() == 0);
    }
    None
}

/// Finds the contact name a raw row belongs to.
fn target_name(
    contacts: &Vec<Contact>,
    handles: &Vec<HandleRow>,
    row: &MessageRow,
    policy: ServicePolicy,
) -> (r: Option<String>)
    ensures
        opt_str_view(r) == target_of(contacts@, handles@, *row, policy),
{
    let type_ok = match row.msg_type {
        Some(t) => t == 0,
        None => false,
    };
    if !(type_ok && row.date.is_some() && row.handle_id.is_some()) {
        return None;
    }
    let hid = match row.handle_id {
        Some(h) => h,
        None => vstd::pervasive::unreached(),
    };
    match find_handle(handles, hid, policy) {
        None => None,
        Some(phone) => find_owner(contacts, &phone),
    }
}

/// Builds the extracted message of an eligible raw row.
fn message_of_row(row: &MessageRow) -> (m: Message)
    requires
        row_eligible(*row),
    ensures
        msg_view(m) == row_view(*row),
{
    let date = match row.date {
        Some(d) => d,
        None => vstd::pervasive::unreached(),
    };
    Message {
        content: clone_opt(&row.text),
        is_from_me: match row.is_from_me {
            Some(b) => b,
            None => false,
        },
        timestamp: crate::timecode::msg_timestamp(date),
    }
}

/// Collects, in row order, the messages of the rows belonging to `name`.
pub fn collect_for(
    contacts: &Vec<Contact>,
    handles: &Vec<HandleRow>,
    rows: &Vec<MessageRow>,
    policy: ServicePolicy,
    name: &String,
) -> (r: Vec<Message>)
    ensures
        msg_views(r@) == row_views(matching_rows(contacts@, handles@, rows@, policy, name@)),
{
    let mut out: Vec<Message> = Vec::new();
    let n = rows.len();
    let mut i: usize = 0;
    while i < n
        invariant
            0 <= i <= n,
            n == rows@.len(),
            msg_views(out@) == row_views(
                matching_rows(contacts@, handles@, rows@.take(i as int), policy, name@),
            ),
        decreases n - i,
    {
        let row = &rows[i];
        let is_match = match target_name(contacts, handles, row, policy) {
            Some(t) => t.eq(name),
            None => false,
        };
        proof {
            assert(rows@.take(i as int + 1).drop_last() =~= rows@.take(i as int));
            assert(rows@.take(i as int + 1).last() == rows@[i as int]);
        }
        if is_match {
            proof {
                assert(target_of(contacts@, handles@, rows@[i as int], policy) == Some(name@));
            }
            let m = message_of_row(row);
            let ghost out0 = out@;
            out.push(m);
            proof {
                let prev = matching_rows(contacts@, handles@, rows@.take(i as int), policy, name@);
                assert(matching_rows(contacts@, handles@, rows@.take(i as int + 1), policy, name@)
                    == prev + seq![rows@[i as int]]);
                assert(row_views(prev + seq![rows@[i as int]]) =~~= row_views(prev).push(
                    row_view(rows@[i as int]),
                ));
                assert(msg_views(out@) =~~= msg_views(out0).push(msg_view(m)));
                assert(msg_views(out@) =~~= row_views(
                    matching_rows(contacts@, handles@, rows@.take(i as int + 1), policy, name@),
                ));
            }
        } else {
            proof {
                assert(matching_rows(contacts@, handles@, rows@.take(i as int + 1), policy, name@)
                    =~= matching_rows(contacts@, handles@, rows@.take(i as int), policy, name@));
            }
        }
        i += 1;
    }
    proof {
        assert(rows@.take(n as int) =~= rows@);
    }
    out
}

/// Whether a run of messages is in ascending timestamp order.
pub open spec fn sorted_by_ts(s: Seq<Message>) -> bool {
    forall|a: int, b: int| 0 <= a < b < s.len() ==> s[a].timestamp <= s[b].timestamp
}

/// The run with `v` inserted after every element whose timestamp does not
/// exceed it: equal timestamps keep their original order.
pub open spec fn insert_by_ts(v: MsgView, s: Seq<MsgView>) -> Seq<MsgView>
    decreases s.len(),
{
    if s.len() > 0 && s.last().timestamp > v.timestamp {
        insert_by_ts(v, s.drop_last()).push(s.last())
    } else {
        s.push(v)
    }
}

/// The run sorted by timestamp, stably: messages with equal timestamps keep
/// their original relative order.
pub open spec fn stable_sort_spec(s: Seq<MsgView>) -> Seq<MsgView>
    decreases s.len(),
{
    if s.len() == 0 {
        Seq::empty()
    } else {
        insert_by_ts(s.last(), stable_sort_spec(s.drop_last()))
    }
}

proof fn lemma_insert_at(v: MsgView, s: Seq<MsgView>, p: int)
    requires
        0 <= p <= s.len(),
        forall|j: int| p <= j < s.len() ==> (#[trigger] s[j]).timestamp > v.timestamp,
        p > 0 ==> s[p - 1].timestamp <= v.timestamp,
    ensures
        insert_by_ts(v, s) == s.subrange(0, p) + seq![v] + s.subrange(p, s.len() as int),
    decreases s.len() - p,
{
    if p == s.len() {
        assert(insert_by_ts(v, s) == s.push(v));
        assert(s.push(v) =~= s.subrange(0, p) + seq![v] + s.subrange(p, s.len() as int));
    } else {
        assert(s[s.len() - 1].timestamp > v.timestamp);
        assert(forall|j: int|
            p <= j < s.len() - 1 ==> (#[trigger] s.drop_last()[j]).timestamp > v.timestamp);
        lemma_insert_at(v, s.drop_last(), p);
        assert(insert_by_ts(v, s) == insert_by_ts(v, s.drop_last()).push(s.last()));
        assert(s.drop_last().subrange(0, p) =~= s.subrange(0, p));
        assert((s.drop_last().subrange(0, p) + seq![v] + s.drop_last().subrange(
            p,
            s.len() - 1,
        )).push(s.last()) =~= s.subrange(0, p) + seq![v] + s.subrange(p, s.len() as int));
    }
}

/// Sorts messages by timestamp, stably: the result is exactly the stable
/// sort of the input, so it is a permutation in ascending order in which
/// messages with equal timestamps keep their original order.
pub fn sort_messages(input: Vec<Message>) -> (r: Vec<Message>)
    ensures
        msg_views(r@) == stable_sort_spec(msg_views(input@)),
        sorted_by_ts(r@),
        r@.len() == input@.len(),
{
    let mut src = input;
    let mut out: Vec<Message> = Vec::new();
    while src.len() > 0
        invariant
            out@.len() + src@.len() == input@.len(),
            src@ == input@.skip(out@.len() as int),
            msg_views(out@) == stable_sort_spec(msg_views(input@.take(out@.len() as int))),
            sorted_by_ts(out@),
        decreases src@.len(),
    {
        let ghost src0 = src@;
        let ghost out0 = out@;
        let ghost processed = out@.len() as int;
        let m = src.remove(0);
        proof {
            assert(src0[0] == input@[processed]);
            assert(src@ =~= input@.skip(processed + 1));
        }
        let mut j: usize = out.len();
        while j > 0 && out[j - 1].timestamp > m.timestamp
            invariant
                0 <= j <= out@.len(),
                forall|idx: int|
                    j <= idx < out@.len() ==> (#[trigger] out@[idx]).timestamp > m.timestamp,
            decreases j,
        {
            j -= 1;
        }
        let ghost mv = msg_view(m);
        let ghost p = j as int;
        out.insert(j, m);
        proof {
            lemma_insert_at(mv, msg_views(out0), p);
            assert(msg_views(out@) =~= msg_views(out0).subrange(0, p) + seq![mv] + msg_views(
                out0,
            ).subrange(p, out0.len() as int));
            assert(msg_views(input@.take(processed + 1)).drop_last() =~= msg_views(
                input@.take(processed),
            ));
            assert(msg_views(input@.take(processed + 1)).last() == mv);
            assert(stable_sort_spec(msg_views(input@.take(processed + 1))) == insert_by_ts(
                mv,
                stable_sort_spec(msg_views(input@.take(processed))),
            ));
            assert forall|a: int, b: int|
                0 <= a < b < out@.len() implies out@[a].timestamp <= out@[b].timestamp by {
                if b < p {
                    assert(out@[a] == out0[a] && out@[b] == out0[b]);
                } else if b == p {
                    assert(out@[a] == out0[a]);
                    assert(out@[b] == m);
                    assert(out0[p - 1].timestamp <= m.timestamp);
                    assert(out0[a].timestamp <= out0[p - 1].timestamp);
                } else if a < p {
                    assert(out@[a] == out0[a] && out@[b] == out0[b - 1]);
                } else if a == p {
                    assert(out@[a] == m && out@[b] == out0[b - 1]);
                    assert(out0[b - 1].timestamp > m.timestamp);
                } else {
                    assert(out@[a] == out0[a - 1] && out@[b] == out0[b - 1]);
                }
            }
        }
    }
    proof {
        assert(input@.take(out@.len() as int) =~= input@);
    }
    out
}

/// The distinct contact names of the directory, in first-appearance order.
pub open spec fn distinct_names(contacts: Seq<Contact>) -> Seq<Seq<char>>
    decreases contacts.len(),
{
    if contacts.len() == 0 {
        Seq::empty()
    } else {
        let prev = distinct_names(contacts.drop_last());
        if prev.contains(contacts.last().name@) {
            prev
        } else {
            prev.push(contacts.last().name@)
        }
    }
}

/// The abstract values of a run of names.
pub open spec fn name_views(names: Seq<String>) -> Seq<Seq<char>> {
    names.map_values(|s: String| s@)
}

/// The distinct names carry no duplicates: each name owns one group.
pub proof fn lemma_distinct_names_unique(contacts: Seq<Contact>)
    ensures
        forall|a: int, b: int|
            #![trigger distinct_names(contacts)[a], distinct_names(contacts)[b]]
            0 <= a < b < distinct_names(contacts).len() ==> distinct_names(contacts)[a]
                != distinct_names(contacts)[b],
    decreases contacts.len(),
{
    if contacts.len() > 0 {
        lemma_distinct_names_unique(contacts.drop_last());
        let prev = distinct_names(contacts.drop_last());
        let whole = distinct_names(contacts);
        if !prev.contains(contacts.last().name@) {
            assert forall|a: int, b: int|
                #![trigger whole[a], whole[b]]
                0 <= a < b < whole.len() implies whole[a] != whole[b] by {
                if b < prev.len() {
                    assert(whole[a] == prev[a] && whole[b] == prev[b]);
                } else {
                    assert(whole[b] == contacts.last().name@);
                    assert(whole[a] == prev[a]);
                    if prev[a] == contacts.last().name@ {
                        assert(prev.contains(contacts.last().name@));
                    }
                }
            }
        }
    }
}

proof fn lemma_taken_iff(names: Seq<String>, x: Seq<char>)
    ensures
        taken(names, x) <==> name_views(names).contains(x),
{
    if taken(names, x) {
        let i = choose|i: int| 0 <= i < names.len() && names[i]@ == x;
        assert(name_views(names)[i] == x);
        assert(name_views(names).contains(x));
    }
    if name_views(names).contains(x) {
        let i = choose|i: int| 0 <= i < name_views(names).len() && name_views(names)[i] == x;
        assert(names[i]@ == x);
    }
}

/// Extracts and groups every conversation: one group per distinct contact
/// name, in first-appearance order, each holding exactly the messages of the
/// rows that join to that name, stably sorted by timestamp: equal timestamps
/// keep query row order.
pub fn group_messages(
    contacts: &Vec<Contact>,
    handles: &Vec<HandleRow>,
    rows: &Vec<MessageRow>,
    policy: ServicePolicy,
) -> (r: Vec<ConversationGroup>)
    ensures
        r@.len() == distinct_names(contacts@).len(),
        forall|k: int|
            0 <= k < r@.len() ==> (#[trigger] r@[k]).name@ == distinct_names(contacts@)[k],
        forall|k: int, l: int|
            #![trigger r@[k], r@[l]]
            0 <= k < l < r@.len() ==> r@[k].name@ != r@[l].name@,
        forall|k: int| 0 <= k < r@.len() ==> sorted_by_ts((#[trigger] r@[k]).messages@),
        forall|k: int|
            0 <= k < r@.len() ==> msg_views((#[trigger] r@[k]).messages@) == stable_sort_spec(
                row_views(
                    matching_rows(
                        contacts@,
                        handles@,
                        rows@,
                        policy,
                        distinct_names(contacts@)[k],
                    ),
                ),
            ),
{
    let mut names: Vec<String> = Vec::new();
    let cn = contacts.len();
    let mut i: usize = 0;
    while i < cn
        invariant
            0 <= i <= cn,
            cn == contacts@.len(),
            name_views(names@) == distinct_names(contacts@.take(i as int)),
        decreases cn - i,
    {
        let c = &contacts[i];
        proof {
            assert(contacts@.take(i as int + 1).drop_last() =~= contacts@.take(i as int));
            assert(contacts@.take(i as int + 1).last() == contacts@[i as int]);
            lemma_taken_iff(names@, contacts@[i as int].name@);
        }
        if !contains_name(&names, &c.name) {
            names.push(c.name.clone());
            proof {
                assert(name_views(names@) =~~= distinct_names(contacts@.take(i as int + 1)));
            }
        }
        i += 1;
    }
    proof {
        assert(contacts@.take(cn as int) =~= contacts@);
    }
    let mut groups: Vec<ConversationGroup> = Vec::new();
    let gn = names.len();
    let mut g: usize = 0;
    while g < gn
        invariant
            0 <= g <= gn,
            gn == names@.len(),
            name_views(names@) == distinct_names(contacts@),
            groups@.len() == g,
            forall|k: int|
                0 <= k < g ==> (#[trigger] groups@[k]).name@ == distinct_names(contacts@)[k],
            forall|k: int| 0 <= k < g ==> sorted_by_ts((#[trigger] groups@[k]).messages@),
            forall|k: int|
                0 <= k < g ==> msg_views((#[trigger] groups@[k]).messages@) == stable_sort_spec(
                    row_views(
                        matching_rows(
                            contacts@,
                            handles@,
                            rows@,
                            policy,
                            distinct_names(contacts@)[k],
                        ),
                    ),
                ),
        decreases gn - g,
    {
        let collected = collect_for(contacts, handles, rows, policy, &names[g]);
        let sorted = sort_messages(collected);
        groups.push(ConversationGroup { name: names[g].clone(), messages: sorted });
        proof {
            assert(name_views(names@)[g as int] == names@[g as int]@);
        }
        g += 1;
    }
    proof {
        lemma_distinct_names_unique(contacts@);
    }
    groups
}

/// A session-break header line: the formatted absolute timestamp, set off by
/// blank lines.
pub open spec fn header_line_spec(stamp: Seq<char>) -> Seq<char> {
    "\n      | "@ + stamp + " |\n\n"@
}

/// The sender token of a line: the literal `me`, or the contact's name.
pub open spec fn sender_spec(name: Seq<char>, from_me: bool) -> Seq<char> {
    if from_me {
        "me"@
    } else {
        name
    }
}

/// One message line: the bracketed sender, then the text, or a placeholder
/// when the message has none.
pub open spec fn message_line_spec(name: Seq<char>, m: Message) -> Seq<char> {
    "["@ + sender_spec(name, m.is_from_me) + "]: "@ + (match m.content {
        Some(t) => t@,
        None => "<unknown>"@,
    }) + "\n"@
}

/// Whether a header is owed before message `i`: it is the first message, or
/// more than two hours passed since the previous one.
pub open spec fn needs_header(msgs: Seq<Message>, i: int) -> bool {
    i == 0 || msgs[i].timestamp - msgs[i - 1].timestamp > 7200
}

/// The lines message `i` contributes: its header, when one is owed, then its
/// message line.
pub open spec fn block_spec(name: Seq<char>, msgs: Seq<Message>, stamps: Seq<Seq<char>>, i: int) -> Seq<char> {
    (if needs_header(msgs, i) {
        header_line_spec(stamps[i])
    } else {
        Seq::empty()
    }) + message_line_spec(name, msgs[i])
}

/// The transcript of the first `n` messages.
pub open spec fn transcript_spec(
    name: Seq<char>,
    msgs: Seq<Message>,
    stamps: Seq<Seq<char>>,
    n: int,
) -> Seq<char>
    decreases n,
{
    if n <= 0 {
        Seq::empty()
    } else {
        transcript_spec(name, msgs, stamps, n - 1) + block_spec(name, msgs, stamps, n - 1)
    }
}

/// A session-break header stands in a message's block exactly when the
/// message is the group's first or follows a gap of more than two hours;
/// otherwise the block is the message line alone.
pub proof fn lemma_session_break(
    name: Seq<char>,
    msgs: Seq<Message>,
    stamps: Seq<Seq<char>>,
    i: int,
)
    requires
        0 <= i < msgs.len(),
    ensures
        block_spec(name, msgs, stamps, i) == if i == 0 || msgs[i].timestamp - msgs[i
            - 1].timestamp > 7200 {
            header_line_spec(stamps[i]) + message_line_spec(name, msgs[i])
        } else {
            message_line_spec(name, msgs[i])
        },
{
    if !needs_header(msgs, i) {
        assert(Seq::<char>::empty() + message_line_spec(name, msgs[i]) =~= message_line_spec(
            name,
            msgs[i],
        ));
    }
}

/// Renders a group's transcript from its messages and their formatted
/// timestamps. An empty group renders to nothing at all.
/// Builds one session-break header line.
fn header_line(stamp: &str) -> (r: String)
    ensures
        r@ == header_line_spec(stamp@),
{
    let mut r = String::from_str("\n      | ");
    r.append(stamp);
    r.append(" |\n\n");
    proof {
        assert(r@ =~= header_line_spec(stamp@));
    }
    r
}

/// Builds one message line.
fn message_line(name: &str, m: &Message) -> (r: String)
    ensures
        r@ == message_line_spec(name@, *m),
{
    let mut r = String::from_str("[");
    if m.is_from_me {
        r.append("me");
    } else {
        r.append(name);
    }
    r.append("]: ");
    match &m.content {
        Some(t) => r.append(t.as_str()),
        None => r.append("<unknown>"),
    }
    r.append("\n");
    proof {
        assert(r@ =~= message_line_spec(name@, *m));
    }
    r
}

pub fn render_transcript(name: &str, msgs: &Vec<Message>, stamps: &Vec<String>) -> (r: Option<
    String,
>)
    requires
        msgs@.len() == stamps@.len(),
    ensures
        r is Some <==> msgs@.len() > 0,
        r matches Some(s) ==> s@ == transcript_spec(
            name@,
            msgs@,
            name_views(stamps@),
            msgs@.len() as int,
        ),
{
    if msgs.len() == 0 {
        return None;
    }
    let mut s = String::new();
    let n = msgs.len();
    let mut i: usize = 0;
    while i < n
        invariant
            0 <= i <= n,
            n == msgs@.len(),
            n == stamps@.len(),
            s@ == transcript_spec(name@, msgs@, name_views(stamps@), i as int),
        decreases n - i,
    {
        let ghost s0 = s@;
        let m = &msgs[i];
        let header = if i == 0 {
            true
        } else {
            (m.timestamp as i128) - (msgs[i - 1].timestamp as i128) > 7200
        };
        proof {
            assert(header == needs_header(msgs@, i as int));
        }
        if header {
            let h = header_line(stamps[i].as_str());
            s.append(h.as_str());
            proof {
                assert(name_views(stamps@)[i as int] == stamps@[i as int]@);
            }
        }
        let line = message_line(name, m);
        s.append(line.as_str());
        proof {
            if needs_header(msgs@, i as int) {
                assert(s@ =~= s0 + block_spec(name@, msgs@, name_views(stamps@), i as int));
            } else {
                assert(block_spec(name@, msgs@, name_views(stamps@), i as int)
                    =~= message_line_spec(name@, msgs@[i as int]));
                assert(s@ =~= s0 + block_spec(name@, msgs@, name_views(stamps@), i as int));
            }
        }
        i += 1;
    }
    Some(s)
}

/// Formats each message's timestamp for its possible session header. Fails
/// only on a timestamp outside the formattable range; every timestamp within
/// eight trillion seconds of the UNIX epoch succeeds.
pub fn stamps_for(msgs: &Vec<Message>) -> (r: Result<Vec<String>, Error>)
    ensures
        r matches Ok(v) ==> v@.len() == msgs@.len(),
        (forall|k: int|
            0 <= k < msgs@.len() ==> -8000000000000 <= (#[trigger] msgs@[k]).timestamp
                <= 8000000000000) ==> r is Ok,
        r matches Err(e) ==> e matches Error::Decode(_),
{
    let mut out: Vec<String> = Vec::new();
    let n = msgs.len();
    let mut i: usize = 0;
    while i < n
        invariant
            0 <= i <= n,
            n == msgs@.len(),
            out@.len() == i,
        decreases n - i,
    {
        match format_timestamp_local(msgs[i].timestamp) {
            Some(t) => out.push(t),
            None => {
                return Err(Error::Decode(msgs[i].timestamp));
            },
        }
        i += 1;
    }
    Ok(out)
}

/// Renders one conversation: nothing for an empty group, else the full
/// transcript with session-break headers.
pub fn render_conversation(name: &str, msgs: &Vec<Message>) -> (r: Result<Option<String>, Error>)
    ensures
        r matches Ok(o) ==> (o is Some <==> msgs@.len() > 0),
        r matches Ok(o) ==> (o matches Some(s) ==> exists|stamps: Seq<Seq<char>>|
            stamps.len() == msgs@.len() && s@ == transcript_spec(
                name@,
                msgs@,
                stamps,
                msgs@.len() as int,
            )),
        (forall|k: int|
            0 <= k < msgs@.len() ==> -8000000000000 <= (#[trigger] msgs@[k]).timestamp
                <= 8000000000000) ==> r is Ok,
        r matches Err(e) ==> e matches Error::Decode(_),
{
    let stamps = match stamps_for(msgs) {
        Ok(v) => v,
        Err(e) => return Err(e),
    };
    let o = render_transcript(name, msgs, &stamps);
    proof {
        if o is Some {
            assert(name_views(stamps@).len() == msgs@.len());
        }
    }
    Ok(o)
}

/// The positions of the groups that hold at least one message.
pub open spec fn nonempty_indices(groups: Seq<ConversationGroup>) -> Seq<int>
    decreases groups.len(),
{
    if groups.len() == 0 {
        Seq::empty()
    } else {
        nonempty_indices(groups.drop_last()) + (if groups.last().messages@.len() > 0 {
            seq![groups.len() - 1]
        } else {
            Seq::empty()
        })
    }
}

/// The stem of an output file: its name with the fixed extension dropped.
pub open spec fn stem_of(f: (String, String)) -> Seq<char> {
    f.0@.subrange(0, f.0@.len() - 4)
}

/// The stems of a run of output files.
pub open spec fn stems_of(files: Seq<(String, String)>) -> Seq<Seq<char>> {
    files.map_values(|f: (String, String)| stem_of(f))
}

/// Whether an output file carries a group's sanitized name under the
/// smallest numeric suffix free among the earlier files' stems, and the
/// group's rendered transcript.
pub open spec fn file_matches(
    f: (String, String),
    g: ConversationGroup,
    prior: Seq<Seq<char>>,
) -> bool {
    exists|k: nat, stamps: Seq<Seq<char>>|
        f.0@ == suffixed(sanitize_spec(g.name@), k) + ".txt"@ && !prior.contains(
            suffixed(sanitize_spec(g.name@), k),
        ) && (forall|m: nat|
            m < k ==> prior.contains(#[trigger] suffixed(sanitize_spec(g.name@), m)))
            && stamps.len() == g.messages@.len() && f.1@ == transcript_spec(
            g.name@,
            g.messages@,
            stamps,
            g.messages@.len() as int,
        )
}

proof fn lemma_txt_cancel(a: Seq<char>, b: Seq<char>)
    requires
        a + ".txt"@ == b + ".txt"@,
    ensures
        a == b,
{
    assert((a + ".txt"@).len() == (b + ".txt"@).len());
    assert((a + ".txt"@).len() == a.len() + ".txt"@.len());
    assert((b + ".txt"@).len() == b.len() + ".txt"@.len());
    assert(a.len() == b.len());
    assert forall|i: int| 0 <= i < a.len() implies a[i] == b[i] by {
        assert(a[i] == (a + ".txt"@)[i]);
        assert(b[i] == (b + ".txt"@)[i]);
    }
    assert(a =~= b);
}

proof fn lemma_stems_match(files: Seq<(String, String)>, used: Seq<String>)
    requires
        files.len() == used.len(),
        forall|y: int| 0 <= y < files.len() ==> (#[trigger] files[y]).0@ == used[y]@ + ".txt"@,
    ensures
        stems_of(files) == name_views(used),
{
    reveal_strlit(".txt");
    assert forall|y: int| 0 <= y < files.len() implies #[trigger] stems_of(files)[y]
        == name_views(used)[y] by {
        assert(files[y].0@ == used[y]@ + ".txt"@);
        assert(files[y].0@.len() == used[y]@.len() + 4);
        assert(stem_of(files[y]) =~= used[y]@);
    }
    assert(stems_of(files) =~= name_views(used));
}

/// Renders every conversation to an output file name and its contents: one
/// file per group with messages, none for an empty group; each file takes
/// its group's sanitized name with the smallest suffix free among the
/// earlier files' stems, so every file name is distinct.
pub fn render_all(groups: &Vec<ConversationGroup>) -> (r: Result<Vec<(String, String)>, Error>)
    ensures
        r matches Ok(files) ==> files@.len() == nonempty_indices(groups@).len(),
        r matches Ok(files) ==> forall|a: int, b: int|
            0 <= a < b < files@.len() ==> (#[trigger] files@[a]).0@ != (#[trigger] files@[b]).0@,
        r matches Ok(files) ==> forall|x: int|
            0 <= x < files@.len() ==> 0 <= nonempty_indices(groups@)[x] < groups@.len()
                && file_matches(
                #[trigger] files@[x],
                groups@[nonempty_indices(groups@)[x]],
                stems_of(files@.take(x)),
            ),
        r matches Err(e) ==> e matches Error::Decode(_),
{
    let mut used: Vec<String> = Vec::new();
    let mut out: Vec<(String, String)> = Vec::new();
    let n = groups.len();
    let mut i: usize = 0;
    while i < n
        invariant
            0 <= i <= n,
            n == groups@.len(),
            used@.len() == out@.len(),
            out@.len() == nonempty_indices(groups@.take(i as int)).len(),
            forall|x: int|
                0 <= x < out@.len() ==> (#[trigger] out@[x]).0@ == used@[x]@ + ".txt"@,
            forall|a: int, b: int|
                #![trigger used@[a], used@[b]]
                0 <= a < b < used@.len() ==> used@[a]@ != used@[b]@,
            forall|x: int|
                0 <= x < out@.len() ==> 0 <= nonempty_indices(groups@.take(i as int))[x] < i
                    && file_matches(
                    #[trigger] out@[x],
                    groups@[nonempty_indices(groups@.take(i as int))[x]],
                    name_views(used@.take(x)),
                ),
        decreases n - i,
    {
        let g = &groups[i];
        proof {
            assert(groups@.take(i as int + 1).drop_last() =~= groups@.take(i as int));
            assert(groups@.take(i as int + 1).last() == groups@[i as int]);
        }
        if g.messages.len() > 0 {
            let base = sanitize_name(g.name.as_str());
            let stem = unique_name(&used, base.as_str());
            let content_opt = match render_conversation(g.name.as_str(), &g.messages) {
                Ok(o) => o,
                Err(e) => return Err(e),
            };
            let content = match content_opt {
                Some(c) => c,
                None => vstd::pervasive::unreached(),
            };
            let mut fname = stem.clone();
            fname.append(".txt");
            let ghost stemv = stem@;
            let ghost basev = base@;
            let ghost used0 = used@;
            let ghost out0 = out@;
            used.push(stem);
            out.push((fname, content));
            proof {
                assert(nonempty_indices(groups@.take(i as int + 1)) =~= nonempty_indices(
                    groups@.take(i as int),
                ) + seq![i as int]);
                assert(forall|a: int, b: int|
                    #![trigger used@[a], used@[b]]
                    0 <= a < b < used@.len() ==> used@[a]@ != used@[b]@) by {
                    assert(forall|a: int|
                        0 <= a < used0.len() ==> !((#[trigger] used0[a])@ == used@[used0.len() as int]@));
                }
                let k = choose|k: nat|
                    stemv == suffixed(basev, k) && forall|m: nat|
                        m < k ==> taken(used0, #[trigger] suffixed(basev, m));
                lemma_taken_iff(used0, suffixed(basev, k));
                assert(!name_views(used0).contains(suffixed(basev, k)));
                assert forall|m: nat| m < k implies name_views(used0).contains(
                    #[trigger] suffixed(basev, m),
                ) by {
                    lemma_taken_iff(used0, suffixed(basev, m));
                }
                assert(used@.take(out0.len() as int) =~= used0);
                assert(file_matches(
                    out@[out0.len() as int],
                    groups@[i as int],
                    name_views(used@.take(out0.len() as int)),
                ));
                assert(nonempty_indices(groups@.take(i as int + 1))[out0.len() as int]
                    == i as int);
                assert(forall|x: int|
                    0 <= x < out0.len() ==> #[trigger] out@[x] == out0[x]);
                assert(nonempty_indices(groups@.take(i as int + 1)).len() == out@.len());
                assert forall|x: int| 0 <= x < out@.len() implies 0 <= #[trigger] nonempty_indices(
                    groups@.take(i as int + 1),
                )[x] < i + 1 && file_matches(
                    out@[x],
                    groups@[nonempty_indices(groups@.take(i as int + 1))[x]],
                    name_views(used@.take(x)),
                ) by {
                    if x < out0.len() {
                        assert(out@[x] == out0[x]);
                        assert(used@.take(x) =~= used0.take(x));
                        assert(nonempty_indices(groups@.take(i as int + 1))[x]
                            == nonempty_indices(groups@.take(i as int))[x]);
                        assert(file_matches(
                            out0[x],
                            groups@[nonempty_indices(groups@.take(i as int))[x]],
                            name_views(used0.take(x)),
                        ));
                    } else {
                        assert(x == out0.len());
                        assert(nonempty_indices(groups@.take(i as int + 1))[x] == i as int);
                    }
                }
            }
        } else {
            proof {
                assert(nonempty_indices(groups@.take(i as int + 1)) =~= nonempty_indices(
                    groups@.take(i as int),
                ));
                assert forall|x: int| 0 <= x < out@.len() implies 0 <= #[trigger] nonempty_indices(
                    groups@.take(i as int + 1),
                )[x] < i + 1 && file_matches(
                    out@[x],
                    groups@[nonempty_indices(groups@.take(i as int + 1))[x]],
                    name_views(used@.take(x)),
                ) by {
                    assert(nonempty_indices(groups@.take(i as int + 1))[x] == nonempty_indices(
                        groups@.take(i as int),
                    )[x]);
                    assert(file_matches(
                        out@[x],
                        groups@[nonempty_indices(groups@.take(i as int))[x]],
                        name_views(used@.take(x)),
                    ));
                }
            }
        }
        i += 1;
    }
    proof {
        assert(groups@.take(n as int) =~= groups@);
        assert forall|x: int| 0 <= x < out@.len() implies 0 <= #[trigger] nonempty_indices(
            groups@,
        )[x] < groups@.len() && file_matches(
            out@[x],
            groups@[nonempty_indices(groups@)[x]],
            stems_of(out@.take(x)),
        ) by {
            assert(i == n);
            let o = out@[x];
            assert(0 <= nonempty_indices(groups@.take(i as int))[x] < i);
            assert(file_matches(
                out@[x],
                groups@[nonempty_indices(groups@.take(i as int))[x]],
                name_views(used@.take(x)),
            ));
            assert(out@.take(x).len() == used@.take(x).len());
            assert(forall|y: int|
                0 <= y < x ==> (#[trigger] out@.take(x)[y]).0@ == used@.take(x)[y]@ + ".txt"@);
            lemma_stems_match(out@.take(x), used@.take(x));
            assert(nonempty_indices(groups@)[x] == nonempty_indices(groups@.take(i as int))[x]);
        }
        assert(forall|a: int, b: int|
            0 <= a < b < out@.len() ==> (#[trigger] out@[a]).0@ != (#[trigger] out@[b]).0@) by {
            assert forall|a: int, b: int|
                0 <= a < b < out@.len() implies (#[trigger] out@[a]).0@ != (
            #[trigger] out@[b]).0@ by {
                if out@[a].0@ == out@[b].0@ {
                    lemma_txt_cancel(used@[a]@, used@[b]@);
                }
            }
        }
    }
    Ok(out)
}

/// Extracts and groups every conversation from the backup: resolves the
/// message store and the address book, joins messages to contacts by
/// normalized phone number, and orders each group chronologically, stably:
/// equal timestamps keep query row order.
pub fn fetch(manifest: &Manifest, policy: ServicePolicy) -> (r: Result<
    Vec<ConversationGroup>,
    Error,
>)
    ensures
        r matches Ok(gs) ==> forall|k: int|
            0 <= k < gs@.len() ==> sorted_by_ts((#[trigger] gs@[k]).messages@),
        r matches Ok(gs) ==> forall|k: int, l: int|
            #![trigger gs@[k], gs@[l]]
            0 <= k < l < gs@.len() ==> gs@[k].name@ != gs@[l].name@,
        r matches Err(e) ==> e matches Error::Sql(_) || e matches Error::NotFound(_),
{
    let msgs_path = match manifest.get_path("Library/SMS/sms.db") {
        Ok(p) => p,
        Err(e) => return Err(e),
    };
    let contacts_path = match manifest.get_path("Library/AddressBook/AddressBook.sqlitedb") {
        Ok(p) => p,
        Err(e) => return Err(e),
    };
    let msg_conn = match open_database(msgs_path.as_str()) {
        Ok(c) => c,
        Err(e) => return Err(Error::Sql(e)),
    };
    let rows = match fetch_message_rows(&msg_conn) {
        Ok(v) => v,
        Err(e) => return Err(Error::Sql(e)),
    };
    let handles = match fetch_handle_rows(&msg_conn) {
        Ok(v) => v,
        Err(e) => return Err(Error::Sql(e)),
    };
    let ab_conn = match open_database(contacts_path.as_str()) {
        Ok(c) => c,
        Err(e) => return Err(Error::Sql(e)),
    };
    let persons = match fetch_person_rows(&ab_conn) {
        Ok(v) => v,
        Err(e) => return Err(Error::Sql(e)),
    };
    let mvs = match fetch_multi_value_rows(&ab_conn) {
        Ok(v) => v,
        Err(e) => return Err(Error::Sql(e)),
    };
    let pairs = crate::address_book::contact_pairs(&persons, &mvs);
    Ok(group_messages(&pairs, &handles, &rows, policy))
}

/// The whole message category: extracts, groups, and renders every
/// conversation to distinct output file names and contents. The caller only
/// writes the returned pairs to disk.
pub fn extract_texts(manifest: &Manifest, policy: ServicePolicy) -> (r: Result<
    Vec<(String, String)>,
    Error,
>)
    ensures
        r matches Ok(files) ==> forall|a: int, b: int|
            0 <= a < b < files@.len() ==> (#[trigger] files@[a]).0@ != (#[trigger] files@[b]).0@,
        r matches Err(e) ==> e matches Error::Sql(_) || e matches Error::NotFound(_)
            || e matches Error::Decode(_),
{
    let groups = match fetch(manifest, policy) {
        Ok(g) => g,
        Err(e) => return Err(e),
    };
    render_all(&groups)
}

} // verus!
