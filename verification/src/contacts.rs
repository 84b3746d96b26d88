//! The full contact directory: structured name and detail fields, normalized
//! phone number, decoded dates.
//!
//! Each well-formed person row (one with a first name) yields one contact.
//! Multi-valued attributes are joined by the first-match policy: the first
//! attribute row of the wanted property that stores a value. Dates decode
//! through the timestamp codec; a date outside the representable range is a
//! fatal decode error.
use vstd::prelude::*;

use crate::address_book::{
    find_first_value, mv_matches, ANNIVERSARY_PROPERTY, EMAIL_PROPERTY, PHONE_PROPERTY,
};
use crate::constants::TIMESTAMP_OFFSET;
use crate::db::{
    fetch_multi_value_rows, fetch_person_rows, open_database, MultiValueRow, PersonRow,
};
use crate::manifest::Manifest;
use crate::phone::{normalize_phone, normalize_spec};
use crate::text::{clone_opt, opt_str_view};
use crate::timecode::{
    decode, decode_spec, format_date_no_year_local, format_date_with_year_local,
};
use crate::Error;

verus! {

/// One extracted contact. Dates are decoded: a UNIX timestamp in seconds and
/// a year-known flag.
pub struct Contact {
    pub first_name: String,
    pub middle_name: Option<String>,
    pub last_name: Option<String>,
    pub nickname: Option<String>,
    pub prefix: Option<String>,
    pub suffix: Option<String>,
    pub phone_number: Option<String>,
    pub email: Option<String>,
    pub organization: Option<String>,
    pub department: Option<String>,
    pub job_title: Option<String>,
    pub birthday: Option<(i64, bool)>,
    pub anniversary: Option<(i64, bool)>,
    pub note: Option<String>,
}

/// The value of the first attribute row of property `prop` for person `rid`
/// that stores a text value.
pub open spec fn first_mv_value(mvs: Seq<MultiValueRow>, rid: int, prop: int) -> Option<Seq<char>>
    decreases mvs.len(),
{
    if mvs.len() == 0 {
        None
    } else if mv_matches(mvs[0], rid, prop) {
        Some(mvs[0].value.unwrap()@)
    } else {
        first_mv_value(mvs.drop_first(), rid, prop)
    }
}

/// Whether an attribute row carries an integer value of property `prop` for
/// person `rid`.
pub open spec fn mv_int_matches(m: MultiValueRow, rid: int, prop: int) -> bool {
    m.record_id == rid && m.property == prop && m.int_value is Some
}

/// The integer value of the first attribute row of property `prop` for
/// person `rid` that stores one.
pub open spec fn first_mv_int(mvs: Seq<MultiValueRow>, rid: int, prop: int) -> Option<int>
    decreases mvs.len(),
{
    if mvs.len() == 0 {
        None
    } else if mv_int_matches(mvs[0], rid, prop) {
        Some(mvs[0].int_value.unwrap() as int)
    } else {
        first_mv_int(mvs.drop_first(), rid, prop)
    }
}

proof fn lemma_first_mv_value_skip(mvs: Seq<MultiValueRow>, rid: int, prop: int, i: int)
    requires
        0 <= i <= mvs.len(),
        forall|j: int| 0 <= j < i ==> !mv_matches(#[trigger] mvs[j], rid, prop),
    ensures
        first_mv_value(mvs, rid, prop) == first_mv_value(mvs.skip(i), rid, prop),
    decreases i,
{
    if i == 0 {
        assert(mvs.skip(0) =~= mvs);
    } else {
        lemma_first_mv_value_skip(mvs, rid, prop, i - 1);
        assert(mvs.skip(i - 1).len() > 0);
        assert(mvs.skip(i - 1)[0] == mvs[i - 1]);
        assert(!mv_matches(mvs[i - 1], rid, prop));
        assert(mvs.skip(i - 1).drop_first() =~= mvs.skip(i));
        assert(first_mv_value(mvs.skip(i - 1), rid, prop) == first_mv_value(
            mvs.skip(i - 1).drop_first(),
            rid,
            prop,
        ));
    }
}

proof fn lemma_first_mv_int_skip(mvs: Seq<MultiValueRow>, rid: int, prop: int, i: int)
    requires
        0 <= i <= mvs.len(),
        forall|j: int| 0 <= j < i ==> !mv_int_matches(#[trigger] mvs[j], rid, prop),
    ensures
        first_mv_int(mvs, rid, prop) == first_mv_int(mvs.skip(i), rid, prop),
    decreases i,
{
    if i == 0 {
        assert(mvs.skip(0) =~= mvs);
    } else {
        lemma_first_mv_int_skip(mvs, rid, prop, i - 1);
        assert(mvs.skip(i - 1).len() > 0);
        assert(mvs.skip(i - 1)[0] == mvs[i - 1]);
        assert(!mv_int_matches(mvs[i - 1], rid, prop));
        assert(mvs.skip(i - 1).drop_first() =~= mvs.skip(i));
        assert(first_mv_int(mvs.skip(i - 1), rid, prop) == first_mv_int(
            mvs.skip(i - 1).drop_first(),
            rid,
            prop,
        ));
    }
}

/// Finds the integer value of the first attribute row of property `prop` for
/// person `rid` that stores one.
pub fn find_first_int(mvs: &Vec<MultiValueRow>, rid: i64, prop: i64) -> (r: Option<i64>)
    ensures
        match r {
            Some(v) => first_mv_int(mvs@, rid as int, prop as int) == Some(v as int),
            None => first_mv_int(mvs@, rid as int, prop as int) is None,
        },
{
    let n = mvs.len();
    let mut i: usize = 0;
    while i < n
        invariant
            0 <= i <= n,
            n == mvs@.len(),
            forall|j: int|
                0 <= j < i ==> !mv_int_matches(#[trigger] mvs@[j], rid as int, prop as int),
        decreases n - i,
    {
        let m = &mvs[i];
        if m.record_id == rid && m.property == prop {
            match m.int_value {
                Some(v) => {
                    proof {
                        lemma_first_mv_int_skip(mvs@, rid as int, prop as int, i as int);
                        assert(mvs@.skip(i as int)[0] == mvs@[i as int]);
                    }
                    return Some(v);
                },
                None => {},
            }
        }
        i += 1;
    }
    proof {
        lemma_first_mv_int_skip(mvs@, rid as int, prop as int, n as int);
        assert(mvs@.skip(n as int).len() == 0);
    }
    None
}

/// Finds the text value of the first attribute row of property `prop` for
/// person `rid` that stores one, stated over the first-match function.
fn find_value_of(mvs: &Vec<MultiValueRow>, rid: i64, prop: i64) -> (r: Option<String>)
    ensures
        opt_str_view(r) == first_mv_value(mvs@, rid as int, prop as int),
{
    let r = find_first_value(mvs, rid, prop);
    proof {
        match &r {
            Some(v) => {
                let i = choose|i: int|
                    0 <= i < mvs@.len() && #[trigger] mv_matches(mvs@[i], rid as int, prop as int)
                        && v@ == mvs@[i].value.unwrap()@ && forall|j: int|
                        0 <= j < i ==> !mv_matches(#[trigger] mvs@[j], rid as int, prop as int);
                lemma_first_mv_value_skip(mvs@, rid as int, prop as int, i);
                assert(mvs@.skip(i)[0] == mvs@[i]);
            },
            None => {
                lemma_first_mv_value_skip(mvs@, rid as int, prop as int, mvs@.len() as int);
                assert(mvs@.skip(mvs@.len() as int).len() == 0);
            },
        }
    }
    r
}

/// An optional raw date as the codec's mathematical input.
pub open spec fn opt_i64_int(o: Option<i64>) -> Option<int> {
    match o {
        Some(v) => Some(v as int),
        None => None,
    }
}

/// Whether a decoded date field is exactly the codec's output for an
/// optional raw value.
pub open spec fn decoded_date_matches(d: Option<(i64, bool)>, raw: Option<int>) -> bool {
    match raw {
        None => d is None,
        Some(v) => d matches Some(p) && p.0 == decode_spec(v).0 && p.1 == decode_spec(v).1,
    }
}

/// Whether an optional raw date survives the offset addition.
pub open spec fn raw_in_range(raw: Option<int>) -> bool {
    match raw {
        None => true,
        Some(v) => v + TIMESTAMP_OFFSET as int <= i64::MAX as int,
    }
}

/// Whether both raw dates of a person row are decodable.
pub open spec fn row_dates_ok(p: PersonRow, mvs: Seq<MultiValueRow>) -> bool {
    raw_in_range(opt_i64_int(p.birthday)) && raw_in_range(
        first_mv_int(mvs, p.row_id as int, ANNIVERSARY_PROPERTY as int),
    )
}

/// The exact relation between a produced contact and its source rows.
pub open spec fn contact_matches_row(c: Contact, p: PersonRow, mvs: Seq<MultiValueRow>) -> bool {
    let rid = p.row_id as int;
    &&& p.first is Some
    &&& c.first_name@ == p.first.unwrap()@
    &&& opt_str_view(c.middle_name) == opt_str_view(p.middle)
    &&& opt_str_view(c.last_name) == opt_str_view(p.last)
    &&& opt_str_view(c.nickname) == opt_str_view(p.nickname)
    &&& opt_str_view(c.prefix) == opt_str_view(p.prefix)
    &&& opt_str_view(c.suffix) == opt_str_view(p.suffix)
    &&& match first_mv_value(mvs, rid, PHONE_PROPERTY as int) {
        None => c.phone_number is None,
        Some(raw) => c.phone_number matches Some(s) && s@ == normalize_spec(raw),
    }
    &&& opt_str_view(c.email) == first_mv_value(mvs, rid, EMAIL_PROPERTY as int)
    &&& opt_str_view(c.organization) == opt_str_view(p.organization)
    &&& opt_str_view(c.department) == opt_str_view(p.department)
    &&& opt_str_view(c.job_title) == opt_str_view(p.job_title)
    &&& decoded_date_matches(c.birthday, opt_i64_int(p.birthday))
    &&& decoded_date_matches(
        c.anniversary,
        first_mv_int(mvs, rid, ANNIVERSARY_PROPERTY as int),
    )
    &&& opt_str_view(c.note) == opt_str_view(p.note)
}

/// Builds the contact of one well-formed person row.
pub fn contact_from_person(p: &PersonRow, mvs: &Vec<MultiValueRow>) -> (r: Result<Contact, Error>)
    requires
        p.first is Some,
    ensures
        r is Ok <==> row_dates_ok(*p, mvs@),
        r matches Ok(c) ==> contact_matches_row(c, *p, mvs@),
        r matches Err(e) ==> e matches Error::Decode(_),
{
    let phone_number = match find_value_of(mvs, p.row_id, PHONE_PROPERTY) {
        Some(v) => Some(normalize_phone(v.as_str())),
        None => None,
    };
    let email = find_value_of(mvs, p.row_id, EMAIL_PROPERTY);
    let birthday = match p.birthday {
        Some(b) => match decode(b) {
            Ok(d) => Some(d),
            Err(e) => return Err(e),
        },
        None => None,
    };
    let anniversary = match find_first_int(mvs, p.row_id, ANNIVERSARY_PROPERTY) {
        Some(v) => match decode(v) {
            Ok(d) => Some(d),
            Err(e) => return Err(e),
        },
        None => None,
    };
    let first_name = match &p.first {
        Some(f) => f.clone(),
        None => vstd::pervasive::unreached(),
    };
    Ok(
        Contact {
            first_name,
            middle_name: clone_opt(&p.middle),
            last_name: clone_opt(&p.last),
            nickname: clone_opt(&p.nickname),
            prefix: clone_opt(&p.prefix),
            suffix: clone_opt(&p.suffix),
            phone_number,
            email,
            organization: clone_opt(&p.organization),
            department: clone_opt(&p.department),
            job_title: clone_opt(&p.job_title),
            birthday,
            anniversary,
            note: clone_opt(&p.note),
        },
    )
}

/// The well-formed person rows, in table order.
pub open spec fn eligible(persons: Seq<PersonRow>) -> Seq<PersonRow> {
    persons.filter(|p: PersonRow| p.first is Some)
}

proof fn lemma_eligible_push(s: Seq<PersonRow>, p: PersonRow)
    ensures
        eligible(s.push(p)) == eligible(s) + (if p.first is Some {
            seq![p]
        } else {
            Seq::<PersonRow>::empty()
        }),
{
    reveal(Seq::filter);
    assert(s.push(p).drop_last() =~= s);
    assert(s.push(p).last() == p);
    if p.first is Some {
        assert(eligible(s.push(p)) =~= eligible(s) + seq![p]);
    } else {
        assert(eligible(s.push(p)) =~= eligible(s) + Seq::<PersonRow>::empty());
    }
}

proof fn lemma_eligible_add(a: Seq<PersonRow>, b: Seq<PersonRow>)
    ensures
        eligible(a + b) == eligible(a) + eligible(b),
    decreases b.len(),
{
    if b.len() == 0 {
        assert(a + b =~= a);
        reveal(Seq::filter);
        assert(eligible(b) =~= Seq::<PersonRow>::empty());
        assert(eligible(a + b) =~= eligible(a) + eligible(b));
    } else {
        lemma_eligible_add(a, b.drop_last());
        lemma_eligible_push(a + b.drop_last(), b.last());
        lemma_eligible_push(b.drop_last(), b.last());
        assert((a + b.drop_last()).push(b.last()) =~= a + b);
        assert(b.drop_last().push(b.last()) =~= b);
        assert(eligible(a + b) =~= eligible(a) + eligible(b));
    }
}

/// Builds one contact per well-formed person row, in table order. Fails with
/// the first undecodable date.
pub fn contacts_from_rows(persons: &Vec<PersonRow>, mvs: &Vec<MultiValueRow>) -> (r: Result<
    Vec<Contact>,
    Error,
>)
    ensures
        r is Ok <==> (forall|k: int|
            0 <= k < eligible(persons@).len() ==> row_dates_ok(
                #[trigger] eligible(persons@)[k],
                mvs@,
            )),
        r matches Ok(v) ==> v@.len() == eligible(persons@).len() && forall|k: int|
            0 <= k < v@.len() ==> contact_matches_row(
                #[trigger] v@[k],
                eligible(persons@)[k],
                mvs@,
            ),
        r matches Ok(v) ==> forall|k: int|
            0 <= k < v@.len() ==> ((#[trigger] v@[k]).phone_number matches Some(s)
                ==> exists|raw: Seq<char>| s@ == normalize_spec(raw)),
        r matches Err(e) ==> e matches Error::Decode(_),
{
    let mut out: Vec<Contact> = Vec::new();
    let n = persons.len();
    let mut i: usize = 0;
    while i < n
        invariant
            0 <= i <= n,
            n == persons@.len(),
            out@.len() == eligible(persons@.take(i as int)).len(),
            forall|k: int|
                0 <= k < out@.len() ==> contact_matches_row(
                    #[trigger] out@[k],
                    eligible(persons@.take(i as int))[k],
                    mvs@,
                ),
            forall|k: int|
                0 <= k < eligible(persons@.take(i as int)).len() ==> row_dates_ok(
                    #[trigger] eligible(persons@.take(i as int))[k],
                    mvs@,
                ),
        decreases n - i,
    {
        let p = &persons[i];
        proof {
            lemma_eligible_push(persons@.take(i as int), persons@[i as int]);
            assert(persons@.take(i as int).push(persons@[i as int]) =~= persons@.take(
                i as int + 1,
            ));
        }
        if p.first.is_some() {
            match contact_from_person(p, mvs) {
                Ok(c) => {
                    out.push(c);
                    proof {
                        assert(eligible(persons@.take(i as int + 1)) =~= eligible(
                            persons@.take(i as int),
                        ).push(persons@[i as int]));
                    }
                },
                Err(e) => {
                    proof {
                        let t = eligible(persons@.take(i as int)).len() as int;
                        lemma_eligible_add(
                            persons@.take(i as int + 1),
                            persons@.skip(i as int + 1),
                        );
                        assert(persons@.take(i as int + 1) + persons@.skip(i as int + 1)
                            =~= persons@);
                        assert(eligible(persons@)[t] == persons@[i as int]);
                        assert(!row_dates_ok(eligible(persons@)[t], mvs@));
                    }
                    return Err(e);
                },
            }
        } else {
            proof {
                assert(eligible(persons@.take(i as int + 1)) =~= eligible(
                    persons@.take(i as int),
                ));
            }
        }
        i += 1;
    }
    proof {
        assert(persons@.take(n as int) =~= persons@);
        assert forall|k: int|
            0 <= k < out@.len() implies ((#[trigger] out@[k]).phone_number matches Some(s)
                ==> exists|raw: Seq<char>| s@ == normalize_spec(raw)) by {
            assert(contact_matches_row(out@[k], eligible(persons@)[k], mvs@));
        }
    }
    Ok(out)
}

/// The rendered card of a contact, given the formatted texts of its dates.
/// The card opens with the bracketed name line and lists each stored detail
/// on a labelled line of its own.
pub open spec fn card_spec(c: Contact, bt: Option<Seq<char>>, at: Option<Seq<char>>) -> Seq<
    char,
> {
    let s = "["@;
    let s = match c.prefix {
        Some(p) => s + p@ + " "@,
        None => s,
    };
    let s = s + c.first_name@;
    let s = match c.middle_name {
        Some(m) => s + " "@ + m@,
        None => s,
    };
    let s = match c.last_name {
        Some(l) => s + " "@ + l@,
        None => s,
    };
    let s = match c.nickname {
        Some(nn) => s + " ("@ + nn@ + ")"@,
        None => s,
    };
    let s = s + "]:"@;
    let s = match c.phone_number {
        Some(p) => s + "\nPhone Number: "@ + p@,
        None => s,
    };
    let s = match c.email {
        Some(e) => s + "\nEmail: "@ + e@,
        None => s,
    };
    let s = match c.organization {
        Some(o) => s + "\nOrganization: "@ + o@,
        None => s,
    };
    let s = match c.department {
        Some(d) => s + "\nDepartment: "@ + d@,
        None => s,
    };
    let s = match c.job_title {
        Some(j) => s + "\nJob Title: "@ + j@,
        None => s,
    };
    let s = match bt {
        Some(b) => s + "\nBirthday: "@ + b,
        None => s,
    };
    let s = match at {
        Some(a) => s + "\nAnniversary: "@ + a,
        None => s,
    };
    let s = match c.note {
        Some(nt) => s + "\nNote: "@ + nt@,
        None => s,
    };
    s + "\n"@
}

/// Whether `card` is the rendered card of `c` for some formatted date texts
/// aligned with the dates `c` stores.
pub open spec fn card_of_contact(card: Seq<char>, c: Contact) -> bool {
    exists|bt: Option<Seq<char>>, at: Option<Seq<char>>|
        (bt is Some <==> c.birthday is Some) && (at is Some <==> c.anniversary is Some) && card
            == card_spec(c, bt, at)
}

impl Contact {
    /// Whether a stored date lies in the formattable range; every date does
    /// whose instant is within eight trillion seconds of the UNIX epoch.
    pub open spec fn date_formattable(d: Option<(i64, bool)>) -> bool {
        match d {
            None => true,
            Some(p) => -8000000000000 <= p.0 <= 8000000000000,
        }
    }

    /// Renders the contact's card. Fails only when a stored date lies outside
    /// the formattable range, which no decodable backup date does.
    pub fn to_string(&self) -> (r: Result<String, Error>)
        ensures
            r matches Ok(s) ==> card_of_contact(s@, *self),
            Self::date_formattable(self.birthday) && Self::date_formattable(self.anniversary)
                ==> r is Ok,
            r matches Err(e) ==> e matches Error::Decode(_),
    {
        let bt: Option<String> = match self.birthday {
            Some((secs, with_year)) => {
                let t = if with_year {
                    format_date_with_year_local(secs)
                } else {
                    format_date_no_year_local(secs)
                };
                match t {
                    Some(x) => Some(x),
                    None => return Err(Error::Decode(secs)),
                }
            },
            None => None,
        };
        let at: Option<String> = match self.anniversary {
            Some((secs, with_year)) => {
                let t = if with_year {
                    format_date_with_year_local(secs)
                } else {
                    format_date_no_year_local(secs)
                };
                match t {
                    Some(x) => Some(x),
                    None => return Err(Error::Decode(secs)),
                }
            },
            None => None,
        };
        let mut s = String::from_str("[");
        match &self.prefix {
            Some(p) => {
                s.append(p.as_str());
                s.append(" ");
            },
            None => {},
        }
        s.append(self.first_name.as_str());
        match &self.middle_name {
            Some(m) => {
                s.append(" ");
                s.append(m.as_str());
            },
            None => {},
        }
        match &self.last_name {
            Some(l) => {
                s.append(" ");
                s.append(l.as_str());
            },
            None => {},
        }
        match &self.nickname {
            Some(nn) => {
                s.append(" (");
                s.append(nn.as_str());
                s.append(")");
            },
            None => {},
        }
        s.append("]:");
        match &self.phone_number {
            Some(p) => {
                s.append("\nPhone Number: ");
                s.append(p.as_str());
            },
            None => {},
        }
        match &self.email {
            Some(e) => {
                s.append("\nEmail: ");
                s.append(e.as_str());
            },
            None => {},
        }
        match &self.organization {
            Some(o) => {
                s.append("\nOrganization: ");
                s.append(o.as_str());
            },
            None => {},
        }
        match &self.department {
            Some(d) => {
                s.append("\nDepartment: ");
                s.append(d.as_str());
            },
            None => {},
        }
        match &self.job_title {
            Some(j) => {
                s.append("\nJob Title: ");
                s.append(j.as_str());
            },
            None => {},
        }
        match &bt {
            Some(b) => {
                s.append("\nBirthday: ");
                s.append(b.as_str());
            },
            None => {},
        }
        match &at {
            Some(a) => {
                s.append("\nAnniversary: ");
                s.append(a.as_str());
            },
            None => {},
        }
        match &self.note {
            Some(nt) => {
                s.append("\nNote: ");
                s.append(nt.as_str());
            },
            None => {},
        }
        s.append("\n");
        proof {
            assert(s@ =~= card_spec(*self, opt_str_view(bt), opt_str_view(at)));
        }
        Ok(s)
    }
}

/// The concatenation of rendered cards, one blank line after each.
pub open spec fn cards_report(cards: Seq<Seq<char>>) -> Seq<char>
    decreases cards.len(),
{
    if cards.len() == 0 {
        Seq::empty()
    } else {
        cards[0] + "\n"@ + cards_report(cards.drop_first())
    }
}

proof fn lemma_cards_report_push(cards: Seq<Seq<char>>, card: Seq<char>)
    ensures
        cards_report(cards.push(card)) == cards_report(cards) + card + "\n"@,
    decreases cards.len(),
{
    if cards.len() == 0 {
        assert(cards.push(card)[0] == card);
        assert(cards.push(card).drop_first() =~= cards);
        assert(cards_report(cards.push(card)) == card + "\n"@ + cards_report(cards));
        assert(cards_report(cards) =~~= Seq::<char>::empty());
        assert(card + "\n"@ + cards_report(cards) =~= cards_report(cards) + card + "\n"@);
    } else {
        lemma_cards_report_push(cards.drop_first(), card);
        assert(cards.push(card)[0] == cards[0]);
        assert(cards.push(card).drop_first() =~= cards.drop_first().push(card));
        assert(cards_report(cards.push(card)) == cards[0] + "\n"@ + cards_report(
            cards.drop_first().push(card),
        ));
        assert(cards_report(cards) == cards[0] + "\n"@ + cards_report(cards.drop_first()));
        assert(cards[0] + "\n"@ + (cards_report(cards.drop_first()) + card + "\n"@) =~= (cards[0]
            + "\n"@ + cards_report(cards.drop_first())) + card + "\n"@);
    }
}

/// Renders the whole directory: each contact's card followed by a blank
/// line. Fails only on an unformattable stored date.
pub fn contacts_report(contacts: &Vec<Contact>) -> (r: Result<String, Error>)
    ensures
        r matches Ok(s) ==> exists|cards: Seq<Seq<char>>|
            cards.len() == contacts@.len() && s@ == cards_report(cards) && forall|k: int|
                0 <= k < cards.len() ==> card_of_contact(#[trigger] cards[k], contacts@[k]),
        (forall|k: int|
            0 <= k < contacts@.len() ==> Contact::date_formattable(
                (#[trigger] contacts@[k]).birthday,
            ) && Contact::date_formattable(contacts@[k].anniversary)) ==> r is Ok,
        r matches Err(e) ==> e matches Error::Decode(_),
{
    let mut s = String::new();
    let ghost mut cards: Seq<Seq<char>> = Seq::empty();
    let n = contacts.len();
    let mut i: usize = 0;
    while i < n
        invariant
            0 <= i <= n,
            n == contacts@.len(),
            cards.len() == i,
            s@ == cards_report(cards),
            forall|k: int|
                0 <= k < cards.len() ==> card_of_contact(#[trigger] cards[k], contacts@[k]),
        decreases n - i,
    {
        let card = match contacts[i].to_string() {
            Ok(c) => c,
            Err(e) => return Err(e),
        };
        proof {
            lemma_cards_report_push(cards, card@);
            cards = cards.push(card@);
        }
        s.append(card.as_str());
        s.append("\n");
        i += 1;
    }
    Ok(s)
}

/// Extracts the full directory from the backup: locates the address-book
/// blob, reads its tables, and builds one contact per well-formed person.
pub fn fetch(manifest: &Manifest) -> (r: Result<Vec<Contact>, Error>)
    ensures
        r matches Ok(v) ==> forall|k: int|
            0 <= k < v@.len() ==> ((#[trigger] v@[k]).phone_number matches Some(s)
                ==> exists|raw: Seq<char>| s@ == normalize_spec(raw)),
        r matches Err(e) ==> e matches Error::Sql(_) || e matches Error::NotFound(_)
            || e matches Error::Decode(_),
{
    let path = match manifest.get_path("Library/AddressBook/AddressBook.sqlitedb") {
        Ok(p) => p,
        Err(e) => return Err(e),
    };
    let conn = match open_database(path.as_str()) {
        Ok(c) => c,
        Err(e) => return Err(Error::Sql(e)),
    };
    let persons = match fetch_person_rows(&conn) {
        Ok(v) => v,
        Err(e) => return Err(Error::Sql(e)),
    };
    let mvs = match fetch_multi_value_rows(&conn) {
        Ok(v) => v,
        Err(e) => return Err(Error::Sql(e)),
    };
    contacts_from_rows(&persons, &mvs)
}

} // verus!
