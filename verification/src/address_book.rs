//! The contact directory: persons joined to their multi-valued attributes.
//!
//! A contact's identity for the message join is its normalized phone number,
//! produced by the same normalization as on the handle side. Lookup policy
//! throughout: the first matching row wins, zero matches fail; a person row
//! with no first name is a malformed or placeholder entry and is skipped.
use vstd::prelude::*;

use crate::db::{
    fetch_multi_value_rows, fetch_person_rows, open_database, MultiValueRow, PersonRow,
};
use crate::manifest::Manifest;
use crate::phone::{normalize_phone, normalize_spec};
use crate::Error;

verus! {

/// The property code of phone-number attribute rows.
pub const PHONE_PROPERTY: i64 = 3;

/// The property code of email attribute rows.
pub const EMAIL_PROPERTY: i64 = 4;

/// The property code of anniversary attribute rows.
pub const ANNIVERSARY_PROPERTY: i64 = 12;

/// A directory entry as the message join sees it: a display name and one
/// normalized phone number.
pub struct Contact {
    pub name: String,
    pub phone_number: String,
}

/// The display name of a person row: the first name, and the last name after
/// a space when one is stored.
pub open spec fn person_display_name(p: PersonRow) -> Seq<char> {
    p.first.unwrap()@ + match p.last {
        Some(l) => seq![' '] + l@,
        None => Seq::<char>::empty(),
    }
}

/// Whether a person row is well-formed and carries this display name.
pub open spec fn person_matches(p: PersonRow, name: Seq<char>) -> bool {
    p.first is Some && person_display_name(p) == name
}

/// Whether an attribute row carries a value of property `prop` for person
/// `rid`.
pub open spec fn mv_matches(m: MultiValueRow, rid: int, prop: int) -> bool {
    m.record_id == rid && m.property == prop && m.value is Some
}

/// Builds the display name of a well-formed person row.
pub fn display_name(p: &PersonRow) -> (r: String)
    requires
        p.first is Some,
    ensures
        r@ == person_display_name(*p),
{
    match &p.first {
        Some(f) => {
            let mut s = f.clone();
            match &p.last {
                Some(l) => {
                    s.push(' ');
                    s.append(l.as_str());
                },
                None => {},
            }
            s
        },
        None => vstd::pervasive::unreached(),
    }
}

/// Finds the first person row carrying `name`, the point-lookup policy.
pub fn find_person(persons: &Vec<PersonRow>, name: &str) -> (r: Option<usize>)
    ensures
        match r {
            Some(i) => i < persons@.len() && person_matches(persons@[i as int], name@)
                && forall|j: int| 0 <= j < i ==> !person_matches(#[trigger] persons@[j], name@),
            None => forall|j: int|
                0 <= j < persons@.len() ==> !person_matches(#[trigger] persons@[j], name@),
        },
{
    let n = persons.len();
    let mut i: usize = 0;
    while i < n
        invariant
            0 <= i <= n,
            n == persons@.len(),
            forall|j: int| 0 <= j < i ==> !person_matches(#[trigger] persons@[j], name@),
        decreases n - i,
    {
        let p = &persons[i];
        if p.first.is_some() {
            let dn = display_name(p);
            if crate::text::eq_str(dn.as_str(), name) {
                return Some(i);
            }
        }
        i += 1;
    }
    None
}

/// Finds the value of the first attribute row of property `prop` for person
/// `rid` that actually stores a value.
pub fn find_first_value(mvs: &Vec<MultiValueRow>, rid: i64, prop: i64) -> (r: Option<String>)
    ensures
        match r {
            Some(v) => exists|i: int|
                0 <= i < mvs@.len() && #[trigger] mv_matches(mvs@[i], rid as int, prop as int)
                    && v@ == mvs@[i].value.unwrap()@ && forall|j: int|
                    0 <= j < i ==> !mv_matches(#[trigger] mvs@[j], rid as int, prop as int),
            None => forall|j: int|
                0 <= j < mvs@.len() ==> !mv_matches(#[trigger] mvs@[j], rid as int, prop as int),
        },
{
    let n = mvs.len();
    let mut i: usize = 0;
    while i < n
        invariant
            0 <= i <= n,
            n == mvs@.len(),
            forall|j: int| 0 <= j < i ==> !mv_matches(#[trigger] mvs@[j], rid as int, prop as int),
        decreases n - i,
    {
        let m = &mvs[i];
        if m.record_id == rid && m.property == prop {
            match &m.value {
                Some(v) => {
                    let out = v.clone();
                    proof {
                        assert(mv_matches(mvs@[i as int], rid as int, prop as int));
                    }
                    return Some(out);
                },
                None => {},
            }
        }
        i += 1;
    }
    None
}

/// One entry of the directory join, as specifications see it.
#[verifier::ext_equal]
pub ghost struct PairSpec {
    pub name: Seq<char>,
    pub phone: Seq<char>,
}

/// The join entry a single attribute row contributes for a single person:
/// one (display name, normalized phone) pair, or nothing.
pub open spec fn pair_entry(p: PersonRow, m: MultiValueRow) -> Seq<PairSpec> {
    if p.first is Some && mv_matches(m, p.row_id as int, PHONE_PROPERTY as int) {
        seq![PairSpec { name: person_display_name(p), phone: normalize_spec(m.value.unwrap()@) }]
    } else {
        Seq::empty()
    }
}

/// All join entries of one person, in attribute-row order.
pub open spec fn pairs_for(p: PersonRow, mvs: Seq<MultiValueRow>) -> Seq<PairSpec>
    decreases mvs.len(),
{
    if mvs.len() == 0 {
        Seq::empty()
    } else {
        pair_entry(p, mvs[0]) + pairs_for(p, mvs.drop_first())
    }
}

/// The full directory join: every (display name, normalized phone) pair, in
/// person-major order.
pub open spec fn contact_pairs_spec(persons: Seq<PersonRow>, mvs: Seq<MultiValueRow>) -> Seq<
    PairSpec,
>
    decreases persons.len(),
{
    if persons.len() == 0 {
        Seq::empty()
    } else {
        pairs_for(persons[0], mvs) + contact_pairs_spec(persons.drop_first(), mvs)
    }
}

/// The name and number views of a directory.
pub open spec fn contact_views(s: Seq<Contact>) -> Seq<PairSpec> {
    s.map_values(|c: Contact| PairSpec { name: c.name@, phone: c.phone_number@ })
}

proof fn lemma_pairs_for_push(p: PersonRow, mvs: Seq<MultiValueRow>, m: MultiValueRow)
    ensures
        pairs_for(p, mvs.push(m)) == pairs_for(p, mvs) + pair_entry(p, m),
    decreases mvs.len(),
{
    if mvs.len() == 0 {
        assert(mvs.push(m)[0] == m);
        assert(mvs.push(m).drop_first() =~= mvs);
        assert(pairs_for(p, mvs.push(m)) == pair_entry(p, m) + pairs_for(p, mvs));
        assert(pairs_for(p, mvs) =~~= Seq::<PairSpec>::empty());
        assert(pair_entry(p, m) + pairs_for(p, mvs) =~~= pairs_for(p, mvs) + pair_entry(p, m));
    } else {
        lemma_pairs_for_push(p, mvs.drop_first(), m);
        assert(mvs.push(m)[0] == mvs[0]);
        assert(mvs.push(m).drop_first() =~= mvs.drop_first().push(m));
        assert(pairs_for(p, mvs.push(m)) == pair_entry(p, mvs[0]) + pairs_for(
            p,
            mvs.drop_first().push(m),
        ));
        assert(pairs_for(p, mvs) == pair_entry(p, mvs[0]) + pairs_for(p, mvs.drop_first()));
        assert(pair_entry(p, mvs[0]) + (pairs_for(p, mvs.drop_first()) + pair_entry(p, m)) =~~= (
        pair_entry(p, mvs[0]) + pairs_for(p, mvs.drop_first())) + pair_entry(p, m));
        assert(pairs_for(p, mvs.push(m)) =~~= pairs_for(p, mvs) + pair_entry(p, m));
    }
}

proof fn lemma_pairs_for_none(p: PersonRow, mvs: Seq<MultiValueRow>)
    requires
        p.first is None,
    ensures
        pairs_for(p, mvs) == Seq::<PairSpec>::empty(),
    decreases mvs.len(),
{
    if mvs.len() > 0 {
        lemma_pairs_for_none(p, mvs.drop_first());
        assert(pairs_for(p, mvs) =~~= Seq::<PairSpec>::empty());
    }
}

proof fn lemma_contact_pairs_push(
    persons: Seq<PersonRow>,
    mvs: Seq<MultiValueRow>,
    p: PersonRow,
)
    ensures
        contact_pairs_spec(persons.push(p), mvs) == contact_pairs_spec(persons, mvs)
            + pairs_for(p, mvs),
    decreases persons.len(),
{
    if persons.len() == 0 {
        assert(persons.push(p)[0] == p);
        assert(persons.push(p).drop_first() =~= persons);
        assert(contact_pairs_spec(persons.push(p), mvs) == pairs_for(p, mvs)
            + contact_pairs_spec(persons, mvs));
        assert(contact_pairs_spec(persons, mvs) =~~= Seq::<PairSpec>::empty());
        assert(pairs_for(p, mvs) + contact_pairs_spec(persons, mvs) =~~= contact_pairs_spec(
            persons,
            mvs,
        ) + pairs_for(p, mvs));
    } else {
        lemma_contact_pairs_push(persons.drop_first(), mvs, p);
        assert(persons.push(p)[0] == persons[0]);
        assert(persons.push(p).drop_first() =~= persons.drop_first().push(p));
        assert(contact_pairs_spec(persons.push(p), mvs) == pairs_for(persons[0], mvs)
            + contact_pairs_spec(persons.drop_first().push(p), mvs));
        assert(contact_pairs_spec(persons, mvs) == pairs_for(persons[0], mvs)
            + contact_pairs_spec(persons.drop_first(), mvs));
        assert(pairs_for(persons[0], mvs) + (contact_pairs_spec(persons.drop_first(), mvs)
            + pairs_for(p, mvs)) =~~= (pairs_for(persons[0], mvs) + contact_pairs_spec(
            persons.drop_first(),
            mvs,
        )) + pairs_for(p, mvs));
        assert(contact_pairs_spec(persons.push(p), mvs) =~~= contact_pairs_spec(persons, mvs)
            + pairs_for(p, mvs));
    }
}

/// The in-memory directory join: one entry per (well-formed person, stored
/// phone value) pair, person-major, every number normalized.
pub fn contact_pairs(persons: &Vec<PersonRow>, mvs: &Vec<MultiValueRow>) -> (r: Vec<Contact>)
    ensures
        contact_views(r@) == contact_pairs_spec(persons@, mvs@),
        forall|k: int|
            0 <= k < r@.len() ==> exists|raw: Seq<char>|
                (#[trigger] r@[k]).phone_number@ == normalize_spec(raw),
{
    let mut out: Vec<Contact> = Vec::new();
    let n = persons.len();
    let mut i: usize = 0;
    while i < n
        invariant
            0 <= i <= n,
            n == persons@.len(),
            contact_views(out@) == contact_pairs_spec(persons@.take(i as int), mvs@),
            forall|k: int|
                0 <= k < out@.len() ==> exists|raw: Seq<char>|
                    (#[trigger] out@[k]).phone_number@ == normalize_spec(raw),
        decreases n - i,
    {
        let p = &persons[i];
        if p.first.is_some() {
            let name = display_name(p);
            let rid = p.row_id;
            let m_n = mvs.len();
            let mut j: usize = 0;
            while j < m_n
                invariant
                    0 <= j <= m_n,
                    m_n == mvs@.len(),
                    0 <= i < n,
                    n == persons@.len(),
                    persons@[i as int].first is Some,
                    rid == persons@[i as int].row_id,
                    name@ == person_display_name(persons@[i as int]),
                    contact_views(out@) == contact_pairs_spec(persons@.take(i as int), mvs@)
                        + pairs_for(persons@[i as int], mvs@.take(j as int)),
                    forall|k: int|
                        0 <= k < out@.len() ==> exists|raw: Seq<char>|
                            (#[trigger] out@[k]).phone_number@ == normalize_spec(raw),
                decreases m_n - j,
            {
                let m = &mvs[j];
                proof {
                    lemma_pairs_for_push(
                        persons@[i as int],
                        mvs@.take(j as int),
                        mvs@[j as int],
                    );
                    assert(mvs@.take(j as int).push(mvs@[j as int]) =~= mvs@.take(j as int + 1));
                }
                if m.record_id == rid && m.property == PHONE_PROPERTY {
                    match &m.value {
                        Some(v) => {
                            let phone = normalize_phone(v.as_str());
                            let c = Contact { name: name.clone(), phone_number: phone };
                            let ghost prev = out@;
                            let ghost entry = PairSpec {
                                name: c.name@,
                                phone: c.phone_number@,
                            };
                            proof {
                                assert(mv_matches(
                                    mvs@[j as int],
                                    persons@[i as int].row_id as int,
                                    PHONE_PROPERTY as int,
                                ));
                            }
                            out.push(c);
                            proof {
                                assert(out@ == prev.push(c));
                                assert(contact_views(prev.push(c)) =~~= contact_views(prev)
                                    + seq![entry]);
                                assert(pair_entry(persons@[i as int], mvs@[j as int]) =~~= seq![
                                    entry,
                                ]);
                                assert(contact_views(out@) =~~= contact_pairs_spec(
                                    persons@.take(i as int),
                                    mvs@,
                                ) + pairs_for(persons@[i as int], mvs@.take(j as int + 1)));
                            }
                        },
                        None => {
                            proof {
                                assert(contact_views(out@) =~~= contact_pairs_spec(
                                    persons@.take(i as int),
                                    mvs@,
                                ) + pairs_for(persons@[i as int], mvs@.take(j as int + 1)));
                            }
                        },
                    }
                } else {
                    proof {
                        assert(contact_views(out@) =~~= contact_pairs_spec(
                            persons@.take(i as int),
                            mvs@,
                        ) + pairs_for(persons@[i as int], mvs@.take(j as int + 1)));
                    }
                }
                j += 1;
            }
            proof {
                assert(mvs@.take(m_n as int) =~= mvs@);
                lemma_contact_pairs_push(
                    persons@.take(i as int),
                    mvs@,
                    persons@[i as int],
                );
                assert(persons@.take(i as int).push(persons@[i as int]) =~= persons@.take(
                    i as int + 1,
                ));
            }
        } else {
            proof {
                lemma_pairs_for_none(persons@[i as int], mvs@);
                lemma_contact_pairs_push(
                    persons@.take(i as int),
                    mvs@,
                    persons@[i as int],
                );
                assert(persons@.take(i as int).push(persons@[i as int]) =~= persons@.take(
                    i as int + 1,
                ));
                assert(contact_views(out@) =~~= contact_pairs_spec(
                    persons@.take(i as int + 1),
                    mvs@,
                ));
            }
        }
        i += 1;
    }
    proof {
        assert(persons@.take(n as int) =~= persons@);
    }
    out
}

/// An open address-book database.
pub struct AddressBook {
    pub(crate) connection: rusqlite::Connection,
}

impl AddressBook {
    /// Locates the address-book blob through the resolver and opens it.
    pub fn open(manifest: &Manifest) -> (r: Result<AddressBook, Error>)
        ensures
            r matches Err(e) ==> e matches Error::Sql(_) || e matches Error::NotFound(_),
    {
        let path = match manifest.get_path("Library/AddressBook/AddressBook.sqlitedb") {
            Ok(p) => p,
            Err(e) => return Err(e),
        };
        match open_database(path.as_str()) {
            Ok(c) => Ok(AddressBook { connection: c }),
            Err(e) => Err(Error::Sql(e)),
        }
    }

    /// The point lookup: the first person whose display name equals `name`,
    /// with that person's first stored phone number, normalized. Fails with
    /// `NotFound` when no person matches or the person stores no number.
    pub fn get_contact(&self, name: &str) -> (r: Result<Contact, Error>)
        ensures
            r matches Ok(c) ==> c.name@ == name@ && exists|raw: Seq<char>|
                c.phone_number@ == normalize_spec(raw),
            r matches Err(e) ==> e matches Error::Sql(_) || e matches Error::NotFound(_),
    {
        let persons = match fetch_person_rows(&self.connection) {
            Ok(v) => v,
            Err(e) => return Err(Error::Sql(e)),
        };
        match find_person(&persons, name) {
            None => Err(Error::NotFound(name.to_owned())),
            Some(i) => {
                let mvs = match fetch_multi_value_rows(&self.connection) {
                    Ok(v) => v,
                    Err(e) => return Err(Error::Sql(e)),
                };
                match find_first_value(&mvs, persons[i].row_id, PHONE_PROPERTY) {
                    None => {
                        let mut msg = String::from_str("no phone number stored for ");
                        msg.append(name);
                        Err(Error::NotFound(msg))
                    },
                    Some(raw) => Ok(
                        Contact {
                            name: name.to_owned(),
                            phone_number: normalize_phone(raw.as_str()),
                        },
                    ),
                }
            },
        }
    }

    /// The full directory: every (display name, normalized phone) pair.
    pub fn get_all(&self) -> (r: Result<Vec<Contact>, Error>)
        ensures
            r matches Ok(v) ==> forall|k: int|
                0 <= k < v@.len() ==> exists|raw: Seq<char>|
                    (#[trigger] v@[k]).phone_number@ == normalize_spec(raw),
            r matches Err(e) ==> e matches Error::Sql(_),
    {
        let persons = match fetch_person_rows(&self.connection) {
            Ok(v) => v,
            Err(e) => return Err(Error::Sql(e)),
        };
        let mvs = match fetch_multi_value_rows(&self.connection) {
            Ok(v) => v,
            Err(e) => return Err(Error::Sql(e)),
        };
        Ok(contact_pairs(&persons, &mvs))
    }
}

} // verus!
