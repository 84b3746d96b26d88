//! Phone-number normalization.
//!
//! A raw stored number is normalized by dropping the separator characters
//! `(`, `)`, space and `-`, then prefixing `+1` unless the result already
//! begins with `+`. The same normalization is applied on the contact side and
//! on the message-handle side of the join; it is a heuristic matching the
//! backup's own raw formats, not full international-number validation.
use vstd::prelude::*;

use crate::text::string_from_chars;

verus! {

/// A character dropped by normalization.
pub open spec fn is_separator(c: char) -> bool {
    c == '(' || c == ')' || c == ' ' || c == '-'
}

/// The raw number with all separator characters dropped, order kept.
pub open spec fn strip_separators(s: Seq<char>) -> Seq<char> {
    s.filter(|c: char| !is_separator(c))
}

/// The normalized form of a raw number: separators dropped, then `+1`
/// prefixed unless the result already begins with `+`.
pub open spec fn normalize_spec(s: Seq<char>) -> Seq<char> {
    let t = strip_separators(s);
    if t.len() > 0 && t[0] == '+' {
        t
    } else {
        seq!['+', '1'] + t
    }
}

proof fn lemma_strip_push(s: Seq<char>, c: char)
    ensures
        strip_separators(s.push(c)) == strip_separators(s) + (if !is_separator(c) {
            seq![c]
        } else {
            Seq::<char>::empty()
        }),
{
    reveal(Seq::filter);
    assert(s.push(c).drop_last() =~= s);
    assert(s.push(c).last() == c);
    if !is_separator(c) {
        assert(strip_separators(s.push(c)) =~= strip_separators(s) + seq![c]);
    } else {
        assert(strip_separators(s.push(c)) =~= strip_separators(s) + Seq::<char>::empty());
    }
}

proof fn lemma_strip_all_kept(s: Seq<char>)
    requires
        forall|i: int| 0 <= i < s.len() ==> !is_separator(#[trigger] s[i]),
    ensures
        strip_separators(s) == s,
    decreases s.len(),
{
    if s.len() == 0 {
        reveal(Seq::filter);
        assert(strip_separators(s) =~= s);
    } else {
        lemma_strip_all_kept(s.drop_last());
        lemma_strip_push(s.drop_last(), s.last());
        assert(s.drop_last().push(s.last()) =~= s);
        assert(strip_separators(s) =~= s);
    }
}

proof fn lemma_strip_add(a: Seq<char>, b: Seq<char>)
    ensures
        strip_separators(a + b) == strip_separators(a) + strip_separators(b),
    decreases b.len(),
{
    if b.len() == 0 {
        assert(a + b =~= a);
        reveal(Seq::filter);
        assert(strip_separators(b) =~= Seq::<char>::empty());
        assert(strip_separators(a + b) =~= strip_separators(a) + strip_separators(b));
    } else {
        lemma_strip_add(a, b.drop_last());
        lemma_strip_push(a + b.drop_last(), b.last());
        lemma_strip_push(b.drop_last(), b.last());
        assert((a + b.drop_last()).push(b.last()) =~= a + b);
        assert(b.drop_last().push(b.last()) =~= b);
        assert(strip_separators(a + b) =~= strip_separators(a) + strip_separators(b));
    }
}

proof fn lemma_strip_members(s: Seq<char>)
    ensures
        forall|i: int|
            0 <= i < strip_separators(s).len() ==> !is_separator(
                #[trigger] strip_separators(s)[i],
            ),
    decreases s.len(),
{
    if s.len() == 0 {
        reveal(Seq::filter);
    } else {
        lemma_strip_members(s.drop_last());
        lemma_strip_push(s.drop_last(), s.last());
        assert(s.drop_last().push(s.last()) =~= s);
    }
}

/// Normalization applied to an already-normalized number changes nothing.
pub proof fn lemma_normalize_idempotent(s: Seq<char>)
    ensures
        normalize_spec(normalize_spec(s)) == normalize_spec(s),
{
    let t = strip_separators(s);
    lemma_strip_members(s);
    lemma_strip_all_kept(t);
    if t.len() > 0 && t[0] == '+' {
        assert(normalize_spec(normalize_spec(s)) == normalize_spec(t));
    } else {
        let p = seq!['+', '1'];
        assert(!is_separator(p[0]) && !is_separator(p[1]));
        lemma_strip_all_kept(p);
        lemma_strip_add(p, t);
        assert(strip_separators(p + t) == p + t);
        assert((p + t)[0] == '+');
    }
}

/// The normalized form of a raw phone number.
pub fn normalize_phone(s: &str) -> (r: String)
    ensures
        r@ == normalize_spec(s@),
{
    let n = s.unicode_len();
    let mut kept: Vec<char> = Vec::new();
    let mut i: usize = 0;
    while i < n
        invariant
            0 <= i <= n,
            n == s@.len(),
            kept@ == strip_separators(s@.subrange(0, i as int)),
        decreases n - i,
    {
        let c = s.get_char(i);
        proof {
            lemma_strip_push(s@.subrange(0, i as int), c);
            assert(s@.subrange(0, i as int).push(c) =~= s@.subrange(0, i as int + 1));
        }
        if !(c == '(' || c == ')' || c == ' ' || c == '-') {
            kept.push(c);
        }
        i += 1;
    }
    proof {
        assert(s@.subrange(0, n as int) =~= s@);
    }
    if kept.len() > 0 && kept[0] == '+' {
        string_from_chars(&kept)
    } else {
        proof {
            reveal_strlit("+1");
        }
        let tail = string_from_chars(&kept);
        let mut r = String::from_str("+1");
        r.append(tail.as_str());
        proof {
            assert("+1"@ =~= seq!['+', '1']);
        }
        r
    }
}

} // verus!
