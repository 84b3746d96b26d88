//! Collision-safe output naming.
//!
//! A contact's display name is sanitized into a usable file stem: characters
//! that filesystems reserve, and ASCII control characters, become an
//! underscore; leading and trailing dots and spaces are stripped; a name
//! that sanitizes to nothing falls back to a fixed placeholder. When two
//! contacts sanitize to the same stem, an incrementing numeric suffix is
//! appended until a free name is found, so every output file is distinct.
use vstd::prelude::*;

use crate::text::string_from_chars;

verus! {

/// A character replaced during sanitization: one of the filesystem-reserved
/// characters, or an ASCII control character.
pub open spec fn is_unsafe_char(c: char) -> bool {
    c == '<' || c == '>' || c == ':' || c == '"' || c == '/' || c == '\\' || c == '|' || c == '?'
        || c == '*' || (c as int) < 32 || (c as int) == 127
}

/// A character stripped from the ends of a name.
pub open spec fn is_trim_char(c: char) -> bool {
    c == '.' || c == ' '
}

/// The name with every unsafe character replaced by an underscore.
pub open spec fn replace_spec(s: Seq<char>) -> Seq<char> {
    s.map_values(
        |c: char|
            if is_unsafe_char(c) {
                '_'
            } else {
                c
            },
    )
}

/// The name with leading trim characters dropped.
pub open spec fn trim_front(s: Seq<char>) -> Seq<char>
    decreases s.len(),
{
    if s.len() > 0 && is_trim_char(s[0]) {
        trim_front(s.drop_first())
    } else {
        s
    }
}

/// The name with trailing trim characters dropped.
pub open spec fn trim_back(s: Seq<char>) -> Seq<char>
    decreases s.len(),
{
    if s.len() > 0 && is_trim_char(s.last()) {
        trim_back(s.drop_last())
    } else {
        s
    }
}

/// The sanitized file stem of a display name.
pub open spec fn sanitize_spec(s: Seq<char>) -> Seq<char> {
    let t = trim_back(trim_front(replace_spec(s)));
    if t.len() == 0 {
        "unknown"@
    } else {
        t
    }
}

proof fn lemma_trim_front_skip(s: Seq<char>, k: int)
    requires
        0 <= k <= s.len(),
        forall|j: int| 0 <= j < k ==> is_trim_char(#[trigger] s[j]),
    ensures
        trim_front(s) == trim_front(s.skip(k)),
    decreases k,
{
    if k == 0 {
        assert(s.skip(0) =~= s);
    } else {
        assert(is_trim_char(s[0]));
        assert(s.drop_first() =~= s.skip(1));
        lemma_trim_front_skip(s.skip(1), k - 1);
        assert(s.skip(1).skip(k - 1) =~= s.skip(k));
        assert(forall|j: int|
            0 <= j < k - 1 ==> is_trim_char(#[trigger] s.skip(1)[j]));
    }
}

proof fn lemma_trim_back_take(s: Seq<char>, k: int)
    requires
        0 <= k <= s.len(),
        forall|j: int| k <= j < s.len() ==> is_trim_char(#[trigger] s[j]),
    ensures
        trim_back(s) == trim_back(s.take(k)),
    decreases s.len() - k,
{
    if k == s.len() {
        assert(s.take(k) =~= s);
    } else {
        assert(is_trim_char(s.last()));
        assert(s.drop_last() =~= s.take(s.len() - 1));
        lemma_trim_back_take(s.take(s.len() - 1), k);
        assert(s.take(s.len() - 1).take(k) =~= s.take(k));
        assert(forall|j: int|
            k <= j < s.len() - 1 ==> is_trim_char(#[trigger] s.take(s.len() - 1)[j]));
    }
}

/// Sanitizes a display name into a file stem.
pub fn sanitize_name(s: &str) -> (r: String)
    ensures
        r@ == sanitize_spec(s@),
{
    let n = s.unicode_len();
    let mut chars: Vec<char> = Vec::new();
    let mut i: usize = 0;
    while i < n
        invariant
            0 <= i <= n,
            n == s@.len(),
            chars@ == replace_spec(s@.subrange(0, i as int)),
        decreases n - i,
    {
        let c = s.get_char(i);
        let rc = if c == '<' || c == '>' || c == ':' || c == '"' || c == '/' || c == '\\'
            || c == '|' || c == '?' || c == '*' || (c as u32) < 32 || (c as u32) == 127 {
            '_'
        } else {
            c
        };
        chars.push(rc);
        i += 1;
        proof {
            assert(chars@ =~= replace_spec(s@.subrange(0, i as int)));
        }
    }
    proof {
        assert(s@.subrange(0, n as int) =~= s@);
    }
    let len = chars.len();
    let mut start: usize = 0;
    while start < len && (chars[start] == '.' || chars[start] == ' ')
        invariant
            0 <= start <= len,
            len == chars@.len(),
            forall|j: int| 0 <= j < start ==> is_trim_char(#[trigger] chars@[j]),
        decreases len - start,
    {
        start += 1;
    }
    let mut end: usize = len;
    while end > start && (chars[end - 1] == '.' || chars[end - 1] == ' ')
        invariant
            start <= end <= len,
            len == chars@.len(),
            forall|j: int| 0 <= j < start ==> is_trim_char(#[trigger] chars@[j]),
            start < len ==> !is_trim_char(chars@[start as int]),
            forall|j: int| end <= j < len ==> is_trim_char(#[trigger] chars@[j]),
        decreases end,
    {
        end -= 1;
    }
    proof {
        lemma_trim_front_skip(chars@, start as int);
        if start < len {
            assert(!is_trim_char(chars@.skip(start as int)[0]));
            assert(trim_front(chars@.skip(start as int)) == chars@.skip(start as int));
        } else {
            assert(chars@.skip(start as int).len() == 0);
        }
        lemma_trim_back_take(chars@.skip(start as int), end - start);
        assert(chars@.skip(start as int).take(end - start) =~= chars@.subrange(
            start as int,
            end as int,
        ));
        if end > start {
            assert(chars@.subrange(start as int, end as int).last() == chars@[end - 1]);
            assert(!is_trim_char(chars@.subrange(start as int, end as int).last()));
            assert(trim_back(chars@.subrange(start as int, end as int)) == chars@.subrange(
                start as int,
                end as int,
            ));
        } else {
            assert(chars@.subrange(start as int, end as int).len() == 0);
        }
    }
    if end == start {
        let r = String::from_str("unknown");
        proof {
            assert(trim_back(trim_front(replace_spec(s@))).len() == 0);
        }
        r
    } else {
        let mut kept: Vec<char> = Vec::new();
        let mut k: usize = start;
        while k < end
            invariant
                start <= k <= end <= len,
                len == chars@.len(),
                kept@ == chars@.subrange(start as int, k as int),
            decreases end - k,
        {
            kept.push(chars[k]);
            k += 1;
            proof {
                assert(kept@ =~= chars@.subrange(start as int, k as int));
            }
        }
        let r = string_from_chars(&kept);
        proof {
            assert(trim_back(trim_front(replace_spec(s@))) == chars@.subrange(
                start as int,
                end as int,
            ));
        }
        r
    }
}

/// The decimal digit character of `d`.
pub open spec fn digit_char(d: int) -> char {
    if d == 0 {
        '0'
    } else if d == 1 {
        '1'
    } else if d == 2 {
        '2'
    } else if d == 3 {
        '3'
    } else if d == 4 {
        '4'
    } else if d == 5 {
        '5'
    } else if d == 6 {
        '6'
    } else if d == 7 {
        '7'
    } else if d == 8 {
        '8'
    } else {
        '9'
    }
}

/// The decimal rendering of `n`, most significant digit first.
pub open spec fn dec_spec(n: nat) -> Seq<char>
    decreases n,
{
    if n < 10 {
        seq![digit_char(n as int)]
    } else {
        dec_spec(n / 10).push(digit_char((n % 10) as int))
    }
}

proof fn lemma_dec_len(n: nat)
    ensures
        dec_spec(n).len() >= 1,
    decreases n,
{
    if n >= 10 {
        lemma_dec_len(n / 10);
    }
}

proof fn lemma_dec_injective(a: nat, b: nat)
    requires
        dec_spec(a) == dec_spec(b),
    ensures
        a == b,
    decreases a,
{
    lemma_dec_len(a);
    lemma_dec_len(b);
    if a < 10 && b < 10 {
        assert(dec_spec(a)[0] == digit_char(a as int));
        assert(dec_spec(b)[0] == digit_char(b as int));
    } else if a < 10 {
        lemma_dec_len(b / 10);
        assert(dec_spec(b).len() >= 2);
        assert(dec_spec(a).len() == 1);
    } else if b < 10 {
        lemma_dec_len(a / 10);
        assert(dec_spec(a).len() >= 2);
        assert(dec_spec(b).len() == 1);
    } else {
        assert(dec_spec(a).last() == digit_char((a % 10) as int));
        assert(dec_spec(b).last() == digit_char((b % 10) as int));
        assert(a % 10 == b % 10);
        assert(dec_spec(a).drop_last() =~= dec_spec(a / 10));
        assert(dec_spec(b).drop_last() =~= dec_spec(b / 10));
        lemma_dec_injective(a / 10, b / 10);
        assert(a == 10 * (a / 10) + a % 10);
        assert(b == 10 * (b / 10) + b % 10);
    }
}

/// The `k`-th candidate stem for a base name: the base itself, then the base
/// with an incrementing numeric suffix.
pub open spec fn suffixed(base: Seq<char>, k: nat) -> Seq<char> {
    if k == 0 {
        base
    } else {
        base + seq![' '] + dec_spec(k)
    }
}

proof fn lemma_suffixed_injective(base: Seq<char>, k1: nat, k2: nat)
    requires
        k1 < k2,
    ensures
        suffixed(base, k1) != suffixed(base, k2),
{
    lemma_dec_len(k2);
    if k1 == 0 {
        assert(suffixed(base, k2).len() > base.len());
    } else {
        lemma_dec_len(k1);
        if suffixed(base, k1) == suffixed(base, k2) {
            let d1 = dec_spec(k1);
            let d2 = dec_spec(k2);
            assert(suffixed(base, k1).len() == suffixed(base, k2).len());
            assert((base + seq![' '] + d1).len() == base.len() + 1 + d1.len());
            assert((base + seq![' '] + d2).len() == base.len() + 1 + d2.len());
            assert(d1.len() == d2.len());
            assert forall|i: int| 0 <= i < d1.len() implies d1[i] == d2[i] by {
                assert(d1[i] == suffixed(base, k1)[base.len() + 1 + i]);
                assert(d2[i] == suffixed(base, k2)[base.len() + 1 + i]);
            }
            assert(d1 =~= d2);
            lemma_dec_injective(k1, k2);
            assert(false);
        }
    }
}

/// Whether some string in `used` holds exactly the characters `x`.
pub open spec fn taken(used: Seq<String>, x: Seq<char>) -> bool {
    exists|i: int| 0 <= i < used.len() && used[i]@ == x
}

spec fn suff_set(base: Seq<char>, count: nat) -> Set<Seq<char>>
    decreases count,
{
    if count == 0 {
        Set::empty()
    } else {
        suff_set(base, (count - 1) as nat).insert(suffixed(base, (count - 1) as nat))
    }
}

proof fn lemma_suff_set(base: Seq<char>, count: nat)
    ensures
        suff_set(base, count).finite(),
        suff_set(base, count).len() == count,
        forall|x: Seq<char>|
            suff_set(base, count).contains(x) <==> exists|k: nat| k < count && x == suffixed(base, k),
    decreases count,
{
    if count > 0 {
        let prev = (count - 1) as nat;
        lemma_suff_set(base, prev);
        assert(!suff_set(base, prev).contains(suffixed(base, prev))) by {
            if suff_set(base, prev).contains(suffixed(base, prev)) {
                let k = choose|k: nat| k < prev && suffixed(base, prev) == suffixed(base, k);
                lemma_suffixed_injective(base, k, prev);
            }
        }
        assert forall|x: Seq<char>|
            suff_set(base, count).contains(x) <==> exists|k: nat|
                k < count && x == suffixed(base, k) by {
            if suff_set(base, count).contains(x) {
                if x == suffixed(base, prev) {
                    assert(prev < count && x == suffixed(base, prev));
                }
            }
            if exists|k: nat| k < count && x == suffixed(base, k) {
                let k = choose|k: nat| k < count && x == suffixed(base, k);
                if k < prev {
                    assert(suff_set(base, prev).contains(x));
                }
            }
        }
    }
}

proof fn lemma_name_pigeonhole(used: Seq<String>, base: Seq<char>, count: nat)
    requires
        forall|k: nat| k < count ==> taken(used, #[trigger] suffixed(base, k)),
    ensures
        count <= used.len(),
{
    broadcast use vstd::seq_lib::group_seq_properties;

    lemma_suff_set(base, count);
    let views = used.map_values(|s: String| s@);
    let vset = views.to_set();
    assert(suff_set(base, count) <= vset) by {
        assert forall|x: Seq<char>| suff_set(base, count).contains(x) implies vset.contains(
            x,
        ) by {
            let k = choose|k: nat| k < count && x == suffixed(base, k);
            assert(taken(used, suffixed(base, k)));
            let i = choose|i: int| 0 <= i < used.len() && used[i]@ == x;
            assert(views[i] == x);
            assert(views.contains(x));
        }
    }
    views.lemma_cardinality_of_set();
    vstd::set_lib::lemma_len_subset(suff_set(base, count), vset);
}

/// The decimal rendering of `n`.
pub fn u64_to_string(n: u64) -> (r: String)
    ensures
        r@ == dec_spec(n as nat),
{
    if n == 0 {
        let r = String::from_str("0");
        proof {
            reveal_strlit("0");
            assert(r@ =~= dec_spec(0));
        }
        return r;
    }
    let mut digits: Vec<char> = Vec::new();
    let mut m = n;
    while m > 0
        invariant
            m > 0 ==> dec_spec(n as nat) == dec_spec(m as nat) + digits@.reverse(),
            m == 0 ==> digits@.len() > 0 && dec_spec(n as nat) == digits@.reverse(),
        decreases m,
    {
        let ghost prev = digits@;
        let ghost m0 = m as nat;
        let d = digit_to_char(m % 10);
        digits.push(d);
        m = m / 10;
        proof {
            assert(digits@.reverse() =~= seq![d] + prev.reverse());
            if m0 < 10 {
                assert(m0 % 10 == m0);
                assert(dec_spec(m0) == seq![d]);
                assert(dec_spec(m0) + prev.reverse() =~= digits@.reverse());
            } else {
                assert(dec_spec(m0) == dec_spec(m0 / 10).push(d));
                assert(dec_spec(m0 / 10).push(d) + prev.reverse() =~= dec_spec(m0 / 10) + (seq![d]
                    + prev.reverse()));
                assert(dec_spec(n as nat) =~= dec_spec(m as nat) + digits@.reverse());
            }
        }
    }
    let len = digits.len();
    let mut out: Vec<char> = Vec::new();
    let mut k: usize = 0;
    while k < len
        invariant
            0 <= k <= len,
            len == digits@.len(),
            out@ == digits@.reverse().take(k as int),
        decreases len - k,
    {
        out.push(digits[len - 1 - k]);
        k += 1;
        proof {
            assert(out@ =~= digits@.reverse().take(k as int));
        }
    }
    proof {
        assert(digits@.reverse().take(len as int) =~= digits@.reverse());
    }
    string_from_chars(&out)
}

fn digit_to_char(d: u64) -> (c: char)
    requires
        d < 10,
    ensures
        c == digit_char(d as int),
{
    match d {
        0 => '0',
        1 => '1',
        2 => '2',
        3 => '3',
        4 => '4',
        5 => '5',
        6 => '6',
        7 => '7',
        8 => '8',
        9 => '9',
        _ => vstd::pervasive::unreached(),
    }
}

/// Whether `x` is already among the used names.
pub fn contains_name(used: &Vec<String>, x: &String) -> (r: bool)
    ensures
        r == taken(used@, x@),
{
    let n = used.len();
    let mut i: usize = 0;
    while i < n
        invariant
            0 <= i <= n,
            n == used@.len(),
            forall|j: int| 0 <= j < i ==> (#[trigger] used@[j])@ != x@,
        decreases n - i,
    {
        if used[i].eq(x) {
            return true;
        }
        i += 1;
    }
    false
}

/// Builds the candidate stem `suffixed(base, k)`.
fn build_candidate(base: &str, k: u64) -> (r: String)
    requires
        k > 0,
    ensures
        r@ == suffixed(base@, k as nat),
{
    let mut r = String::from_str(base);
    r.push(' ');
    let num = u64_to_string(k);
    r.append(num.as_str());
    proof {
        assert(r@ =~= suffixed(base@, k as nat));
    }
    r
}

/// Picks the first free stem for `base`: the base itself, else the base with
/// the smallest numeric suffix not yet used.
pub fn unique_name(used: &Vec<String>, base: &str) -> (r: String)
    ensures
        !taken(used@, r@),
        exists|k: nat|
            r@ == suffixed(base@, k) && forall|m: nat|
                m < k ==> taken(used@, #[trigger] suffixed(base@, m)),
{
    let first = String::from_str(base);
    if !contains_name(used, &first) {
        proof {
            assert(first@ == suffixed(base@, 0));
        }
        return first;
    }
    let bound = used.len();
    let mut idx: usize = 0;
    while idx < bound
        invariant
            0 <= idx <= bound,
            bound == used@.len(),
            forall|m: nat| m < idx + 1 ==> taken(used@, #[trigger] suffixed(base@, m)),
        decreases bound - idx,
    {
        let candidate = build_candidate(base, (idx as u64) + 1);
        if !contains_name(used, &candidate) {
            proof {
                assert(candidate@ == suffixed(base@, (idx + 1) as nat));
            }
            return candidate;
        }
        idx += 1;
    }
    proof {
        lemma_name_pigeonhole(used@, base@, (bound + 1) as nat);
        assert(false);
    }
    vstd::pervasive::unreached()
}

} // verus!
