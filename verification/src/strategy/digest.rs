//! Ordering, joining and hashing of bundle ids, as neighbours compare them.
use std::hash::{Hash, Hasher};
use crate::agents::string_of_chars;
use crate::text::string_views;
use vstd::prelude::*;
use vstd::relations::{sorted_by, total_ordering};

verus! {

/// Lexicographic order of strings by code point, which is the order of
/// their UTF-8 bytes.
pub open spec fn chars_le(a: Seq<char>, b: Seq<char>) -> bool
    decreases a.len(),
{
    if a.len() == 0 {
        true
    } else if b.len() == 0 {
        false
    } else if a[0] != b[0] {
        (a[0] as int) < (b[0] as int)
    } else {
        chars_le(a.drop_first(), b.drop_first())
    }
}

proof fn lemma_chars_le_reflexive(a: Seq<char>)
    ensures
        chars_le(a, a),
    decreases a.len(),
{
    if a.len() > 0 {
        lemma_chars_le_reflexive(a.drop_first());
    }
}

proof fn lemma_chars_le_antisymmetric(a: Seq<char>, b: Seq<char>)
    requires
        chars_le(a, b),
        chars_le(b, a),
    ensures
        a == b,
    decreases a.len(),
{
    if a.len() == 0 {
        assert(b.len() == 0);
        assert(a =~= b);
    } else {
        assert(b.len() > 0);
        if a[0] == b[0] {
            lemma_chars_le_antisymmetric(a.drop_first(), b.drop_first());
            assert(a =~= seq![a[0]] + a.drop_first());
            assert(b =~= seq![b[0]] + b.drop_first());
        } else {
            assert((a[0] as int) != (b[0] as int));
        }
    }
}

proof fn lemma_chars_le_transitive(a: Seq<char>, b: Seq<char>, c: Seq<char>)
    requires
        chars_le(a, b),
        chars_le(b, c),
    ensures
        chars_le(a, c),
    decreases a.len(),
{
    if a.len() > 0 {
        assert(b.len() > 0);
        assert(c.len() > 0);
        if a[0] == b[0] && b[0] == c[0] {
            lemma_chars_le_transitive(a.drop_first(), b.drop_first(), c.drop_first());
        } else if a[0] != c[0] {
            assert((a[0] as int) != (c[0] as int));
        }
    }
}

proof fn lemma_chars_le_connected(a: Seq<char>, b: Seq<char>)
    ensures
        chars_le(a, b) || chars_le(b, a),
    decreases a.len(),
{
    if a.len() > 0 && b.len() > 0 {
        if a[0] == b[0] {
            lemma_chars_le_connected(a.drop_first(), b.drop_first());
        } else {
            assert((a[0] as int) != (b[0] as int));
        }
    }
}

/// `chars_le` is a total order.
pub proof fn lemma_chars_le_total()
    ensures
        total_ordering(|a: Seq<char>, b: Seq<char>| chars_le(a, b)),
{
    let leq = |a: Seq<char>, b: Seq<char>| chars_le(a, b);
    assert forall|a: Seq<char>| #[trigger] leq(a, a) by {
        lemma_chars_le_reflexive(a);
    }
    assert forall|a: Seq<char>, b: Seq<char>| #[trigger]
        leq(a, b) && #[trigger] leq(b, a) implies a == b by {
        lemma_chars_le_antisymmetric(a, b);
    }
    assert forall|a: Seq<char>, b: Seq<char>, c: Seq<char>| #[trigger]
        leq(a, b) && #[trigger] leq(b, c) implies leq(a, c) by {
        lemma_chars_le_transitive(a, b, c);
    }
    assert forall|a: Seq<char>, b: Seq<char>| #[trigger] leq(a, b) || #[trigger] leq(b, a) by {
        lemma_chars_le_connected(a, b);
    }
}

/// `slice::sort` on strings: the same strings, in ascending order.
#[verifier::external_body]
fn sort_strings(v: &mut Vec<String>)
    ensures
        string_views(final(v)@).to_multiset() == string_views(old(v)@).to_multiset(),
        sorted_by(string_views(final(v)@), |a: Seq<char>, b: Seq<char>| chars_le(a, b)),
{
    v.sort()
}

/// The hash that `DefaultHasher::new()` computes of a string. `DefaultHasher`
/// instances made by `new` all hash alike; the algorithm is std's own.
pub uninterp spec fn default_hash(s: Seq<char>) -> u64;

/// Hashes a string with a `DefaultHasher` made by `new` and returns `finish`.
#[verifier::external_body]
pub(crate) fn hash_string(s: &String) -> (h: u64)
    ensures
        h == default_hash(s@),
{
    let mut hasher = std::collections::hash_map::DefaultHasher::new();
    s.hash(&mut hasher);
    hasher.finish()
}

/// The digit for a value below 16, upper case.
pub open spec fn hex_digit(d: int) -> char {
    if d < 10 {
        (('0' as int) + d) as char
    } else {
        (('A' as int) + d - 10) as char
    }
}

/// A number in upper-case hexadecimal without leading zeros.
pub open spec fn upper_hex(x: u64) -> Seq<char>
    decreases x,
{
    if x < 16 {
        seq![hex_digit(x as int)]
    } else {
        upper_hex(x / 16) + seq![hex_digit((x % 16) as int)]
    }
}

/// The upper-case digit for a value below 16.
fn hex_char(d: u64) -> (c: char)
    requires
        d < 16,
    ensures
        c == hex_digit(d as int),
{
    let b: u8 = d as u8;
    if b < 10 {
        (48u8 + b) as char
    } else {
        (55u8 + b) as char
    }
}

/// `x` in upper-case hexadecimal without leading zeros, as `{:X}` writes
/// it.
pub(crate) fn format_upper_hex(x: u64) -> (s: String)
    ensures
        s@ == upper_hex(x),
{
    let mut digits: Vec<char> = Vec::new();
    let mut v: u64 = x;
    while v >= 16
        invariant
            upper_hex(x) == upper_hex(v) + digits@,
        decreases v,
    {
        let c = hex_char(v % 16);
        let ghost before = digits@;
        digits.insert(0, c);
        proof {
            assert(digits@ =~= seq![c] + before);
            assert(upper_hex(v) == upper_hex(v / 16) + seq![c]);
            assert(upper_hex(v / 16) + seq![c] + before =~= upper_hex(v / 16) + (seq![c] + before));
        }
        v = v / 16;
    }
    let c = hex_char(v);
    let ghost before = digits@;
    digits.insert(0, c);
    proof {
        assert(digits@ =~= seq![c] + before);
    }
    string_of_chars(&digits)
}

/// The strings one after the other.
pub open spec fn concat_all(parts: Seq<Seq<char>>) -> Seq<char>
    decreases parts.len(),
{
    if parts.len() == 0 {
        Seq::empty()
    } else {
        concat_all(parts.drop_last()) + parts.last()
    }
}

/// The digest of a set of ids: the ids sorted, joined, hashed and written
/// in upper-case hexadecimal.
pub open spec fn ids_digest(ids: Seq<Seq<char>>) -> Seq<char> {
    upper_hex(default_hash(concat_all(ids.sort_by(|a: Seq<char>, b: Seq<char>| chars_le(a, b)))))
}

/// The digest of the ids in `ids`; it depends only on which ids occur how
/// often, not on their order.
pub fn digest_ids(ids: Vec<String>) -> (r: String)
    ensures
        r@ == ids_digest(string_views(ids@)),
{
    let ghost orig = string_views(ids@);
    let mut ids = ids;
    sort_strings(&mut ids);
    proof {
        let leq = |a: Seq<char>, b: Seq<char>| chars_le(a, b);
        lemma_chars_le_total();
        orig.lemma_sort_by_ensures(leq);
        vstd::seq_lib::lemma_sorted_unique(string_views(ids@), orig.sort_by(leq), leq);
    }
    let mut joined = String::new();
    let mut i: usize = 0;
    while i < ids.len()
        invariant
            i <= ids@.len(),
            joined@ == concat_all(string_views(ids@).take(i as int)),
        decreases ids@.len() - i,
    {
        proof {
            assert(string_views(ids@).take(i + 1).drop_last() =~= string_views(ids@).take(i as int));
        }
        joined.append(ids[i].as_str());
        i = i + 1;
    }
    proof {
        assert(string_views(ids@).take(i as int) =~= string_views(ids@));
    }
    let h = hash_string(&joined);
    format_upper_hex(h)
}

/// The digest of a collection of ids depends only on which ids occur how
/// often, not on the order in which they are listed.
pub proof fn law_digest_ignores_order(a: Seq<Seq<char>>, b: Seq<Seq<char>>)
    requires
        a.to_multiset() == b.to_multiset(),
    ensures
        ids_digest(a) == ids_digest(b),
{
    let leq = |x: Seq<char>, y: Seq<char>| chars_le(x, y);
    lemma_chars_le_total();
    a.lemma_sort_by_ensures(leq);
    b.lemma_sort_by_ensures(leq);
    vstd::seq_lib::lemma_sorted_unique(a.sort_by(leq), b.sort_by(leq), leq);
}

} // verus!
