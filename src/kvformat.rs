//! The mathematical model of a key-value parameter buffer and of its wire
//! format.
//!
//! A buffer is listed as a sequence of `(key, value)` entries with pairwise
//! distinct keys. Each entry is written as the key's UTF-8 bytes, one space,
//! the value's UTF-8 bytes and one newline; a non-empty buffer ends with one
//! more newline, and an empty buffer is written as no bytes at all.

use vstd::prelude::*;
use vstd::utf8::encode_utf8;

verus! {

/// One entry of a buffer, as the characters of its key and of its value.
pub type Entry = (Seq<char>, Seq<char>);

/// The byte that separates a key from its value.
pub const SEPARATOR: u8 = 0x20;

/// The byte that ends each line.
pub const TERMINATOR: u8 = 0x0A;

/// Number of bytes of the UTF-8 encoding of `s`.
pub open spec fn text_len(s: Seq<char>) -> nat {
    encode_utf8(s).len()
}

/// Number of bytes of the line that holds entry `e`.
pub open spec fn line_len(e: Entry) -> nat {
    text_len(e.0) + 1 + text_len(e.1) + 1
}

/// Number of bytes of the lines of all entries of `s`.
pub open spec fn lines_len(s: Seq<Entry>) -> nat
    decreases s.len(),
{
    if s.len() == 0 {
        0
    } else {
        lines_len(s.drop_last()) + line_len(s.last())
    }
}

/// Number of bytes of the serialized form of the entries `s`.
pub open spec fn serialized_size(s: Seq<Entry>) -> nat {
    if s.len() == 0 {
        0
    } else {
        lines_len(s) + 1
    }
}

/// The bytes of the line that holds entry `e`.
pub open spec fn line_bytes(e: Entry) -> Seq<u8> {
    encode_utf8(e.0) + seq![SEPARATOR] + encode_utf8(e.1) + seq![TERMINATOR]
}

/// The bytes of the lines of all entries of `s`, in order.
pub open spec fn lines_bytes(s: Seq<Entry>) -> Seq<u8>
    decreases s.len(),
{
    if s.len() == 0 {
        Seq::empty()
    } else {
        lines_bytes(s.drop_last()) + line_bytes(s.last())
    }
}

/// The serialized form of the entries `s`, in their order.
pub open spec fn serialize(s: Seq<Entry>) -> Seq<u8> {
    if s.len() == 0 {
        Seq::empty()
    } else {
        lines_bytes(s).push(TERMINATOR)
    }
}

/// No two entries of `s` have the same key.
pub open spec fn distinct_keys(s: Seq<Entry>) -> bool {
    forall|i: int, j: int| 0 <= i < j < s.len() ==> #[trigger] s[i].0 != #[trigger] s[j].0
}

/// The mapping from key to value that the entries `s` describe.
pub open spec fn map_of(s: Seq<Entry>) -> Map<Seq<char>, Seq<char>>
    decreases s.len(),
{
    if s.len() == 0 {
        Map::empty()
    } else {
        map_of(s.drop_last()).insert(s.last().0, s.last().1)
    }
}

/// `s` lists the entries of the mapping `m`, each once.
pub open spec fn lists(s: Seq<Entry>, m: Map<Seq<char>, Seq<char>>) -> bool {
    distinct_keys(s) && map_of(s) == m
}

/// Number of bytes of the serialized form of a buffer that holds the
/// mapping `m`, whatever the order in which its entries are listed.
pub open spec fn size_of_map(m: Map<Seq<char>, Seq<char>>) -> nat {
    serialized_size(choose|s: Seq<Entry>| lists(s, m))
}

/// A key is in the mapping of `s` exactly when some entry of `s` has it.
pub proof fn lemma_map_of_contains(s: Seq<Entry>, k: Seq<char>)
    ensures
        map_of(s).contains_key(k) <==> exists|i: int| 0 <= i < s.len() && #[trigger] s[i].0 == k,
    decreases s.len(),
{
    if s.len() > 0 {
        let t = s.drop_last();
        lemma_map_of_contains(t, k);
        if map_of(s).contains_key(k) && k != s.last().0 {
            let i = choose|i: int| 0 <= i < t.len() && #[trigger] t[i].0 == k;
            assert(s[i].0 == k);
        }
        if exists|i: int| 0 <= i < s.len() && #[trigger] s[i].0 == k {
            let i = choose|i: int| 0 <= i < s.len() && #[trigger] s[i].0 == k;
            if i < s.len() - 1 {
                assert(t[i].0 == k);
            }
        }
    }
}

/// In the mapping of entries with distinct keys, each key maps to the value
/// of its entry.
pub proof fn lemma_map_of_value(s: Seq<Entry>, i: int)
    requires
        distinct_keys(s),
        0 <= i < s.len(),
    ensures
        map_of(s).contains_key(s[i].0),
        map_of(s)[s[i].0] == s[i].1,
    decreases s.len(),
{
    if i < s.len() - 1 {
        let t = s.drop_last();
        assert(t[i] == s[i]);
        lemma_map_of_value(t, i);
    }
}

/// Removing an entry from a list with distinct keys removes its key from
/// the mapping.
pub proof fn lemma_map_of_remove(s: Seq<Entry>, j: int)
    requires
        distinct_keys(s),
        0 <= j < s.len(),
    ensures
        distinct_keys(s.remove(j)),
        map_of(s.remove(j)) == map_of(s).remove(s[j].0),
    decreases s.len(),
{
    let r = s.remove(j);
    assert forall|a: int, b: int| 0 <= a < b < r.len() implies #[trigger] r[a].0 != #[trigger] r[b].0 by {
        let a2 = if a < j { a } else { a + 1 };
        let b2 = if b < j { b } else { b + 1 };
        assert(r[a] == s[a2]);
        assert(r[b] == s[b2]);
    }
    let t = s.drop_last();
    if j == s.len() - 1 {
        assert(r =~= t);
        lemma_map_of_contains(t, s[j].0);
        assert(map_of(r) =~= map_of(s).remove(s[j].0));
    } else {
        assert(distinct_keys(t));
        lemma_map_of_remove(t, j);
        assert(r.drop_last() =~= t.remove(j));
        assert(r.last() == s.last());
        assert(s[j].0 != s.last().0);
        assert(map_of(r) =~= map_of(s).remove(s[j].0));
    }
}

/// Giving an entry a new value changes only that key in the mapping.
pub proof fn lemma_map_of_update(s: Seq<Entry>, j: int, v: Seq<char>)
    requires
        distinct_keys(s),
        0 <= j < s.len(),
    ensures
        distinct_keys(s.update(j, (s[j].0, v))),
        map_of(s.update(j, (s[j].0, v))) == map_of(s).insert(s[j].0, v),
    decreases s.len(),
{
    let u = s.update(j, (s[j].0, v));
    assert forall|a: int, b: int| 0 <= a < b < u.len() implies #[trigger] u[a].0 != #[trigger] u[b].0 by {
        assert(u[a].0 == s[a].0);
        assert(u[b].0 == s[b].0);
    }
    let t = s.drop_last();
    if j == s.len() - 1 {
        assert(u.drop_last() =~= t);
        assert(map_of(u) =~= map_of(s).insert(s[j].0, v));
    } else {
        lemma_map_of_update(t, j, v);
        assert(u.drop_last() =~= t.update(j, (s[j].0, v)));
        assert(s[j].0 != s.last().0);
        assert(map_of(u) =~= map_of(s).insert(s[j].0, v));
    }
}

/// Appending an entry with a new key keeps the keys distinct and adds it
/// to the mapping.
pub proof fn lemma_map_of_push(s: Seq<Entry>, e: Entry)
    requires
        distinct_keys(s),
        forall|i: int| 0 <= i < s.len() ==> #[trigger] s[i].0 != e.0,
    ensures
        distinct_keys(s.push(e)),
        map_of(s.push(e)) == map_of(s).insert(e.0, e.1),
{
    let p = s.push(e);
    assert forall|a: int, b: int| 0 <= a < b < p.len() implies #[trigger] p[a].0 != #[trigger] p[b].0 by {
        assert(p[a] == s[a]);
    }
    assert(p.drop_last() =~= s);
}

/// Removing one entry takes its line's bytes out of the total.
pub proof fn lemma_lines_len_remove(s: Seq<Entry>, j: int)
    requires
        0 <= j < s.len(),
    ensures
        lines_len(s) == lines_len(s.remove(j)) + line_len(s[j]),
    decreases s.len(),
{
    let r = s.remove(j);
    let t = s.drop_last();
    if j == s.len() - 1 {
        assert(r =~= t);
    } else {
        lemma_lines_len_remove(t, j);
        assert(r.drop_last() =~= t.remove(j));
        assert(r.last() == s.last());
    }
}

/// The lines of a prefix never take more bytes than the lines of the whole.
pub proof fn lemma_lines_len_prefix(s: Seq<Entry>, n: int)
    requires
        0 <= n <= s.len(),
    ensures
        lines_len(s.take(n)) <= lines_len(s),
    decreases s.len() - n,
{
    if n < s.len() {
        lemma_lines_len_prefix(s, n + 1);
        assert(s.take(n + 1).drop_last() =~= s.take(n));
    } else {
        assert(s.take(n) =~= s);
    }
}

/// Two listings of one mapping have lines of the same total length.
proof fn lemma_lines_len_same_map(s1: Seq<Entry>, s2: Seq<Entry>)
    requires
        distinct_keys(s1),
        distinct_keys(s2),
        map_of(s1) == map_of(s2),
    ensures
        lines_len(s1) == lines_len(s2),
        s1.len() == s2.len(),
    decreases s1.len(),
{
    if s1.len() == 0 {
        if s2.len() > 0 {
            lemma_map_of_value(s2, 0);
        }
    } else {
        let e = s1.last();
        let n = s1.len() - 1;
        lemma_map_of_value(s1, n);
        lemma_map_of_contains(s2, e.0);
        let j = choose|j: int| 0 <= j < s2.len() && #[trigger] s2[j].0 == e.0;
        lemma_map_of_value(s2, j);
        assert(s2[j] == e);
        lemma_map_of_remove(s1, n);
        lemma_map_of_remove(s2, j);
        assert(s1.remove(n) =~= s1.drop_last());
        lemma_lines_len_same_map(s1.drop_last(), s2.remove(j));
        lemma_lines_len_remove(s2, j);
    }
}

/// The size of a buffer does not depend on the order in which its entries
/// were inserted: any two listings of the same key/value set, each key once,
/// serialize to the same number of bytes.
pub proof fn lemma_size_order_independent(s1: Seq<Entry>, s2: Seq<Entry>)
    requires
        distinct_keys(s1),
        distinct_keys(s2),
        map_of(s1) == map_of(s2),
    ensures
        serialized_size(s1) == serialized_size(s2),
{
    lemma_lines_len_same_map(s1, s2);
}

/// The size of a mapping is the size of any listing of it.
pub proof fn lemma_size_of_listing(s: Seq<Entry>)
    requires
        distinct_keys(s),
    ensures
        size_of_map(map_of(s)) == serialized_size(s),
{
    let m = map_of(s);
    assert(lists(s, m));
    let c = choose|c: Seq<Entry>| lists(c, m);
    lemma_size_order_independent(c, s);
}

/// The lines of the entries take exactly as many bytes as counted.
pub proof fn lemma_lines_bytes_len(s: Seq<Entry>)
    ensures
        lines_bytes(s).len() == lines_len(s),
    decreases s.len(),
{
    if s.len() > 0 {
        lemma_lines_bytes_len(s.drop_last());
    }
}

/// The serialized form of any listing is exactly as long as its computed
/// size.
pub proof fn lemma_serialized_len(s: Seq<Entry>)
    ensures
        serialize(s).len() == serialized_size(s),
{
    lemma_lines_bytes_len(s);
}

} // verus!
