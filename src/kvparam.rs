//! Key-value parameter buffers, sometimes used as metadata buffers attached
//! to messages.

use std::collections::HashMap;
use std::str::FromStr;

use bytes::{BufMut, BytesMut};
use vstd::prelude::*;
use vstd::string::StringExecFns;

use crate::err::Error;
use crate::kvformat::{
    distinct_keys, lemma_lines_bytes_len, lemma_lines_len_prefix, lemma_map_of_contains,
    lemma_map_of_push, lemma_map_of_update, lemma_map_of_value, lemma_serialized_len,
    lemma_size_of_listing, lines_bytes, lines_len, lists, map_of, serialize, serialized_size,
    size_of_map, Entry, SEPARATOR, TERMINATOR,
};

verus! {

/// `bytes::BytesMut`, the growable byte sink that buffers are written to.
#[verifier::external_type_specification]
#[verifier::external_body]
pub struct ExBytesMut(BytesMut);

/// The bytes that a `BytesMut` holds.
pub uninterp spec fn bytes_held(b: BytesMut) -> Seq<u8>;

/// Relies on `BytesMut::len`: the number of bytes held, which never exceeds
/// `isize::MAX` (the largest allocation).
#[verifier::external_body]
fn sink_len(b: &BytesMut) -> (r: usize)
    ensures
        r == bytes_held(*b).len(),
        r <= isize::MAX,
{
    b.len()
}

/// Relies on `BytesMut::reserve`: makes room for more bytes and leaves the
/// held bytes as they are; it panics only when the capacity overflows.
#[verifier::external_body]
fn sink_reserve(b: &mut BytesMut, additional: usize)
    requires
        bytes_held(*old(b)).len() + additional <= isize::MAX,
    ensures
        bytes_held(*final(b)) == bytes_held(*old(b)),
{
    b.reserve(additional)
}

/// Relies on `<BytesMut as BufMut>::put_slice`: appends the bytes of `src`;
/// it panics only past `isize::MAX` bytes in all.
#[verifier::external_body]
fn sink_put_slice(b: &mut BytesMut, src: &[u8])
    requires
        bytes_held(*old(b)).len() + src@.len() <= isize::MAX,
    ensures
        bytes_held(*final(b)) == bytes_held(*old(b)) + src@,
{
    b.put_slice(src)
}

/// Relies on `BufMut::put_u8`: appends one byte; it panics only past
/// `isize::MAX` bytes in all.
#[verifier::external_body]
fn sink_put_u8(b: &mut BytesMut, n: u8)
    requires
        bytes_held(*old(b)).len() + 1 <= isize::MAX,
    ensures
        bytes_held(*final(b)) == bytes_held(*old(b)).push(n),
{
    b.put_u8(n)
}

/// The entries of owned pairs, as characters.
pub open spec fn entries_view(v: Seq<(String, String)>) -> Seq<Entry> {
    v.map_values(|p: (String, String)| (p.0@, p.1@))
}

/// The entries of borrowed pairs, as characters.
pub open spec fn borrowed_entries_view(v: Seq<(&String, &String)>) -> Seq<Entry> {
    v.map_values(|p: (&String, &String)| (p.0@, p.1@))
}

/// Relies on `HashMap::into_iter`: it yields every entry of the map once,
/// and the keys of a map are distinct strings.
#[verifier::external_body]
fn hashmap_into_entries(hm: HashMap<String, String>) -> (r: Vec<(String, String)>)
    ensures
        lists(entries_view(r@), hm.deep_view()),
{
    hm.into_iter().collect()
}

/// Relies on `HashMap::iter`: it yields every entry of the map once, and
/// the keys of a map are distinct strings.
#[verifier::external_body]
fn hashmap_entry_refs(hm: &HashMap<String, String>) -> (r: Vec<(&String, &String)>)
    ensures
        lists(borrowed_entries_view(r@), hm.deep_view()),
{
    hm.iter().collect()
}

/// Relies on `HashMap::from_iter`: a map built from pairs with distinct keys
/// holds each pair.
#[verifier::external_body]
fn entries_into_hashmap(v: Vec<(String, String)>) -> (r: HashMap<String, String>)
    requires
        distinct_keys(entries_view(v@)),
    ensures
        r.deep_view() == map_of(entries_view(v@)),
{
    v.into_iter().collect()
}

/// Relies on `FromStr::from_str`: the parsed value, or `None` where the
/// text is not one; what a type accepts is up to its own impl.
#[verifier::external_body]
fn parse_text<T: FromStr>(s: &str) -> (r: Option<T>) {
    T::from_str(s).ok()
}

/// The text of the error for a value of `key` that is not a number.
pub open spec fn bad_number_text(key: Seq<char>) -> Seq<char> {
    "Unable to parse numeric value from parameter '"@ + key + "'"@
}

/// A list of unique keys, each with a string value, that can be serialized
/// to a line-oriented text format.
pub struct KVParams {
    entries: Vec<(String, String)>,
}

impl View for KVParams {
    type V = Map<Seq<char>, Seq<char>>;

    open spec fn view(&self) -> Map<Seq<char>, Seq<char>> {
        map_of(self.listing())
    }
}

impl KVParams {
    /// The entries, in the order in which they are serialized.
    pub closed spec fn listing(&self) -> Seq<Entry> {
        entries_view(self.entries@)
    }

    /// Each key is held once.
    pub open spec fn wf(&self) -> bool {
        distinct_keys(self.listing())
    }

    /// Initialize a new, empty key/value parameters object.
    pub fn new() -> (r: Self)
        ensures
            r.wf(),
            r@ == Map::<Seq<char>, Seq<char>>::empty(),
            r.listing().len() == 0,
    {
        KVParams { entries: Vec::new() }
    }

    /// Take ownership of a map and create a key-value parameter object from
    /// it.
    pub fn from_hashmap(hm: HashMap<String, String>) -> (r: Self)
        ensures
            r.wf(),
            r@ == hm.deep_view(),
    {
        KVParams { entries: hashmap_into_entries(hm) }
    }

    /// The exact size of the serialized form of this buffer, in bytes; 0 if
    /// there are no entries.
    pub fn calc_buf_size(&self) -> (r: usize)
        requires
            self.wf(),
            size_of_map(self@) <= usize::MAX,
        ensures
            r == size_of_map(self@),
            r == serialized_size(self.listing()),
            r == 0 <==> self@.is_empty(),
    {
        proof {
            lemma_size_of_listing(self.listing());
            if self.listing().len() > 0 {
                lemma_map_of_contains(self.listing(), self.listing()[0].0);
            }
        }
        entries_size(&self.entries)
    }

    /// Consume the object and return its entries as a map.
    pub fn into_inner(self) -> (r: HashMap<String, String>)
        requires
            self.wf(),
        ensures
            r.deep_view() == self@,
    {
        entries_into_hashmap(self.entries)
    }

    /// Position of the entry with key `key`, if there is one.
    fn find(&self, key: &String) -> (r: Option<usize>)
        requires
            self.wf(),
        ensures
            match r {
                Some(i) => i < self.listing().len() && self.listing()[i as int].0 == key@,
                None => !self@.contains_key(key@),
            },
    {
        let mut i: usize = 0;
        while i < self.entries.len()
            invariant
                i <= self.entries.len(),
                forall|j: int| 0 <= j < i ==> #[trigger] self.listing()[j].0 != key@,
            decreases self.entries.len() - i,
        {
            if self.entries[i].0 == *key {
                return Some(i);
            }
            i += 1;
        }
        proof {
            lemma_map_of_contains(self.listing(), key@);
        }
        None
    }

    /// Add a parameter; a key that is already present takes the new value.
    pub fn add_param(&mut self, key: &str, value: &str)
        requires
            old(self).wf(),
        ensures
            final(self).wf(),
            final(self)@ == old(self)@.insert(key@, value@),
    {
        let k = <String as StringExecFns>::from_str(key);
        let v = <String as StringExecFns>::from_str(value);
        match self.find(&k) {
            Some(i) => {
                proof {
                    lemma_map_of_update(self.listing(), i as int, v@);
                }
                self.entries.set(i, (k, v));
                proof {
                    assert(self.listing() =~= old(self).listing().update(
                        i as int,
                        (old(self).listing()[i as int].0, v@),
                    ));
                }
            },
            None => {
                proof {
                    assert forall|j: int| 0 <= j < self.listing().len() implies #[trigger] self.listing()[j].0 != k@ by {
                        lemma_map_of_contains(self.listing(), k@);
                    }
                    lemma_map_of_push(self.listing(), (k@, v@));
                }
                self.entries.push((k, v));
                proof {
                    assert(self.listing() =~= old(self).listing().push((key@, value@)));
                }
            },
        }
    }

    /// The value of a key, or `None` if the key is not present.
    pub fn get_param(&self, key: &str) -> (r: Option<&str>)
        requires
            self.wf(),
        ensures
            match r {
                Some(v) => self@.contains_key(key@) && v@ == self@[key@],
                None => !self@.contains_key(key@),
            },
    {
        let k = <String as StringExecFns>::from_str(key);
        match self.find(&k) {
            Some(i) => {
                proof {
                    lemma_map_of_value(self.listing(), i as int);
                }
                Some(self.entries[i].1.as_str())
            },
            None => None,
        }
    }

    /// The value of a key, or `None` if the key is not present.
    pub fn get_str(&self, key: &str) -> (r: Option<&str>)
        requires
            self.wf(),
        ensures
            match r {
                Some(v) => self@.contains_key(key@) && v@ == self@[key@],
                None => !self@.contains_key(key@),
            },
    {
        self.get_param(key)
    }

    /// The value of a key, parsed as a `T`.
    ///
    /// A missing key gives `KeyNotFound` with the key; a value that `T`
    /// does not accept gives `BadFormat`, naming the key.
    pub fn get_int<T: FromStr>(&self, key: &str) -> (r: Result<T, Error>)
        requires
            self.wf(),
        ensures
            !self@.contains_key(key@) <==> r is Err && r->Err_0 is KeyNotFound,
            match r {
                Ok(_) => true,
                Err(Error::KeyNotFound(k)) => k@ == key@,
                Err(Error::BadFormat(m)) => m@ == bad_number_text(key@),
                Err(_) => false,
            },
    {
        match self.get_str(key) {
            Some(val) => parsed_value(key, parse_text::<T>(val)),
            None => Err(Error::KeyNotFound(<String as StringExecFns>::from_str(key))),
        }
    }

    /// Append the serialized form of this buffer to `buf`.
    ///
    /// An empty buffer appends nothing. Otherwise each entry becomes a line
    /// of the key, a space and the value, and one empty line ends the
    /// buffer. Fails, leaving `buf` as it was, where `buf` cannot hold that
    /// many more bytes.
    pub fn write_bytes(&self, buf: &mut BytesMut) -> (r: Result<(), Error>)
        requires
            self.wf(),
            size_of_map(self@) <= usize::MAX,
        ensures
            r is Err <==> bytes_held(*old(buf)).len() + size_of_map(self@) > isize::MAX,
            match r {
                Ok(()) => bytes_held(*final(buf)) == bytes_held(*old(buf)) + serialize(
                    self.listing(),
                ),
                Err(e) => bytes_held(*final(buf)) == bytes_held(*old(buf)) && e is SerializeError,
            },
    {
        let ghost start = bytes_held(*buf);
        let ghost s = self.listing();
        let sz = self.calc_buf_size();
        let held = sink_len(buf);
        if sz == 0 {
            proof {
                assert(bytes_held(*buf) =~= start + serialize(s));
            }
            return Ok(());
        }
        if sz > isize::MAX as usize - held {
            return Err(Error::SerializeError(<String as StringExecFns>::from_str("buffer cannot hold the parameters")));
        }
        sink_reserve(buf, sz);
        let mut i: usize = 0;
        while i < self.entries.len()
            invariant
                i <= self.entries.len(),
                s == self.listing(),
                s.len() == self.entries@.len(),
                sz == lines_len(s) + 1,
                start.len() + sz <= isize::MAX,
                bytes_held(*buf) == start + lines_bytes(s.take(i as int)),
            decreases self.entries.len() - i,
        {
            proof {
                lemma_lines_len_prefix(s, i + 1);
                lemma_lines_bytes_len(s.take(i + 1));
                assert(s.take(i + 1).drop_last() =~= s.take(i as int));
            }
            let key = self.entries[i].0.as_str().as_bytes();
            let value = self.entries[i].1.as_str().as_bytes();
            sink_put_slice(buf, key);
            sink_put_u8(buf, SEPARATOR);
            sink_put_slice(buf, value);
            sink_put_u8(buf, TERMINATOR);
            proof {
                assert(bytes_held(*buf) =~= start + lines_bytes(s.take(i + 1)));
            }
            i += 1;
        }
        proof {
            assert(s.take(i as int) =~= s);
            lemma_lines_bytes_len(s);
        }
        sink_put_u8(buf, TERMINATOR);
        proof {
            assert(bytes_held(*buf) =~= start + serialize(s));
        }
        Ok(())
    }
}

/// The serialized form of a buffer is exactly as long as its calculated
/// size, whatever state the buffer is in.
pub proof fn lemma_written_len_is_size(p: &KVParams)
    requires
        p.wf(),
    ensures
        serialize(p.listing()).len() == size_of_map(p@),
{
    lemma_serialized_len(p.listing());
    lemma_size_of_listing(p.listing());
}

/// Setting a key twice leaves it once, with the value of the second call:
/// the buffer then holds what one call with that value gives.
pub proof fn lemma_last_write_wins(
    m: Map<Seq<char>, Seq<char>>,
    k: Seq<char>,
    v1: Seq<char>,
    v2: Seq<char>,
)
    ensures
        m.insert(k, v1).insert(k, v2) == m.insert(k, v2),
        m.insert(k, v1).insert(k, v2)[k] == v2,
{
    assert(m.insert(k, v1).insert(k, v2) =~= m.insert(k, v2));
}

/// The result of a typed lookup of `key` whose value parsed to `parsed`:
/// the value, or `BadFormat` naming the key where it did not parse.
pub fn parsed_value<T>(key: &str, parsed: Option<T>) -> (r: Result<T, Error>)
    ensures
        match parsed {
            Some(v) => r == Ok::<T, Error>(v),
            None => r is Err && r->Err_0 is BadFormat && r->Err_0->BadFormat_0@ == bad_number_text(
                key@,
            ),
        },
{
    match parsed {
        Some(v) => Ok(v),
        None => {
            let mut m = <String as StringExecFns>::from_str("Unable to parse numeric value from parameter '");
            m.append(key);
            m.append("'");
            Err(Error::BadFormat(m))
        },
    }
}

/// Number of bytes of the serialized form of owned entries.
fn entries_size(entries: &Vec<(String, String)>) -> (r: usize)
    requires
        serialized_size(entries_view(entries@)) <= usize::MAX,
    ensures
        r == serialized_size(entries_view(entries@)),
{
    let ghost s = entries_view(entries@);
    if entries.len() == 0 {
        return 0;
    }
    let mut sz: usize = 0;
    let mut i: usize = 0;
    while i < entries.len()
        invariant
            i <= entries.len(),
            s == entries_view(entries@),
            s.len() == entries@.len(),
            sz == lines_len(s.take(i as int)),
            lines_len(s) + 1 <= usize::MAX,
        decreases entries.len() - i,
    {
        proof {
            lemma_lines_len_prefix(s, i + 1);
            assert(s.take(i + 1).drop_last() =~= s.take(i as int));
        }
        let k = entries[i].0.as_str().len();
        let v = entries[i].1.as_str().len();
        sz = sz + k + 1 + v + 1;
        i += 1;
    }
    proof {
        assert(s.take(i as int) =~= s);
    }
    sz + 1
}

/// Number of bytes of the serialized form of borrowed entries.
fn borrowed_entries_size(entries: &Vec<(&String, &String)>) -> (r: usize)
    requires
        serialized_size(borrowed_entries_view(entries@)) <= usize::MAX,
    ensures
        r == serialized_size(borrowed_entries_view(entries@)),
{
    let ghost s = borrowed_entries_view(entries@);
    if entries.len() == 0 {
        return 0;
    }
    let mut sz: usize = 0;
    let mut i: usize = 0;
    while i < entries.len()
        invariant
            i <= entries.len(),
            s == borrowed_entries_view(entries@),
            s.len() == entries@.len(),
            sz == lines_len(s.take(i as int)),
            lines_len(s) + 1 <= usize::MAX,
        decreases entries.len() - i,
    {
        proof {
            lemma_lines_len_prefix(s, i + 1);
            assert(s.take(i + 1).drop_last() =~= s.take(i as int));
        }
        let k = entries[i].0.as_str().len();
        let v = entries[i].1.as_str().len();
        sz = sz + k + 1 + v + 1;
        i += 1;
    }
    proof {
        assert(s.take(i as int) =~= s);
    }
    sz + 1
}

/// The exact size of the serialized form of a parameter map, in bytes.
///
/// An empty map has size 0: no terminating line is written for it.
pub fn calc_buf_size(params: &HashMap<String, String>) -> (r: usize)
    requires
        size_of_map(params.deep_view()) <= usize::MAX,
    ensures
        r == size_of_map(params.deep_view()),
{
    let entries = hashmap_entry_refs(params);
    proof {
        lemma_size_of_listing(borrowed_entries_view(entries@));
    }
    borrowed_entries_size(&entries)
}

} // verus!
