//! The library's own model of a JSON document: an ordered list of fields
//! whose values keep their original form (numbers as their source text),
//! so a retained document loses nothing. Textual emission is performed by
//! the embedding program; the model preserves field order and number text
//! so that emission can reproduce the source.
use vstd::prelude::*;

verus! {

/// A JSON value. Numbers are kept as text: the index logic never computes
/// with them, and keeping the text lets a retained document be emitted
/// without loss.
#[derive(Debug)]
pub enum JsonValue {
    Null,
    Bool(bool),
    Number(String),
    Str(String),
    Array(Vec<JsonValue>),
    Object(JsonObject),
}

/// One field of a JSON object.
#[derive(Debug)]
pub struct JsonField {
    pub key: String,
    pub value: JsonValue,
}

/// A JSON object: fields in their original order.
#[derive(Debug)]
pub struct JsonObject {
    pub entries: Vec<JsonField>,
}

impl JsonObject {
    /// The object's fields as key text and value, in order.
    pub open spec fn fields(&self) -> Seq<(Seq<char>, JsonValue)> {
        Seq::new(self.entries@.len(), |i: int| (self.entries@[i].key@, self.entries@[i].value))
    }
}

pub open spec fn has_key(es: Seq<(Seq<char>, JsonValue)>, key: Seq<char>) -> bool {
    exists|i: int| 0 <= i < es.len() && es[i].0 == key
}

/// `i` is the first entry with the given key.
pub open spec fn first_match(es: Seq<(Seq<char>, JsonValue)>, key: Seq<char>, i: int) -> bool {
    &&& 0 <= i < es.len()
    &&& es[i].0 == key
    &&& forall|j: int| 0 <= j < i ==> es[j].0 != key
}

pub open spec fn first_index(es: Seq<(Seq<char>, JsonValue)>, key: Seq<char>) -> int {
    choose|i: int| first_match(es, key, i)
}

/// The value of the first entry with the given key, if any.
pub open spec fn lookup(es: Seq<(Seq<char>, JsonValue)>, key: Seq<char>) -> Option<JsonValue> {
    if has_key(es, key) {
        Some(es[first_index(es, key)].1)
    } else {
        None
    }
}

/// A first match determines the lookup result.
pub proof fn lemma_first_match(es: Seq<(Seq<char>, JsonValue)>, key: Seq<char>, i: int)
    requires
        first_match(es, key, i),
    ensures
        lookup(es, key) == Some(es[i].1),
        first_index(es, key) == i,
{
    assert(has_key(es, key));
    let c = first_index(es, key);
    assert(first_match(es, key, c));
    if c < i {
        assert(es[c].0 != key);
    } else if c > i {
        assert(es[i].0 != key);
    }
}

/// No key means no match anywhere.
pub proof fn lemma_no_key(es: Seq<(Seq<char>, JsonValue)>, key: Seq<char>)
    requires
        !has_key(es, key),
    ensures
        lookup(es, key) is None,
        forall|i: int| 0 <= i < es.len() ==> es[i].0 != key,
{
}

/// Any match implies a first match exists.
pub proof fn lemma_first_exists(es: Seq<(Seq<char>, JsonValue)>, key: Seq<char>, w: int)
    requires
        0 <= w < es.len(),
        es[w].0 == key,
    ensures
        first_match(es, key, first_index(es, key)),
    decreases w,
{
    if forall|j: int| 0 <= j < w ==> es[j].0 != key {
        assert(first_match(es, key, w));
    } else {
        let j = choose|j: int| 0 <= j < w && es[j].0 == key;
        lemma_first_exists(es, key, j);
    }
}

/// Appending a fresh key sets its lookup and preserves every other.
pub proof fn lemma_push_lookup(es: Seq<(Seq<char>, JsonValue)>, key: Seq<char>, v: JsonValue)
    requires
        !has_key(es, key),
    ensures
        lookup(es.push((key, v)), key) == Some(v),
        forall|k: Seq<char>| k != key ==> lookup(es.push((key, v)), k) == lookup(es, k),
{
    let es2 = es.push((key, v));
    lemma_no_key(es, key);
    assert(first_match(es2, key, es.len() as int));
    lemma_first_match(es2, key, es.len() as int);
    assert forall|k: Seq<char>| k != key implies lookup(es2, k) == lookup(es, k) by {
        if has_key(es, k) {
            let w = choose|x: int| 0 <= x < es.len() && es[x].0 == k;
            lemma_first_exists(es, k, w);
            let i = first_index(es, k);
            assert(first_match(es, k, i));
            assert(first_match(es2, k, i));
            lemma_first_match(es2, k, i);
            lemma_first_match(es, k, i);
        } else {
            lemma_no_key(es, k);
            assert forall|i: int| 0 <= i < es2.len() implies es2[i].0 != k by {
                if i < es.len() {
                    assert(es[i].0 != k);
                }
            }
            assert(!has_key(es2, k));
        }
    }
}

/// Replacing the first entry of a key in place sets its lookup and
/// preserves every other.
pub proof fn lemma_update_lookup(
    es: Seq<(Seq<char>, JsonValue)>,
    key: Seq<char>,
    v: JsonValue,
    i: int,
)
    requires
        first_match(es, key, i),
    ensures
        lookup(es.update(i, (key, v)), key) == Some(v),
        forall|k: Seq<char>| k != key ==> lookup(es.update(i, (key, v)), k) == lookup(es, k),
{
    let es2 = es.update(i, (key, v));
    assert(first_match(es2, key, i));
    lemma_first_match(es2, key, i);
    assert forall|k: Seq<char>| k != key implies lookup(es2, k) == lookup(es, k) by {
        if has_key(es, k) {
            let w = choose|x: int| 0 <= x < es.len() && es[x].0 == k;
            lemma_first_exists(es, k, w);
            let j = first_index(es, k);
            assert(first_match(es, k, j));
            assert(es[i].0 == key);
            assert(j != i);
            assert(first_match(es2, k, j));
            lemma_first_match(es2, k, j);
            lemma_first_match(es, k, j);
        } else {
            lemma_no_key(es, k);
            assert forall|j: int| 0 <= j < es2.len() implies es2[j].0 != k by {
                if j != i {
                    assert(es[j].0 != k);
                }
            }
            assert(!has_key(es2, k));
        }
    }
}

impl JsonObject {
    /// An empty object.
    pub fn new() -> (r: Self)
        ensures
            r.fields() =~= Seq::<(Seq<char>, JsonValue)>::empty(),
    {
        JsonObject { entries: Vec::new() }
    }

    /// The fields in order; each entry pairs the key with its value.
    pub fn entries(&self) -> (r: &Vec<JsonField>)
        ensures
            r@.len() == self.fields().len(),
            forall|i: int| 0 <= i < r@.len() ==> self.fields()[i] == (r@[i].key@, r@[i].value),
    {
        &self.entries
    }

    /// The value of the first field named `key`, if any.
    pub fn get(&self, key: &str) -> (r: Option<&JsonValue>)
        ensures
            r is Some <==> has_key(self.fields(), key@),
            r matches Some(v) ==> lookup(self.fields(), key@) == Some(*v),
    {
        let n = self.entries.len();
        let mut i: usize = 0;
        while i < n
            invariant
                n == self.entries@.len(),
                i <= n,
                forall|j: int| 0 <= j < i ==> self.fields()[j].0 != key@,
            decreases n - i,
        {
            if crate::version::str_eq(self.entries[i].key.as_str(), key) {
                proof {
                    assert(first_match(self.fields(), key@, i as int));
                    lemma_first_match(self.fields(), key@, i as int);
                }
                return Some(&self.entries[i].value);
            }
            i = i + 1;
        }
        None
    }

    /// Appends a field at the end, whatever keys exist: the builder used
    /// when a document is reassembled entry for entry.
    pub fn push_entry(&mut self, key: String, value: JsonValue)
        ensures
            final(self).entries@ == old(self).entries@.push(JsonField { key, value }),
            final(self).fields() == old(self).fields().push((key@, value)),
    {
        self.entries.push(JsonField { key, value });
        proof {
            assert(self.fields() =~= old(self).fields().push((key@, value)));
        }
    }

    /// Sets the field `key` to `value`: replaces the first entry with that
    /// key in place, keeping field order, or appends a new entry.
    pub fn insert(&mut self, key: &str, value: JsonValue)
        ensures
            !has_key(old(self).fields(), key@) ==> final(self).fields() == old(self).fields().push((key@, value)),
            forall|i: int|
                first_match(old(self).fields(), key@, i) ==> final(self).fields() == old(self).fields().update(
                    i,
                    (key@, value),
                ),
    {
        let n = self.entries.len();
        let mut i: usize = 0;
        while i < n
            invariant
                n == self.entries@.len(),
                i <= n,
                *self == *old(self),
                forall|j: int| 0 <= j < i ==> self.fields()[j].0 != key@,
            decreases n - i,
        {
            if crate::version::str_eq(self.entries[i].key.as_str(), key) {
                proof {
                    assert(first_match(old(self).fields(), key@, i as int));
                }
                self.entries.set(i, JsonField { key: key.to_owned(), value });
                proof {
                    assert(self.fields() =~= old(self).fields().update(i as int, (key@, value)));
                    assert forall|j: int| first_match(old(self).fields(), key@, j) implies j == i as int by {
                        if j < i {
                            assert(old(self).fields()[j].0 != key@);
                        } else if j > i {
                            assert(old(self).fields()[i as int].0 != key@);
                        }
                    }
                }
                return ;
            }
            i = i + 1;
        }
        self.entries.push(JsonField { key: key.to_owned(), value });
        proof {
            assert(self.fields() =~= old(self).fields().push((key@, value)));
        }
    }
}

} // verus!
