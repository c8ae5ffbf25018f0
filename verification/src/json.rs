//! A plain model of JSON values, rich enough to hold what the remote
//! service's responses carry.  Numbers keep their literal notation: nothing
//! in this library reads them.  Object fields keep their response order, and
//! a field lookup takes the first entry bearing the name.

use vstd::prelude::*;
use crate::strutil::str_eq;

verus! {

/// A JSON value.
#[derive(Debug)]
pub enum Json {
    /// `null`.
    Null,
    /// `true` or `false`.
    Bool(bool),
    /// A number, kept in its literal notation.
    Number(String),
    /// A string.
    Text(String),
    /// An array, in order.
    Array(Vec<Json>),
    /// An object: fields in order, the first entry of a name authoritative.
    Object(Vec<(String, Json)>),
}

/// The value of the first entry bearing `key`, if any.
pub open spec fn spec_obj_lookup(entries: Seq<(String, Json)>, key: Seq<char>) -> Option<Json>
    decreases entries.len(),
{
    if entries.len() == 0 {
        None
    } else if entries[0].0@ == key {
        Some(entries[0].1)
    } else {
        spec_obj_lookup(entries.drop_first(), key)
    }
}

/// Field lookup: `None` unless `j` is an object holding the field.
pub open spec fn spec_get(j: Json, key: Seq<char>) -> Option<Json> {
    match j {
        Json::Object(entries) => spec_obj_lookup(entries@, key),
        _ => None,
    }
}

/// Lookup two levels deep.
pub open spec fn spec_get2(j: Json, k1: Seq<char>, k2: Seq<char>) -> Option<Json> {
    match spec_get(j, k1) {
        Some(v) => spec_get(v, k2),
        None => None,
    }
}

proof fn lemma_obj_lookup_from(entries: Seq<(String, Json)>, key: Seq<char>, t: int)
    requires
        0 <= t <= entries.len(),
        forall|u: int| 0 <= u < t ==> entries[u].0@ != key,
    ensures
        spec_obj_lookup(entries, key) == spec_obj_lookup(entries.skip(t), key),
    decreases t,
{
    if t > 0 {
        let tail = entries.drop_first();
        assert forall|u: int| 0 <= u < t - 1 implies tail[u].0@ != key by {
            assert(tail[u] == entries[u + 1]);
        }
        lemma_obj_lookup_from(tail, key, t - 1);
        assert(tail.skip(t - 1) =~= entries.skip(t));
    } else {
        assert(entries.skip(0) =~= entries);
    }
}

impl Json {
    /// The field named `key`, when this value is an object holding it.
    pub fn get<'a>(&'a self, key: &str) -> (r: Option<&'a Json>)
        ensures
            match r {
                Some(v) => spec_get(*self, key@) == Some(*v),
                None => spec_get(*self, key@) is None,
            },
    {
        match self {
            Json::Object(entries) => {
                let k = entries.len();
                let mut t: usize = 0;
                while t < k
                    invariant
                        *self == Json::Object(*entries),
                        k == entries@.len(),
                        t <= k,
                        forall|u: int| 0 <= u < t ==> entries@[u].0@ != key@,
                    decreases k - t,
                {
                    if str_eq(entries[t].0.as_str(), key) {
                        proof {
                            lemma_obj_lookup_from(entries@, key@, t as int);
                            assert(entries@.skip(t as int)[0] == entries@[t as int]);
                        }
                        return Some(&entries[t].1);
                    }
                    t += 1;
                }
                proof {
                    lemma_obj_lookup_from(entries@, key@, entries@.len() as int);
                    assert(entries@.skip(entries@.len() as int) =~= Seq::<
                        (String, Json),
                    >::empty());
                }
                None
            },
            _ => None,
        }
    }

    /// The held string, when this value is a string.
    pub fn as_text(&self) -> (r: Option<&String>)
        ensures
            match r {
                Some(s) => *self is Text && *self == Json::Text(*s),
                None => !(*self is Text),
            },
    {
        match self {
            Json::Text(s) => Some(s),
            _ => None,
        }
    }
}

} // verus!
