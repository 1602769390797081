//! A JSON document as a value of this library: what a puzzle file holds, as
//! far as the loader reads it.
use vstd::prelude::*;

verus! {

/// A JSON document.
#[derive(Debug)]
pub enum Json {
    Null,
    Bool(bool),
    /// A number that is a whole number from 0 to 2^64 - 1.
    Count(u64),
    /// Any other number: negative, with a fraction, or beyond 2^64 - 1.
    OtherNumber,
    Text(String),
    Array(Vec<Json>),
    /// The members in the order in which they were written. Where a key
    /// occurs more than once, its last member counts.
    Object(Vec<(String, Json)>),
}

/// The mathematical content of a [`Json`] document.
pub ghost enum JsonValue {
    Null,
    Bool(bool),
    Count(nat),
    OtherNumber,
    Text(Seq<char>),
    Array(Seq<JsonValue>),
    Object(Map<Seq<char>, JsonValue>),
}

/// The map that the first `n` members of an object make: each member is
/// entered under its key, a later member replacing an earlier one.
pub open spec fn members(entries: Seq<(String, Json)>, n: nat) -> Map<Seq<char>, JsonValue>
    decreases entries, n,
{
    if n == 0 || n > entries.len() {
        Map::empty()
    } else {
        members(entries, (n - 1) as nat).insert(entries[n - 1].0@, entries[n - 1].1.view())
    }
}

/// The documents of the first `n` items of a list.
pub open spec fn listed(items: Seq<Json>, n: nat) -> Seq<JsonValue>
    decreases items, n,
{
    if n == 0 || n > items.len() {
        Seq::empty()
    } else {
        listed(items, (n - 1) as nat).push(items[n - 1].view())
    }
}

impl View for Json {
    type V = JsonValue;

    open spec fn view(&self) -> JsonValue
        decreases self,
    {
        match self {
            Json::Null => JsonValue::Null,
            Json::Bool(b) => JsonValue::Bool(*b),
            Json::Count(n) => JsonValue::Count(*n as nat),
            Json::OtherNumber => JsonValue::OtherNumber,
            Json::Text(s) => JsonValue::Text(s@),
            Json::Array(items) => JsonValue::Array(listed(items@, items@.len())),
            Json::Object(entries) => JsonValue::Object(members(entries@, entries@.len())),
        }
    }
}

/// The documents of a list of items.
pub open spec fn documents(items: Seq<Json>) -> Seq<JsonValue> {
    Seq::new(items.len(), |i: int| items[i]@)
}

/// The documents of the first `n` items are the documents of the items,
/// one by one.
pub proof fn lemma_listed(items: Seq<Json>, n: nat)
    requires
        n <= items.len(),
    ensures
        listed(items, n) == documents(items.take(n as int)),
    decreases n,
{
    if n > 0 {
        lemma_listed(items, (n - 1) as nat);
        assert(documents(items.take(n as int)) =~= documents(items.take(n - 1)).push(items[n - 1]@));
    } else {
        assert(documents(items.take(0)) =~= Seq::<JsonValue>::empty());
    }
}

/// A list holds the documents of its items.
pub proof fn lemma_array_view(items: Vec<Json>)
    ensures
        Json::Array(items)@ == JsonValue::Array(documents(items@)),
{
    lemma_listed(items@, items@.len());
    assert(items@.take(items@.len() as int) =~= items@);
}

impl JsonValue {
    /// The member of an object under a key; `Null` where the document is no
    /// object or has no such member.
    pub open spec fn at(self, key: Seq<char>) -> JsonValue {
        match self {
            JsonValue::Object(map) => if map.contains_key(key) {
                map[key]
            } else {
                JsonValue::Null
            },
            _ => JsonValue::Null,
        }
    }

    /// Whether the document is an object with a member under the key.
    pub open spec fn has(self, key: Seq<char>) -> bool {
        match self {
            JsonValue::Object(map) => map.contains_key(key),
            _ => false,
        }
    }

    /// No number of the document is an [`JsonValue::OtherNumber`], so that
    /// the document says all that is to be written.
    pub open spec fn is_exact(self) -> bool
        decreases self,
    {
        match self {
            JsonValue::OtherNumber => false,
            JsonValue::Array(items) => forall|i: int|
                0 <= i < items.len() ==> (#[trigger] items[i]).is_exact(),
            JsonValue::Object(map) => forall|key: Seq<char>|
                map.contains_key(key) ==> (#[trigger] map[key]).is_exact(),
            _ => true,
        }
    }
}

impl Json {
    /// The member of an object under a key.
    pub fn get(&self, key: &str) -> (member: Option<&Json>)
        ensures
            match member {
                Some(found) => self@.has(key@) && found@ == self@.at(key@),
                None => !self@.has(key@),
            },
    {
        match self {
            Json::Object(entries) => {
                let wanted = String::from_str(key);
                let mut member: Option<&Json> = None;
                let mut i: usize = 0;
                while i < entries.len()
                    invariant
                        i <= entries.len(),
                        wanted@ == key@,
                        match member {
                            Some(found) => members(entries@, i as nat).contains_key(key@) && found@
                                == members(entries@, i as nat)[key@],
                            None => !members(entries@, i as nat).contains_key(key@),
                        },
                    decreases entries.len() - i,
                {
                    assert(members(entries@, (i + 1) as nat) == members(entries@, i as nat).insert(
                        entries@[i as int].0@,
                        entries@[i as int].1@,
                    ));
                    if entries[i].0 == wanted {
                        member = Some(&entries[i].1);
                    }
                    i += 1;
                }
                member
            },
            _ => None,
        }
    }
}

} // verus!
