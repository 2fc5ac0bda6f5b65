//! JSON documents: the values that requests and responses are made of.

use crate::table::Table;
use vstd::prelude::*;

verus! {

/// A JSON number of `serde_json`, carried through unread.
#[verifier::external_type_specification]
#[verifier::external_body]
pub struct ExNumber(serde_json::Number);

/// `Clone` of `serde_json::Number` gives the same number.
pub assume_specification[ <serde_json::Number as Clone>::clone ](n: &serde_json::Number) -> (r:
    serde_json::Number)
    ensures
        r == *n,
;

/// The count that a JSON number is: `serde_json::Number::as_u64`.
pub uninterp spec fn count_of(n: serde_json::Number) -> Option<u64>;

/// The JSON number that a count is: `serde_json::Number::from`.
pub uninterp spec fn number_of(n: u64) -> serde_json::Number;

/// `serde_json::Number::as_u64` reads an integer of 64 bits without a sign, and
/// depends on the number alone.
pub assume_specification[ serde_json::Number::as_u64 ](n: &serde_json::Number) -> (r: Option<u64>)
    ensures
        r == count_of(*n),
;

/// `serde_json::Number::from` with a `u64`: `as_u64` reads back the count.
#[verifier::external_body]
fn number_from(n: u64) -> (r: serde_json::Number)
    ensures
        r == number_of(n),
        count_of(r) == Some(n),
{
    serde_json::Number::from(n)
}

/// A JSON value.
#[derive(Debug)]
pub enum JsonValue {
    Null,
    Bool(bool),
    Num(serde_json::Number),
    Text(String),
    Array(Vec<JsonValue>),
    Object(Table<JsonValue>),
}

/// What a JSON value says.
#[verifier::ext_equal]
pub enum Json {
    Null,
    Bool(bool),
    Num(serde_json::Number),
    Text(Seq<char>),
    Array(Seq<Json>),
    Object(Map<Seq<char>, Json>),
}

impl Json {
    /// The member of an object under a name.
    pub open spec fn field(self, name: Seq<char>) -> Option<Json> {
        match self {
            Json::Object(m) => if m.contains_key(name) {
                Some(m[name])
            } else {
                None
            },
            _ => None,
        }
    }

    /// The object with a member added or replaced; no other value changes.
    pub open spec fn with_field(self, name: Seq<char>, value: Json) -> Json {
        match self {
            Json::Object(m) => Json::Object(m.insert(name, value)),
            _ => self,
        }
    }

    /// The object without a member; no other value changes.
    pub open spec fn without_field(self, name: Seq<char>) -> Json {
        match self {
            Json::Object(m) => Json::Object(m.remove(name)),
            _ => self,
        }
    }

    /// The characters of a string.
    pub open spec fn text(self) -> Option<Seq<char>> {
        match self {
            Json::Text(s) => Some(s),
            _ => None,
        }
    }

    /// The elements of an array.
    pub open spec fn elements(self) -> Option<Seq<Json>> {
        match self {
            Json::Array(a) => Some(a),
            _ => None,
        }
    }

    /// The members of an object.
    pub open spec fn members(self) -> Option<Map<Seq<char>, Json>> {
        match self {
            Json::Object(m) => Some(m),
            _ => None,
        }
    }

    /// The number, where it is a count.
    pub open spec fn count(self) -> Option<u64> {
        match self {
            Json::Num(n) => count_of(n),
            _ => None,
        }
    }

    /// The truth value of a boolean.
    pub open spec fn flag(self) -> Option<bool> {
        match self {
            Json::Bool(b) => Some(b),
            _ => None,
        }
    }
}

/// The member of a member, where there is one.
pub open spec fn field_of(v: Option<Json>, name: Seq<char>) -> Option<Json> {
    match v {
        Some(j) => j.field(name),
        None => None,
    }
}

/// Putting back the member that is there changes nothing.
pub proof fn lemma_same_field(v: Json, name: Seq<char>)
    ensures
        v.field(name) matches Some(member) ==> v.with_field(name, member) == v,
{
    if let Json::Object(m) = v {
        if m.contains_key(name) {
            assert(m.insert(name, m[name]) =~= m);
        }
    }
}

/// Of two members put under one name, the later stays.
pub proof fn lemma_field_twice(v: Json, name: Seq<char>, first: Json, second: Json)
    ensures
        v.with_field(name, first).with_field(name, second) == v.with_field(name, second),
{
    if let Json::Object(m) = v {
        assert(m.insert(name, first).insert(name, second) =~= m.insert(name, second));
    }
}

impl View for JsonValue {
    type V = Json;

    open spec fn view(&self) -> Json {
        self.json()
    }
}

impl JsonValue {
    /// What this value says.
    pub open spec fn json(self) -> Json
        decreases self,
    {
        match self {
            JsonValue::Null => Json::Null,
            JsonValue::Bool(b) => Json::Bool(b),
            JsonValue::Num(n) => Json::Num(n),
            JsonValue::Text(s) => Json::Text(s@),
            JsonValue::Array(a) => Json::Array(all_json(a@)),
            JsonValue::Object(t) => {
                proof {
                    t.lemma_items_decrease();
                    assert(decreases_to!(self => t));
                }
                Json::Object(crate::table::as_map(t.names(), all_json(t.items())))
            },
        }
    }
}

/// What each of these values says.
pub open spec fn all_json(values: Seq<JsonValue>) -> Seq<Json>
    decreases values,
{
    Seq::new(
        values.len(),
        |i: int|
            if 0 <= i < values.len() {
                values[i].json()
            } else {
                Json::Null
            },
    )
}

/// What the members of a list say, one by one.
pub proof fn lemma_all_json(values: Seq<JsonValue>)
    ensures
        all_json(values).len() == values.len(),
        forall|i: int| 0 <= i < values.len() ==> #[trigger] all_json(values)[i] == values[i]@,
{
}

/// What the members of an object say.
pub open spec fn members_json(t: Table<JsonValue>) -> Map<Seq<char>, Json> {
    crate::table::as_map(t.names(), all_json(t.items()))
}

/// The members of an object, read name by name.
pub proof fn lemma_members(t: Table<JsonValue>)
    requires
        t.wf(),
    ensures
        members_json(t) == t@.map_values(|v: JsonValue| v@),
{
    assert(members_json(t) =~= t@.map_values(|v: JsonValue| v@));
}

impl Clone for JsonValue {
    fn clone(&self) -> (r: Self)
        ensures
            r@ == self@,
        decreases self,
    {
        match self {
            JsonValue::Null => JsonValue::Null,
            JsonValue::Bool(b) => JsonValue::Bool(*b),
            JsonValue::Num(n) => JsonValue::Num(n.clone()),
            JsonValue::Text(s) => JsonValue::Text(s.clone()),
            JsonValue::Array(a) => {
                let mut copy: Vec<JsonValue> = Vec::new();
                let mut i: usize = 0;
                while i < a.len()
                    invariant
                        i <= a@.len(),
                        self == JsonValue::Array(*a),
                        copy@.len() == i,
                        forall|j: int| 0 <= j < i ==> #[trigger] copy@[j]@ == a@[j]@,
                    decreases a@.len() - i,
                {
                    proof {
                        assert(decreases_to!(self => self->Array_0));
                        assert(decreases_to!(a => a@));
                        assert(decreases_to!(a@ => a@[i as int]));
                    }
                    let item = a[i].clone();
                    copy.push(item);
                    i += 1;
                }
                proof {
                    lemma_all_json(copy@);
                    lemma_all_json(a@);
                    assert(all_json(copy@) =~= all_json(a@));
                }
                JsonValue::Array(copy)
            },
            JsonValue::Object(t) => {
                let mut copy: Table<JsonValue> = Table::new();
                let mut i: usize = 0;
                let n = t.len();
                while i < n
                    invariant
                        i <= n,
                        n == t.names().len(),
                        t.wf(),
                        self == JsonValue::Object(*t),
                        copy.names() == t.names().take(i as int),
                        copy.items().len() == i,
                        forall|j: int| 0 <= j < i ==> #[trigger] copy.items()[j]@ == t.items()[j]@,
                    decreases n - i,
                {
                    proof {
                        assert(decreases_to!(self => self->Object_0));
                        t.lemma_items_decrease();
                        assert(decreases_to!(t.items() => t.items()[i as int]));
                    }
                    let item = t.item_at(i).clone();
                    let name = t.name_at(i).clone();
                    proof {
                        if copy@.contains_key(name@) {
                            let j = copy.names().index_of(name@);
                            assert(t.names()[j] == t.names()[i as int]);
                        }
                    }
                    copy.insert(name, item);
                    i += 1;
                    assert(copy.names() =~= t.names().take(i as int));
                }
                assert(copy.names() =~= t.names());
                proof {
                    lemma_all_json(copy.items());
                    lemma_all_json(t.items());
                    assert(all_json(copy.items()) =~= all_json(t.items()));
                }
                JsonValue::Object(copy)
            },
        }
    }
}

impl JsonValue {
    /// An object without members.
    pub fn object() -> (r: Self)
        ensures
            r@ == Json::Object(Map::empty()),
    {
        let t: Table<JsonValue> = Table::new();
        assert(members_json(t) =~= Map::empty());
        JsonValue::Object(t)
    }

    /// A string.
    pub fn text(s: &str) -> (r: Self)
        ensures
            r@ == Json::Text(s@),
    {
        JsonValue::Text(s.to_owned())
    }

    /// A count.
    pub fn count(n: u64) -> (r: Self)
        ensures
            r@ == Json::Num(number_of(n)),
            r@.count() == Some(n),
    {
        JsonValue::Num(number_from(n))
    }

    /// An array of these values.
    pub fn array(items: Vec<JsonValue>) -> (r: Self)
        ensures
            r@ == Json::Array(all_json(items@)),
    {
        JsonValue::Array(items)
    }

    /// The same object with one more member, in place of any of that name.
    pub fn with(self, name: &str, value: JsonValue) -> (r: Self)
        ensures
            r@ == self@.with_field(name@, value@),
    {
        let mut r = self;
        r.insert(name, value);
        r
    }

    /// The member of an object under a name.
    pub fn get(&self, name: &str) -> (r: Option<&JsonValue>)
        ensures
            match r {
                Some(v) => self@.field(name@) == Some(v@),
                None => self@.field(name@) is None,
            },
    {
        match self {
            JsonValue::Object(t) => {
                proof {
                    use_type_invariant(t);
                    lemma_members(*t);
                }
                t.get(name)
            },
            _ => None,
        }
    }

    /// The member of an object under a name, to be changed in place.
    pub fn get_mut(&mut self, name: &str) -> (r: Option<&mut JsonValue>)
        ensures
            match r {
                Some(v) => {
                    &&& old(self)@.field(name@) == Some(v@)
                    &&& final(self)@ == old(self)@.with_field(name@, final(v)@)
                },
                None => old(self)@.field(name@) is None && *final(self) == *old(self),
            },
    {
        match self {
            JsonValue::Object(t) => {
                proof {
                    use_type_invariant(&*t);
                    lemma_members(*t);
                    assert forall|end: Table<JsonValue>, v: JsonValue|
                        end.wf() && #[trigger] end@ == #[trigger] t@.insert(name@, v) implies members_json(
                        end,
                    ) == members_json(*t).insert(name@, v@) by {
                        lemma_members(end);
                        assert(members_json(end) =~= members_json(*t).insert(name@, v@));
                    }
                }
                t.get_mut(name)
            },
            _ => None,
        }
    }

    /// Puts a member into an object; nothing happens to any other value.
    pub fn insert(&mut self, name: &str, value: JsonValue)
        ensures
            final(self)@ == old(self)@.with_field(name@, value@),
    {
        if let JsonValue::Object(t) = self {
            let ghost before = *t;
            proof {
                use_type_invariant(&*t);
            }
            t.insert(name.to_owned(), value);
            proof {
                use_type_invariant(&*t);
                lemma_members(before);
                lemma_members(*t);
                assert(members_json(*t) =~= members_json(before).insert(name@, value@));
            }
        }
    }

    /// Takes a member out of an object; nothing happens to any other value.
    pub fn remove(&mut self, name: &str)
        ensures
            final(self)@ == old(self)@.without_field(name@),
    {
        if let JsonValue::Object(t) = self {
            let ghost before = *t;
            proof {
                use_type_invariant(&*t);
            }
            t.remove(name);
            proof {
                use_type_invariant(&*t);
                lemma_members(before);
                lemma_members(*t);
                assert(members_json(*t) =~= members_json(before).remove(name@));
            }
        }
    }

    /// The characters of a string.
    pub fn as_str(&self) -> (r: Option<&str>)
        ensures
            match r {
                Some(s) => self@.text() == Some(s@),
                None => self@.text() is None,
            },
    {
        match self {
            JsonValue::Text(s) => Some(s.as_str()),
            _ => None,
        }
    }

    /// The number, where it is an integer of 64 bits without a sign.
    pub fn as_u64(&self) -> (r: Option<u64>)
        ensures
            r == self@.count(),
    {
        match self {
            JsonValue::Num(n) => n.as_u64(),
            _ => None,
        }
    }

    /// The truth value of a boolean.
    pub fn as_bool(&self) -> (r: Option<bool>)
        ensures
            r == self@.flag(),
    {
        match self {
            JsonValue::Bool(b) => Some(*b),
            _ => None,
        }
    }

    /// Whether this is `null`.
    pub fn is_null(&self) -> (r: bool)
        ensures
            r == (self@ == Json::Null),
    {
        match self {
            JsonValue::Null => true,
            _ => false,
        }
    }

    /// The elements of an array.
    pub fn as_array(&self) -> (r: Option<&Vec<JsonValue>>)
        ensures
            match r {
                Some(a) => self@ == Json::Array(all_json(a@)),
                None => self@.elements() is None,
            },
    {
        match self {
            JsonValue::Array(a) => Some(a),
            _ => None,
        }
    }

    /// The elements of an array, to be changed in place.
    pub fn as_array_mut(&mut self) -> (r: Option<&mut Vec<JsonValue>>)
        ensures
            match r {
                Some(a) => {
                    &&& old(self)@ == Json::Array(all_json(a@))
                    &&& final(self)@ == Json::Array(all_json(final(a)@))
                },
                None => old(self)@.elements() is None && *final(self) == *old(self),
            },
    {
        match self {
            JsonValue::Array(a) => Some(a),
            _ => None,
        }
    }

    /// The members of an object.
    pub fn as_object(&self) -> (r: Option<&Table<JsonValue>>)
        ensures
            match r {
                Some(t) => self@ == Json::Object(members_json(*t)) && t.wf(),
                None => self@.members() is None,
            },
    {
        match self {
            JsonValue::Object(t) => {
                proof {
                    use_type_invariant(t);
                }
                Some(t)
            },
            _ => None,
        }
    }
}

} // verus!
