//! The dynamic values that flow through the settings engine.

use vstd::prelude::*;

verus! {

/// A value of any supported type.
///
/// A value of a type from elsewhere is kept by what identifies it: a UUID
/// by its 128 bits, a timestamp by its nanoseconds since the Unix epoch, an
/// interval by its whole seconds, a float by its decimal text.
#[derive(Debug, PartialEq, Hash)]
pub enum Value {
    /// A UUID, as its 128-bit number.
    Uuid(u128),
    /// A string.
    String(String),
    /// A date and time without zone, as nanoseconds since 1970-01-01 00:00:00.
    Timestamp(i128),
    /// A date and time in UTC, as nanoseconds since the Unix epoch.
    TimestampTz(i128),
    /// A signed duration, in whole seconds.
    Interval(i64),
    /// A 64-bit signed integer.
    Integer(i64),
    /// A 64-bit float, as its decimal text.
    Float(String),
    /// A boolean.
    Boolean(bool),
    /// An ordered list of values.
    List(Vec<Value>),
    /// A string-keyed mapping of values that keeps insertion order.
    Mapping(ValueMap),
    /// The explicit absence of a value.
    Null,
}

/// The mathematical content of a [`Value`].
pub enum ValueView {
    Uuid(u128),
    String(Seq<char>),
    Timestamp(i128),
    TimestampTz(i128),
    Interval(i64),
    Integer(i64),
    Float(Seq<char>),
    Boolean(bool),
    List(Seq<ValueView>),
    Mapping(Seq<(Seq<char>, ValueView)>),
    Null,
}

/// An insertion-ordered map from strings to values with unique keys: an
/// `indexmap::IndexMap<String, Value>`.
#[verifier::external_body]
#[derive(Debug, PartialEq)]
pub struct ValueMap {
    entries: indexmap::IndexMap<String, Value>,
}

/// The entries of a map in their order, each key with its value's content.
pub uninterp spec fn map_entries(m: ValueMap) -> Seq<(Seq<char>, ValueView)>;

impl Clone for ValueMap {
    /// `IndexMap::clone`: a map with the same entries in the same order.
    #[verifier::external_body]
    fn clone(&self) -> (r: Self)
        ensures
            map_entries(r) == map_entries(*self),
    {
        ValueMap { entries: self.entries.clone() }
    }
}

impl std::hash::Hash for ValueMap {
    /// Feeds each entry to the hasher, in the map's order (`IndexMap::iter`).
    #[verifier::external_body]
    fn hash<H: std::hash::Hasher>(&self, state: &mut H) {
        for (key, value) in self.entries.iter() {
            key.hash(state);
            value.hash(state);
        }
    }
}

impl View for ValueMap {
    type V = Seq<(Seq<char>, ValueView)>;

    open spec fn view(&self) -> Seq<(Seq<char>, ValueView)> {
        map_entries(*self)
    }
}

/// The content of a value.
pub open spec fn value_view(v: Value) -> ValueView
    decreases v,
{
    match v {
        Value::Uuid(u) => ValueView::Uuid(u),
        Value::String(s) => ValueView::String(s@),
        Value::Timestamp(t) => ValueView::Timestamp(t),
        Value::TimestampTz(t) => ValueView::TimestampTz(t),
        Value::Interval(i) => ValueView::Interval(i),
        Value::Integer(i) => ValueView::Integer(i),
        Value::Float(f) => ValueView::Float(f@),
        Value::Boolean(b) => ValueView::Boolean(b),
        Value::List(l) => ValueView::List(
            Seq::new(
                l@.len(),
                |i: int|
                    if 0 <= i < l@.len() {
                        value_view(l@[i])
                    } else {
                        ValueView::Null
                    },
            ),
        ),
        Value::Mapping(m) => ValueView::Mapping(map_entries(m)),
        Value::Null => ValueView::Null,
    }
}

impl View for Value {
    type V = ValueView;

    open spec fn view(&self) -> ValueView {
        value_view(*self)
    }
}

/// The content of a list is the contents of its items.
pub proof fn lemma_list_view(v: Value)
    requires
        v is List,
    ensures
        v@ is List,
        v@->List_0.len() == v->List_0@.len(),
        forall|i: int| 0 <= i < v->List_0@.len() ==> v@->List_0[i] == (#[trigger] v->List_0@[i])@,
{
}

impl Clone for Value {
    fn clone(&self) -> (r: Self)
        ensures
            r@ == self@,
        decreases self,
    {
        match self {
            Value::Uuid(u) => Value::Uuid(*u),
            Value::String(s) => Value::String(s.clone()),
            Value::Timestamp(t) => Value::Timestamp(*t),
            Value::TimestampTz(t) => Value::TimestampTz(*t),
            Value::Interval(i) => Value::Interval(*i),
            Value::Integer(i) => Value::Integer(*i),
            Value::Float(f) => Value::Float(f.clone()),
            Value::Boolean(b) => Value::Boolean(*b),
            Value::List(l) => {
                let mut out: Vec<Value> = Vec::new();
                let mut i: usize = 0;
                while i < l.len()
                    invariant
                        self is List,
                        self->List_0 == *l,
                        i <= l.len(),
                        out.len() == i,
                        forall|k: int| 0 <= k < i ==> (#[trigger] out@[k])@ == l@[k]@,
                    decreases l.len() - i,
                {
                    out.push(l[i].clone());
                    i += 1;
                }
                let r = Value::List(out);
                proof {
                    lemma_list_view(r);
                    lemma_list_view(*self);
                }
                assert(r@->List_0 =~= self@->List_0);
                r
            },
            Value::Mapping(m) => Value::Mapping(m.clone()),
            Value::Null => Value::Null,
        }
    }
}

/// Where the first entry with key `key` stands in `s`; `s.len()` if there is
/// none.
pub open spec fn position<V>(s: Seq<(Seq<char>, V)>, key: Seq<char>) -> int
    decreases s.len(),
{
    if s.len() == 0 {
        0
    } else if s[0].0 == key {
        0
    } else {
        1 + position(s.drop_first(), key)
    }
}

/// Whether an entry with key `key` stands in `s`.
pub open spec fn has_key<V>(s: Seq<(Seq<char>, V)>, key: Seq<char>) -> bool {
    position(s, key) < s.len()
}

/// The value stored under `key`, if any.
pub open spec fn lookup<V>(s: Seq<(Seq<char>, V)>, key: Seq<char>) -> Option<V> {
    if has_key(s, key) {
        Some(s[position(s, key)].1)
    } else {
        None
    }
}

/// `s` after `key` got the value `value`: in place where the key was there,
/// else as a new last entry.
pub open spec fn inserted<V>(s: Seq<(Seq<char>, V)>, key: Seq<char>, value: V) -> Seq<
    (Seq<char>, V),
> {
    if has_key(s, key) {
        s.update(position(s, key), (key, value))
    } else {
        s.push((key, value))
    }
}

/// `s` after the entry of `key` was taken out by moving the last entry into
/// its place. Without such an entry, `s` itself.
pub open spec fn swap_removed<V>(s: Seq<(Seq<char>, V)>, key: Seq<char>) -> Seq<(Seq<char>, V)> {
    if has_key(s, key) {
        s.update(position(s, key), s.last()).drop_last()
    } else {
        s
    }
}

/// No two entries of `s` have the same key.
pub open spec fn keys_unique<V>(s: Seq<(Seq<char>, V)>) -> bool {
    forall|i: int, j: int| 0 <= i < j < s.len() ==> (#[trigger] s[i]).0 != (#[trigger] s[j]).0
}

/// What `position` promises.
pub proof fn lemma_position<V>(s: Seq<(Seq<char>, V)>, key: Seq<char>)
    ensures
        0 <= position(s, key) <= s.len(),
        has_key(s, key) ==> s[position(s, key)].0 == key,
        forall|i: int| 0 <= i < position(s, key) ==> (#[trigger] s[i]).0 != key,
    decreases s.len(),
{
    if s.len() > 0 && s[0].0 != key {
        let rest = s.drop_first();
        lemma_position(rest, key);
        assert forall|i: int| 0 <= i < position(s, key) implies (#[trigger] s[i]).0 != key by {
            if i > 0 {
                assert(s[i] == rest[i - 1]);
            }
        }
    }
}

/// The first entry that carries a key is where `position` says.
pub proof fn lemma_position_is<V>(s: Seq<(Seq<char>, V)>, key: Seq<char>, i: int)
    requires
        0 <= i <= s.len(),
        forall|j: int| 0 <= j < i ==> (#[trigger] s[j]).0 != key,
        i == s.len() || s[i].0 == key,
    ensures
        position(s, key) == i,
{
    lemma_position(s, key);
    if position(s, key) < i {
        assert(s[position(s, key)].0 != key);
    }
}

/// A key has an entry exactly if some entry carries it.
pub proof fn lemma_has_key<V>(s: Seq<(Seq<char>, V)>, key: Seq<char>)
    ensures
        has_key(s, key) <==> exists|i: int| 0 <= i < s.len() && (#[trigger] s[i]).0 == key,
{
    lemma_position(s, key);
    if has_key(s, key) {
        assert(s[position(s, key)].0 == key);
    }
    if exists|i: int| 0 <= i < s.len() && (#[trigger] s[i]).0 == key {
        let i = choose|i: int| 0 <= i < s.len() && (#[trigger] s[i]).0 == key;
        if position(s, key) >= s.len() {
            assert(s[i].0 != key);
        }
    }
}

/// Taking an entry out brings no key in.
pub proof fn lemma_swap_removed_keys<V>(s: Seq<(Seq<char>, V)>, gone: Seq<char>, key: Seq<char>)
    ensures
        has_key(swap_removed(s, gone), key) ==> has_key(s, key),
{
    let t = swap_removed(s, gone);
    lemma_has_key(s, key);
    lemma_has_key(t, key);
    lemma_position(s, gone);
    if has_key(t, key) {
        let i = choose|i: int| 0 <= i < t.len() && (#[trigger] t[i]).0 == key;
        if has_key(s, gone) {
            if i == position(s, gone) {
                assert(t[i] == s.last());
                assert(s[s.len() - 1].0 == key);
            } else {
                assert(t[i] == s[i]);
            }
        }
    }
}

/// Taking an entry out leaves the entries of other keys in.
pub proof fn lemma_swap_removed_keeps<V>(s: Seq<(Seq<char>, V)>, gone: Seq<char>, key: Seq<char>)
    requires
        has_key(s, key),
        key != gone,
    ensures
        has_key(swap_removed(s, gone), key),
{
    let t = swap_removed(s, gone);
    lemma_has_key(s, key);
    lemma_has_key(t, key);
    lemma_position(s, gone);
    if has_key(s, gone) {
        let p = position(s, gone);
        let i = choose|i: int| 0 <= i < s.len() && (#[trigger] s[i]).0 == key;
        if i == s.len() - 1 {
            assert(t[p] == s.last());
            assert(t[p].0 == key);
        } else {
            assert(t[i] == s[i]);
            assert(t[i].0 == key);
        }
    }
}

/// After an insertion the keys are those of before and the inserted one.
pub proof fn lemma_inserted_keys<V>(
    s: Seq<(Seq<char>, V)>,
    added: Seq<char>,
    value: V,
    key: Seq<char>,
)
    ensures
        has_key(inserted(s, added, value), key) <==> key == added || has_key(s, key),
        lookup(inserted(s, added, value), added) == Some(value),
{
    let t = inserted(s, added, value);
    lemma_has_key(s, key);
    lemma_has_key(t, key);
    lemma_has_key(t, added);
    lemma_position(s, added);
    lemma_position(t, added);
    if has_key(s, added) {
        let p = position(s, added);
        assert(t[p].0 == added);
        if has_key(t, key) {
            let i = choose|i: int| 0 <= i < t.len() && (#[trigger] t[i]).0 == key;
            if i != p {
                assert(t[i] == s[i]);
            }
        }
        if has_key(s, key) {
            let i = choose|i: int| 0 <= i < s.len() && (#[trigger] s[i]).0 == key;
            assert(t[i].0 == key);
        }
        // The first entry of `added` has not moved.
        assert forall|i: int| 0 <= i < p implies (#[trigger] t[i]).0 != added by {
            assert(t[i] == s[i]);
        }
        if position(t, added) < p {
            assert(t[position(t, added)].0 == added);
        }
        if position(t, added) > p {
            assert(t[p].0 != added);
        }
    } else {
        assert(t[s.len() as int].0 == added);
        if has_key(t, key) {
            let i = choose|i: int| 0 <= i < t.len() && (#[trigger] t[i]).0 == key;
            if i < s.len() {
                assert(t[i] == s[i]);
            }
        }
        if has_key(s, key) {
            let i = choose|i: int| 0 <= i < s.len() && (#[trigger] s[i]).0 == key;
            assert(t[i] == s[i]);
        }
        assert forall|i: int| 0 <= i < s.len() implies (#[trigger] t[i]).0 != added by {
            assert(t[i] == s[i]);
            lemma_has_key(s, added);
        }
        if position(t, added) < s.len() {
            assert(t[position(t, added)].0 == added);
        }
    }
}

/// `IndexMap::new`: a map without entries.
#[verifier::external_body]
fn map_new() -> (m: ValueMap)
    ensures
        map_entries(m) == Seq::<(Seq<char>, ValueView)>::empty(),
{
    ValueMap { entries: indexmap::IndexMap::new() }
}

/// `IndexMap::len`: the number of entries.
#[verifier::external_body]
fn map_len(m: &ValueMap) -> (n: usize)
    ensures
        n == map_entries(*m).len(),
{
    m.entries.len()
}

/// `IndexMap::insert`: an existing key keeps its place and gets the new
/// value, the old value is returned; a new key becomes the last entry.
/// The keys of a map stay distinct.
#[verifier::external_body]
fn map_insert(m: &mut ValueMap, key: String, value: Value) -> (r: Option<Value>)
    ensures
        map_entries(*final(m)) == inserted(map_entries(*old(m)), key@, value@),
        keys_unique(map_entries(*final(m))),
        match r {
            Some(v) => lookup(map_entries(*old(m)), key@) == Some(v@),
            None => !has_key(map_entries(*old(m)), key@),
        },
{
    m.entries.insert(key, value)
}

/// `IndexMap::swap_remove`: the entry of `key` leaves, the last entry takes
/// its place, and the value is returned; without such an entry nothing
/// changes. No entry of `key` is left, as keys are distinct.
#[verifier::external_body]
fn map_swap_remove(m: &mut ValueMap, key: &str) -> (r: Option<Value>)
    ensures
        map_entries(*final(m)) == swap_removed(map_entries(*old(m)), key@),
        !has_key(map_entries(*final(m)), key@),
        keys_unique(map_entries(*final(m))),
        match r {
            Some(v) => lookup(map_entries(*old(m)), key@) == Some(v@),
            None => !has_key(map_entries(*old(m)), key@),
        },
{
    m.entries.swap_remove(key)
}

/// `IndexMap::get`: the value stored under `key`.
#[verifier::external_body]
fn map_get<'a>(m: &'a ValueMap, key: &str) -> (r: Option<&'a Value>)
    ensures
        match r {
            Some(v) => lookup(map_entries(*m), key@) == Some(v@),
            None => !has_key(map_entries(*m), key@),
        },
{
    m.entries.get(key)
}

/// `IndexMap::get_index`: the entry at place `index`, for `index < len`. As
/// the keys of a map are distinct, no entry before it has its key.
#[verifier::external_body]
fn map_get_index<'a>(m: &'a ValueMap, index: usize) -> (r: Option<(&'a String, &'a Value)>)
    ensures
        match r {
            Some(e) => index < map_entries(*m).len() && map_entries(*m)[index as int] == (
                e.0@,
                e.1@,
            ) && position(map_entries(*m), e.0@) == index,
            None => index >= map_entries(*m).len(),
        },
{
    m.entries.get_index(index)
}

impl ValueMap {
    /// An empty map.
    pub fn new() -> (m: ValueMap)
        ensures
            m@ == Seq::<(Seq<char>, ValueView)>::empty(),
    {
        map_new()
    }

    /// The number of entries.
    pub fn len(&self) -> (n: usize)
        ensures
            n == self@.len(),
    {
        map_len(self)
    }

    /// Stores `value` under `key` and returns the value that was there.
    pub fn insert(&mut self, key: String, value: Value) -> (r: Option<Value>)
        ensures
            final(self)@ == inserted(old(self)@, key@, value@),
            keys_unique(final(self)@),
            match r {
                Some(v) => lookup(old(self)@, key@) == Some(v@),
                None => !has_key(old(self)@, key@),
            },
    {
        map_insert(self, key, value)
    }

    /// Takes the entry of `key` out, filling its place with the last entry.
    pub fn swap_remove(&mut self, key: &str) -> (r: Option<Value>)
        ensures
            final(self)@ == swap_removed(old(self)@, key@),
            !has_key(final(self)@, key@),
            keys_unique(final(self)@),
            match r {
                Some(v) => lookup(old(self)@, key@) == Some(v@),
                None => !has_key(old(self)@, key@),
            },
    {
        map_swap_remove(self, key)
    }

    /// The value stored under `key`.
    pub fn get(&self, key: &str) -> (r: Option<&Value>)
        ensures
            match r {
                Some(v) => lookup(self@, key@) == Some(v@),
                None => !has_key(self@, key@),
            },
    {
        map_get(self, key)
    }

    /// Whether an entry of `key` exists.
    pub fn contains_key(&self, key: &str) -> (r: bool)
        ensures
            r == has_key(self@, key@),
    {
        map_get(self, key).is_some()
    }

    /// The entry at place `index`.
    pub fn get_index(&self, index: usize) -> (r: Option<(&String, &Value)>)
        ensures
            match r {
                Some(e) => index < self@.len() && self@[index as int] == (e.0@, e.1@) && position(
                    self@,
                    e.0@,
                ) == index,
                None => index >= self@.len(),
            },
    {
        map_get_index(self, index)
    }

    /// The keys of the entries, in their order. They are distinct.
    pub fn keys(&self) -> (r: Vec<String>)
        ensures
            r@.len() == self@.len(),
            forall|i: int| 0 <= i < r@.len() ==> (#[trigger] r@[i])@ == self@[i].0,
            keys_unique(self@),
    {
        let n = self.len();
        let mut out: Vec<String> = Vec::new();
        let mut i: usize = 0;
        while i < n
            invariant
                i <= n,
                n == self@.len(),
                out.len() == i,
                forall|k: int| 0 <= k < i ==> (#[trigger] out@[k])@ == self@[k].0,
                forall|k: int| 0 <= k < i ==> position(self@, (#[trigger] self@[k]).0) == k,
            decreases n - i,
        {
            match self.get_index(i) {
                Some((key, _)) => {
                    out.push(key.clone());
                },
                None => {
                    assert(false);
                },
            }
            i += 1;
        }
        proof {
            assert forall|a: int, b: int| 0 <= a < b < self@.len() implies (#[trigger] self@[a]).0
                != (#[trigger] self@[b]).0 by {
                lemma_position(self@, self@[b].0);
            }
        }
        out
    }
}


impl Value {
    /// The integer of an integer value, as an unsigned number of 64 bits.
    pub fn as_u64(&self) -> (r: Option<u64>)
        ensures
            r == match *self {
                Value::Integer(i) => Some(i as u64),
                _ => None,
            },
    {
        match self {
            Value::Integer(i) => Some(*i as u64),
            _ => None,
        }
    }

    /// The integer of an integer value. A float is not cut to an integer
    /// here: that takes floating point.
    pub fn as_i64(&self) -> (r: Option<i64>)
        ensures
            r == match *self {
                Value::Integer(i) => Some(i),
                _ => None,
            },
    {
        match self {
            Value::Integer(i) => Some(*i),
            _ => None,
        }
    }

    /// The boolean of a boolean value.
    pub fn as_bool(&self) -> (r: Option<bool>)
        ensures
            r == match *self {
                Value::Boolean(b) => Some(b),
                _ => None,
            },
    {
        match self {
            Value::Boolean(b) => Some(*b),
            _ => None,
        }
    }

    /// The text of a string value.
    pub fn as_string(&self) -> (r: Option<&str>)
        ensures
            match *self {
                Value::String(s) => r is Some && r->0@ == s@,
                _ => r is None,
            },
    {
        match self {
            Value::String(s) => Some(s.as_str()),
            _ => None,
        }
    }

    /// The items of a list.
    pub fn as_array(&self) -> (r: Option<&Vec<Value>>)
        ensures
            r == match self {
                Value::List(l) => Some(l),
                _ => None,
            },
    {
        match self {
            Value::List(l) => Some(l),
            _ => None,
        }
    }

    /// The entries of a mapping.
    pub fn as_map(&self) -> (r: Option<&ValueMap>)
        ensures
            r == match self {
                Value::Mapping(m) => Some(m),
                _ => None,
            },
    {
        match self {
            Value::Mapping(m) => Some(m),
            _ => None,
        }
    }

    /// The same as `as_map`.
    pub fn as_object(&self) -> (r: Option<&ValueMap>)
        ensures
            r == match self {
                Value::Mapping(m) => Some(m),
                _ => None,
            },
    {
        self.as_map()
    }

    /// The 128 bits of a UUID.
    pub fn as_uuid(&self) -> (r: Option<u128>)
        ensures
            r == match *self {
                Value::Uuid(u) => Some(u),
                _ => None,
            },
    {
        match self {
            Value::Uuid(u) => Some(*u),
            _ => None,
        }
    }

    /// The nanoseconds of a timestamp without zone.
    pub fn as_timestamp(&self) -> (r: Option<i128>)
        ensures
            r == match *self {
                Value::Timestamp(t) => Some(t),
                _ => None,
            },
    {
        match self {
            Value::Timestamp(t) => Some(*t),
            _ => None,
        }
    }

    /// The nanoseconds of an instant.
    pub fn as_timestamp_tz(&self) -> (r: Option<i128>)
        ensures
            r == match *self {
                Value::TimestampTz(t) => Some(t),
                _ => None,
            },
    {
        match self {
            Value::TimestampTz(t) => Some(*t),
            _ => None,
        }
    }

    /// The seconds of an interval.
    pub fn as_interval(&self) -> (r: Option<i64>)
        ensures
            r == match *self {
                Value::Interval(i) => Some(i),
                _ => None,
            },
    {
        match self {
            Value::Interval(i) => Some(*i),
            _ => None,
        }
    }

    /// Whether the value is the absent one.
    pub fn as_none(&self) -> (r: bool)
        ensures
            r == (self is Null),
    {
        matches!(self, Value::Null)
    }
}

} // verus!
