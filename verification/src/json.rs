//! JSON values: the exec type [`Json`], its mathematical model [`JVal`], the
//! accessors and the object operations (objects keep their keys sorted and
//! unique, as an ordered map does).
use vstd::prelude::*;
use crate::json_parse::{obj_insert, obj_insert_exec};
use crate::json_text::{valid_number, keys_sorted, key_lt};
use crate::text::{signed_decimal, str_chars};

verus! {

/// A JSON value. A number is kept as the text that denotes it, and is
/// written back as that same text: `1.50` stays `1.50` and `1e2` stays `1e2`
/// (turning the text into a floating-point value, and writing one, is left
/// to the caller). An object holds its entries sorted by key, each key once;
/// values built directly with `Json::Obj` are expected to keep that order,
/// which the laws on objects take as a precondition.
#[derive(Debug, PartialEq)]
pub enum Json {
    Null,
    Bool(bool),
    Num(String),
    Str(String),
    Arr(Vec<Json>),
    Obj(Vec<(String, Json)>),
}

/// Mathematical model of a JSON value.
pub enum JVal {
    Null,
    Bool(bool),
    Num(Seq<char>),
    Str(Seq<char>),
    Arr(Seq<JVal>),
    Obj(Seq<(Seq<char>, JVal)>),
}

/// The model of a value.
pub open spec fn json_view(j: Json) -> JVal
    decreases j,
{
    match j {
        Json::Null => JVal::Null,
        Json::Bool(b) => JVal::Bool(b),
        Json::Num(t) => JVal::Num(t@),
        Json::Str(s) => JVal::Str(s@),
        Json::Arr(items) => JVal::Arr(items_view(items@)),
        Json::Obj(entries) => JVal::Obj(entries_view(entries@)),
    }
}

/// The models of a sequence of values.
pub open spec fn items_view(s: Seq<Json>) -> Seq<JVal>
    decreases s,
{
    if s.len() == 0 {
        Seq::empty()
    } else {
        items_view(s.subrange(0, s.len() - 1)).push(json_view(s[s.len() - 1]))
    }
}

/// The models of a sequence of object entries.
pub open spec fn entries_view(s: Seq<(String, Json)>) -> Seq<(Seq<char>, JVal)>
    decreases s,
{
    if s.len() == 0 {
        Seq::empty()
    } else {
        entries_view(s.subrange(0, s.len() - 1)).push(
            (s[s.len() - 1].0@, json_view(s[s.len() - 1].1)),
        )
    }
}

impl View for Json {
    type V = JVal;

    open spec fn view(&self) -> JVal {
        json_view(*self)
    }
}


/// The models of a sequence, element by element.
pub proof fn lemma_items_view(s: Seq<Json>)
    ensures
        items_view(s).len() == s.len(),
        forall|i: int| 0 <= i < s.len() ==> #[trigger] items_view(s)[i] == json_view(s[i]),
    decreases s.len(),
{
    if s.len() > 0 {
        lemma_items_view(s.subrange(0, s.len() - 1));
    }
}

/// The models of a sequence of entries, element by element.
pub proof fn lemma_entries_view(s: Seq<(String, Json)>)
    ensures
        entries_view(s).len() == s.len(),
        forall|i: int|
            0 <= i < s.len() ==> #[trigger] entries_view(s)[i] == (s[i].0@, json_view(s[i].1)),
    decreases s.len(),
{
    if s.len() > 0 {
        lemma_entries_view(s.subrange(0, s.len() - 1));
    }
}

/// Appending a value appends its model.
pub proof fn lemma_items_view_push(s: Seq<Json>, x: Json)
    ensures
        items_view(s.push(x)) == items_view(s).push(json_view(x)),
{
    assert(s.push(x).subrange(0, s.len() as int) == s);
}

/// Appending an entry appends its model.
pub proof fn lemma_entries_view_push(s: Seq<(String, Json)>, x: (String, Json))
    ensures
        entries_view(s.push(x)) == entries_view(s).push((x.0@, json_view(x.1))),
{
    assert(s.push(x).subrange(0, s.len() as int) == s);
}


/// The value of the entry for `k`, scanning from the first entry.
pub open spec fn obj_get<V>(es: Seq<(Seq<char>, V)>, k: Seq<char>) -> Option<V>
    decreases es.len(),
{
    if es.len() == 0 {
        None
    } else if es[0].0 == k {
        Some(es[0].1)
    } else {
        obj_get(es.drop_first(), k)
    }
}

/// What `set` makes of a value: an object gains (or updates) the entry,
/// anything else stays as it is.
pub open spec fn set_view(v: JVal, k: Seq<char>, x: JVal) -> JVal {
    match v {
        JVal::Obj(es) => JVal::Obj(obj_insert(es, k, x)),
        _ => v,
    }
}

/// What `get` finds in a value: the entry's value in an object, else nothing.
pub open spec fn get_view(v: JVal, k: Seq<char>) -> Option<JVal> {
    match v {
        JVal::Obj(es) => obj_get(es, k),
        _ => None,
    }
}

/// Model of a JSON string.
pub open spec fn jstr(s: Seq<char>) -> JVal {
    JVal::Str(s)
}

/// The object obtained by setting the given entries, in order, on an empty
/// object.
pub open spec fn obj_of(entries: Seq<(Seq<char>, JVal)>) -> JVal
    decreases entries.len(),
{
    if entries.len() == 0 {
        JVal::Obj(Seq::empty())
    } else {
        set_view(obj_of(entries.drop_last()), entries.last().0, entries.last().1)
    }
}

/// Setting one more entry.
pub broadcast proof fn lemma_obj_of_push(s: Seq<(Seq<char>, JVal)>, e: (Seq<char>, JVal))
    ensures
        #[trigger] obj_of(s.push(e)) == set_view(obj_of(s), e.0, e.1),
{
    assert(s.push(e).drop_last() =~= s);
}

/// No entry set.
pub broadcast proof fn lemma_obj_of_empty()
    ensures
        #[trigger] obj_of(Seq::<(Seq<char>, JVal)>::empty()) == JVal::Obj(Seq::empty()),
{
}

impl Json {
    /// An empty object.
    pub fn obj() -> (j: Json)
        ensures
            j@ == JVal::Obj(Seq::empty()),
    {
        let j = Json::Obj(Vec::new());
        assert(entries_view(Seq::<(String, Json)>::empty()) =~= Seq::empty());
        j
    }

    /// A number from its text, when the text follows the number grammar.
    pub fn number(text: &str) -> (r: Option<Json>)
        ensures
            r is Some <==> valid_number(text@),
            r matches Some(j) ==> j@ == JVal::Num(text@),
    {
        let cs = str_chars(text);
        if crate::json_parse::is_valid_number(&cs) {
            Some(Json::Num(String::from_str(text)))
        } else {
            None
        }
    }

    /// An integer number.
    pub fn from_i64(n: i64) -> (j: Json)
        ensures
            j@ == JVal::Num(signed_decimal(n as int)),
            valid_number(signed_decimal(n as int)),
    {
        proof {
            crate::json_text::lemma_signed_decimal_valid(n as int);
        }
        Json::Num(crate::text::i64_to_decimal(n))
    }

    /// A non-negative integer number.
    pub fn from_usize(n: usize) -> (j: Json)
        ensures
            j@ == JVal::Num(crate::text::decimal(n as nat)),
    {
        Json::Num(crate::text::u64_to_decimal(n as u64))
    }

    /// Sets `key` to `value` when `self` is an object (replacing the value of
    /// an existing entry, else adding the entry in key order); does nothing
    /// to any other value. Returns `self`, for chaining.
    pub fn set(&mut self, key: &str, value: Json) -> (r: &mut Json)
        ensures
            r@ == set_view(old(self)@, key@, value@),
            *final(self) == *final(r),
    {
        let mut cur = Json::Null;
        std::mem::swap(&mut cur, self);
        match cur {
            Json::Obj(mut m) => {
                obj_insert_exec(&mut m, String::from_str(key), value);
                *self = Json::Obj(m);
            },
            other => {
                *self = other;
            },
        }
        self
    }

    /// The value of the entry for `key`, when `self` is an object that has one.
    pub fn get(&self, key: &str) -> (r: Option<&Json>)
        ensures
            r is Some <==> get_view(self@, key@) is Some,
            r matches Some(j) ==> get_view(self@, key@) == Some(j@),
    {
        match self {
            Json::Obj(m) => {
                let k = String::from_str(key);
                let ghost es = entries_view(m@);
                proof {
                    lemma_entries_view(m@);
                }
                let mut i: usize = 0;
                assert(es.skip(0) == es);
                while i < m.len()
                    invariant
                        i <= m@.len(),
                        *self == Json::Obj(*m),
                        es == entries_view(m@),
                        es.len() == m@.len(),
                        forall|j: int| 0 <= j < m@.len() ==> #[trigger] es[j] == (m@[j].0@, json_view(m@[j].1)),
                        k@ == key@,
                        obj_get(es, key@) == obj_get(es.skip(i as int), key@),
                    decreases m@.len() - i,
                {
                    assert(es.skip(i as int).drop_first() == es.skip(i + 1));
                    if m[i].0 == k {
                        assert(es.skip(i as int)[0] == es[i as int]);
                        return Some(&m[i].1);
                    }
                    i = i + 1;
                }
                None
            },
            _ => None,
        }
    }

    /// The characters of a string value.
    pub fn as_str(&self) -> (r: Option<&str>)
        ensures
            match self@ {
                JVal::Str(t) => r matches Some(x) && x@ == t,
                _ => r is None,
            },
    {
        match self {
            Json::Str(s) => Some(s.as_str()),
            _ => None,
        }
    }

    /// The text of a number value.
    pub fn as_num(&self) -> (r: Option<&str>)
        ensures
            match self@ {
                JVal::Num(t) => r matches Some(x) && x@ == t,
                _ => r is None,
            },
    {
        match self {
            Json::Num(t) => Some(t.as_str()),
            _ => None,
        }
    }

    /// The truth value of a boolean.
    pub fn as_bool(&self) -> (r: Option<bool>)
        ensures
            match self@ {
                JVal::Bool(b) => r == Some(b),
                _ => r is None,
            },
    {
        match self {
            Json::Bool(b) => Some(*b),
            _ => None,
        }
    }

    /// The elements of an array.
    pub fn as_array(&self) -> (r: Option<&[Json]>)
        ensures
            match self@ {
                JVal::Arr(items) => r matches Some(a) && items_view(a@) == items,
                _ => r is None,
            },
    {
        match self {
            Json::Arr(a) => Some(a.as_slice()),
            _ => None,
        }
    }

    /// A copy of the value.
    pub fn copy_value(&self) -> (r: Json)
        ensures
            r@ == self@,
        decreases self,
    {
        match self {
            Json::Null => Json::Null,
            Json::Bool(b) => Json::Bool(*b),
            Json::Num(t) => Json::Num(t.clone()),
            Json::Str(s) => Json::Str(s.clone()),
            Json::Arr(items) => {
                let mut out: Vec<Json> = Vec::new();
                let mut i: usize = 0;
                while i < items.len()
                    invariant
                        i <= items@.len(),
                        *self == Json::Arr(*items),
                        items_view(out@) == items_view(items@.take(i as int)),
                    decreases items@.len() - i,
                {
                    proof {
                        assert(decreases_to!(*self => (*self)->Arr_0));
                        assert(decreases_to!(*items => items@));
                        assert(decreases_to!(items@ => items@[i as int]));
                    }
                    let x = items[i].copy_value();
                    proof {
                        lemma_items_view_push(out@, x);
                        lemma_items_view_push(items@.take(i as int), items@[i as int]);
                        assert(items@.take(i + 1) == items@.take(i as int).push(items@[i as int]));
                    }
                    out.push(x);
                    i = i + 1;
                }
                assert(items@.take(items@.len() as int) == items@);
                Json::Arr(out)
            },
            Json::Obj(entries) => {
                let mut out: Vec<(String, Json)> = Vec::new();
                let mut i: usize = 0;
                while i < entries.len()
                    invariant
                        i <= entries@.len(),
                        *self == Json::Obj(*entries),
                        entries_view(out@) == entries_view(entries@.take(i as int)),
                    decreases entries@.len() - i,
                {
                    proof {
                        assert(decreases_to!(*self => (*self)->Obj_0));
                        assert(decreases_to!(*entries => entries@));
                        assert(decreases_to!(entries@ => entries@[i as int]));
                        assert(decreases_to!(entries@[i as int] => entries@[i as int].1));
                    }
                    let x = entries[i].1.copy_value();
                    let k = entries[i].0.clone();
                    proof {
                        lemma_entries_view_push(out@, (k, x));
                        lemma_entries_view_push(entries@.take(i as int), entries@[i as int]);
                        assert(entries@.take(i + 1) == entries@.take(i as int).push(entries@[i as int]));
                    }
                    out.push((k, x));
                    i = i + 1;
                }
                assert(entries@.take(entries@.len() as int) == entries@);
                Json::Obj(out)
            },
        }
    }
}

} // verus!
