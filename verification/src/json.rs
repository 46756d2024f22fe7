//! A JSON document as the library reads it, with the lookups the response
//! readers use. Numbers keep their decimal text.
use vstd::prelude::*;
use crate::text::{chars_of, parse_i64, spec_parse_i64};

verus! {

/// A JSON value. Object members keep their order; a number keeps its text.
#[derive(Debug)]
pub enum Json {
    Null,
    Bool(bool),
    Number(String),
    Str(String),
    Array(Vec<Json>),
    Object(Vec<(String, Json)>),
}

/// The value of the first member named `key` among `es`.
pub open spec fn entries_get(es: Seq<(String, Json)>, key: Seq<char>) -> Option<Json>
    decreases es.len(),
{
    if es.len() == 0 {
        None
    } else if es[0].0@ == key {
        Some(es[0].1)
    } else {
        entries_get(es.drop_first(), key)
    }
}

/// The member `key` of an object; nothing for any other value.
pub open spec fn json_get(j: Json, key: Seq<char>) -> Option<Json> {
    match j {
        Json::Object(es) => entries_get(es@, key),
        _ => None,
    }
}

/// The value reached from `j` through the object members named by `keys`, in order.
pub open spec fn json_path(j: Json, keys: Seq<Seq<char>>) -> Option<Json>
    decreases keys.len(),
{
    if keys.len() == 0 {
        Some(j)
    } else {
        match json_get(j, keys[0]) {
            Some(c) => json_path(c, keys.drop_first()),
            None => None,
        }
    }
}

/// The text of a string value.
pub open spec fn json_str(j: Option<Json>) -> Option<Seq<char>> {
    match j {
        Some(Json::Str(s)) => Some(s@),
        _ => None,
    }
}

/// The elements of an array value.
pub open spec fn json_array(j: Option<Json>) -> Option<Seq<Json>> {
    match j {
        Some(Json::Array(a)) => Some(a@),
        _ => None,
    }
}

/// A number written as an integer that fits an `i64`.
pub open spec fn json_i64(j: Option<Json>) -> Option<int> {
    match j {
        Some(Json::Number(n)) => spec_parse_i64(n@),
        _ => None,
    }
}

/// Present and not `null`.
pub open spec fn present(j: Option<Json>) -> bool {
    match j {
        Some(Json::Null) => false,
        Some(_) => true,
        None => false,
    }
}

/// A member as text for display: a string as is, a number as written, `-` otherwise.
pub open spec fn spec_str_at(j: Json, key: Seq<char>) -> Seq<char> {
    match json_get(j, key) {
        Some(Json::Str(s)) => s@,
        Some(Json::Number(n)) => n@,
        _ => seq!['-'],
    }
}

/// The string keys of `keys` as character sequences.
pub open spec fn key_views(keys: Seq<&str>) -> Seq<Seq<char>> {
    Seq::new(keys.len(), |i: int| keys[i]@)
}

impl Json {
    /// The member `key` of an object (the first one of that name); `None` for any other value.
    pub fn get(&self, key: &str) -> (r: Option<&Json>)
        ensures
            r matches Some(v) ==> json_get(*self, key@) == Some(*v),
            r is None ==> json_get(*self, key@) is None,
    {
        match self {
            Json::Object(es) => {
                let mut i: usize = 0;
                assert(es@.skip(0) =~= es@);
                while i < es.len()
                    invariant
                        i <= es@.len(),
                        json_get(*self, key@) == entries_get(es@, key@),
                        entries_get(es@, key@) == entries_get(es@.skip(i as int), key@),
                    decreases es@.len() - i,
                {
                    proof {
                        assert(es@.skip(i as int)[0] == es@[i as int]);
                        assert(es@.skip(i as int).drop_first() =~= es@.skip(i + 1));
                    }
                    if str_eq(es[i].0.as_str(), key) {
                        return Some(&es[i].1);
                    }
                    i += 1;
                }
                None
            },
            _ => None,
        }
    }

    /// The value reached through the object members named by `keys`.
    pub fn path(&self, keys: &[&str]) -> (r: Option<&Json>)
        ensures
            r matches Some(v) ==> json_path(*self, key_views(keys@)) == Some(*v),
            r is None ==> json_path(*self, key_views(keys@)) is None,
    {
        let mut cur: &Json = self;
        let mut i: usize = 0;
        assert(key_views(keys@).skip(0) =~= key_views(keys@));
        while i < keys.len()
            invariant
                i <= keys@.len(),
                json_path(*self, key_views(keys@)) == json_path(*cur, key_views(keys@).skip(i as int)),
            decreases keys@.len() - i,
        {
            proof {
                let ks = key_views(keys@).skip(i as int);
                assert(ks[0] == keys@[i as int]@);
                assert(ks.drop_first() =~= key_views(keys@).skip(i + 1));
            }
            match cur.get(keys[i]) {
                Some(c) => {
                    cur = c;
                },
                None => {
                    return None;
                },
            }
            i += 1;
        }
        assert(key_views(keys@).skip(keys@.len() as int) =~= Seq::<Seq<char>>::empty());
        Some(cur)
    }

    pub fn is_null(&self) -> (b: bool)
        ensures
            b == (*self matches Json::Null),
    {
        match self {
            Json::Null => true,
            _ => false,
        }
    }

    pub fn as_str(&self) -> (r: Option<&String>)
        ensures
            match r {
                Some(s) => json_str(Some(*self)) == Some(s@),
                None => json_str(Some(*self)) is None,
            },
    {
        match self {
            Json::Str(s) => Some(s),
            _ => None,
        }
    }

    pub fn as_array(&self) -> (r: Option<&Vec<Json>>)
        ensures
            match r {
                Some(a) => json_array(Some(*self)) == Some(a@),
                None => json_array(Some(*self)) is None,
            },
    {
        match self {
            Json::Array(a) => Some(a),
            _ => None,
        }
    }

    /// A number written as an integer within `i64`.
    pub fn as_i64(&self) -> (r: Option<i64>)
        ensures
            match r {
                Some(n) => json_i64(Some(*self)) == Some(n as int),
                None => json_i64(Some(*self)) is None,
            },
    {
        match self {
            Json::Number(n) => parse_i64(n.as_str()),
            _ => None,
        }
    }
}

impl Json {
    /// The member `key` of an object, moved out of it; `None` for any other value.
    pub fn take_member(self, key: &str) -> (r: Option<Json>)
        ensures
            r == json_get(self, key@),
    {
        match self {
            Json::Object(mut es) => {
                let mut i: usize = 0;
                let ghost es0 = es@;
                assert(es@.skip(0) =~= es@);
                while i < es.len()
                    invariant
                        i <= es@.len(),
                        es@ == es0,
                        json_get(self, key@) == entries_get(es0, key@),
                        entries_get(es0, key@) == entries_get(es0.skip(i as int), key@),
                    decreases es@.len() - i,
                {
                    proof {
                        assert(es0.skip(i as int)[0] == es0[i as int]);
                        assert(es0.skip(i as int).drop_first() =~= es0.skip(i + 1));
                    }
                    if str_eq(es[i].0.as_str(), key) {
                        let e = es.remove(i);
                        assert(e == es0[i as int]);
                        assert(entries_get(es0.skip(i as int), key@) == Some(e.1));
                        return Some(e.1);
                    }
                    i += 1;
                }
                None
            },
            _ => None,
        }
    }

    /// The value reached through the object members named by `keys`, moved out.
    pub fn take_path(self, keys: &[&str]) -> (r: Option<Json>)
        ensures
            r == json_path(self, key_views(keys@)),
    {
        let mut cur: Json = self;
        let mut i: usize = 0;
        assert(key_views(keys@).skip(0) =~= key_views(keys@));
        while i < keys.len()
            invariant
                i <= keys@.len(),
                json_path(self, key_views(keys@)) == json_path(cur, key_views(keys@).skip(i as int)),
            decreases keys@.len() - i,
        {
            proof {
                let ks = key_views(keys@).skip(i as int);
                assert(ks[0] == keys@[i as int]@);
                assert(ks.drop_first() =~= key_views(keys@).skip(i + 1));
            }
            let ghost c0 = cur;
            let next = cur.take_member(keys[i]);
            assert(next == json_get(c0, key_views(keys@).skip(i as int)[0]));
            match next {
                Some(c) => {
                    cur = c;
                },
                None => {
                    return None;
                },
            }
            i += 1;
        }
        assert(key_views(keys@).skip(keys@.len() as int) =~= Seq::<Seq<char>>::empty());
        Some(cur)
    }
}

/// The strings among `items`, in order.
pub open spec fn str_items(items: Seq<Json>) -> Seq<Seq<char>>
    decreases items.len(),
{
    if items.len() == 0 {
        Seq::empty()
    } else {
        let rest = str_items(items.drop_last());
        match items.last() {
            Json::Str(s) => rest.push(s@),
            _ => rest,
        }
    }
}

/// The strings among `items`, in order; other values are skipped.
pub fn string_items(items: &Vec<Json>) -> (r: Vec<String>)
    ensures
        crate::text::views(r@) == str_items(items@),
{
    let mut r: Vec<String> = Vec::new();
    let mut i: usize = 0;
    while i < items.len()
        invariant
            i <= items@.len(),
            crate::text::views(r@) == str_items(items@.take(i as int)),
        decreases items@.len() - i,
    {
        proof {
            assert(items@.take(i + 1).drop_last() =~= items@.take(i as int));
        }
        match &items[i] {
            Json::Str(s) => {
                r.push(s.clone());
                assert(crate::text::views(r@) =~= str_items(items@.take(i as int)).push(s@));
            },
            _ => {},
        }
        i += 1;
    }
    assert(items@.take(items@.len() as int) =~= items@);
    r
}

/// Two strings hold the same characters.
pub fn str_eq(a: &str, b: &str) -> (r: bool)
    ensures
        r == (a@ == b@),
{
    let x = chars_of(a);
    let y = chars_of(b);
    if x.len() != y.len() {
        return false;
    }
    let mut i: usize = 0;
    while i < x.len()
        invariant
            i <= x@.len(),
            x@ == a@,
            y@ == b@,
            x@.len() == y@.len(),
            x@.take(i as int) == y@.take(i as int),
        decreases x@.len() - i,
    {
        if x[i] != y[i] {
            assert(x@[i as int] != y@[i as int]);
            return false;
        }
        assert(x@.take(i + 1) =~= x@.take(i as int).push(x@[i as int]));
        assert(y@.take(i + 1) =~= y@.take(i as int).push(y@[i as int]));
        i += 1;
    }
    assert(x@.take(x@.len() as int) =~= x@);
    assert(y@.take(y@.len() as int) =~= y@);
    true
}

/// The member `key` of `v` as display text: a string as is, a number as
/// written, `-` when missing or of another kind.
pub fn str_at(v: &Json, key: &str) -> (s: String)
    ensures
        s@ == spec_str_at(*v, key@),
{
    match v.get(key) {
        Some(Json::Str(s)) => s.clone(),
        Some(Json::Number(n)) => n.clone(),
        _ => {
            let mut s = String::new();
            crate::text::push_char(&mut s, '-');
            s
        },
    }
}

} // verus!
