//! JSON values, as far as packages are described in them.
use crate::text;
use crate::text::same_str;
use vstd::prelude::*;

verus! {

/// A JSON value. A number is kept as it is written, and no key of an object
/// stands twice.
#[derive(Debug)]
pub enum Json {
    Null,
    Bool(bool),
    Number(String),
    Text(String),
    List(Vec<Json>),
    Object(Vec<(String, Json)>),
}

/// The text, of a text.
pub open spec fn as_text(j: Json) -> Option<Seq<char>> {
    match j {
        Json::Text(s) => Some(s@),
        _ => None,
    }
}

/// The value of the first pair with the key.
pub open spec fn value_for(v: Seq<(String, Json)>, key: Seq<char>) -> Option<Json>
    decreases v.len(),
{
    if v.len() == 0 {
        None
    } else if v[0].0@ == key {
        Some(v[0].1)
    } else {
        value_for(v.skip(1), key)
    }
}

/// A field, of an object.
pub open spec fn field(j: Json, key: Seq<char>) -> Option<Json> {
    match j {
        Json::Object(v) => value_for(v@, key),
        _ => None,
    }
}

/// The text in a field.
pub open spec fn text_field(j: Json, key: Seq<char>) -> Option<Seq<char>> {
    match field(j, key) {
        Some(x) => as_text(x),
        None => None,
    }
}

impl Json {
    pub fn as_str(&self) -> (r: Option<&String>)
        ensures
            match r {
                Some(s) => as_text(*self) == Some(s@),
                None => as_text(*self) is None,
            },
    {
        match self {
            Json::Text(s) => Some(s),
            _ => None,
        }
    }

    pub fn get(&self, key: &str) -> (r: Option<&Json>)
        ensures
            match r {
                Some(x) => field(*self, key@) == Some(*x),
                None => field(*self, key@) is None,
            },
    {
        match self {
            Json::Object(v) => {
                proof {
                    assert(v@.skip(0) =~= v@);
                }
                for i in 0..v.len()
                    invariant
                        *self == Json::Object(*v),
                        value_for(v@, key@) == value_for(v@.skip(i as int), key@),
                {
                    proof {
                        assert(v@.skip(i as int)[0] == v@[i as int]);
                        assert(v@.skip(i as int).skip(1) =~= v@.skip(i + 1));
                    }
                    if same_str(v[i].0.as_str(), key) {
                        return Some(&v[i].1);
                    }
                }
                None
            },
            _ => None,
        }
    }

    /// The text in a field.
    pub fn get_str(&self, key: &str) -> (r: Option<String>)
        ensures
            text::opt_view(r) == text_field(*self, key@),
    {
        match self.get(key) {
            Some(x) => match x.as_str() {
                Some(s) => Some(s.clone()),
                None => None,
            },
            None => None,
        }
    }
}

/// A field of an object is the first of its name; what is no object has none.
pub proof fn fields_are_found_by_name(
    before: Seq<(String, Json)>,
    name: String,
    x: Json,
    after: Seq<(String, Json)>,
)
    requires
        forall|i: int| 0 <= i < before.len() ==> (#[trigger] before[i]).0@ != name@,
    ensures
        value_for(before + seq![(name, x)] + after, name@) == Some(x),
        value_for(before, name@) is None,
    decreases before.len(),
{
    let all = before + seq![(name, x)] + after;
    if before.len() == 0 {
        assert(all[0] == (name, x));
    } else {
        let t = before.skip(1);
        assert forall|i: int| 0 <= i < t.len() implies (#[trigger] t[i]).0@ != name@ by {
            assert(t[i] == before[i + 1]);
        }
        fields_are_found_by_name(t, name, x, after);
        assert(all[0] == before[0]);
        assert(all.skip(1) =~= t + seq![(name, x)] + after);
    }
}

/// Only a text is read as a text, and only an object has fields.
pub proof fn only_texts_are_texts(j: Json, s: String, v: Vec<(String, Json)>, key: Seq<char>)
    ensures
        as_text(Json::Text(s)) == Some(s@),
        !(j is Text) ==> as_text(j) is None,
        !(j is Object) ==> field(j, key) is None && text_field(j, key) is None,
        field(Json::Object(v), key) == value_for(v@, key),
        value_for(v@, key) == Some(Json::Text(s)) ==> text_field(Json::Object(v), key) == Some(s@),
{
}

}
