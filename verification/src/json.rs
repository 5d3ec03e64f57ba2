//! JSON values as far as the rules read them: the outermost level, with what lies deeper kept as
//! JSON text.
use vstd::prelude::*;

verus! {

/// The members of a JSON object: each name with the JSON text of its value.
#[derive(Debug)]
pub struct JsonObject {
    pub members: Vec<(String, String)>,
}

/// The names and value texts of a JSON object.
pub type JsonMembers = Seq<(Seq<char>, Seq<char>)>;

/// The views of a list of text pairs.
pub open spec fn text_pairs(v: Seq<(String, String)>) -> Seq<(Seq<char>, Seq<char>)> {
    Seq::new(v.len(), |i: int| (v[i].0@, v[i].1@))
}

impl View for JsonObject {
    type V = JsonMembers;

    open spec fn view(&self) -> JsonMembers {
        text_pairs(self.members@)
    }
}

impl JsonObject {
    /// Another object with the same members.
    pub fn duplicate(&self) -> (r: JsonObject)
        ensures
            r@ == self@,
    {
        let mut members: Vec<(String, String)> = Vec::new();
        for i in 0..self.members.len()
            invariant
                text_pairs(members@) =~= self@.take(i as int),
        {
            let m = &self.members[i];
            let ghost before = text_pairs(members@);
            members.push((m.0.clone(), m.1.clone()));
            proof {
                assert(self@[i as int] == (m.0@, m.1@));
                assert(text_pairs(members@) =~= before.push((m.0@, m.1@)));
                assert(self@.take(i + 1) =~= self@.take(i as int).push(self@[i as int]));
            }
        }
        assert(text_pairs(members@) =~= self@);
        JsonObject { members }
    }

    /// Whether the object has no member.
    pub fn is_empty(&self) -> (r: bool)
        ensures
            r == (self@.len() == 0),
    {
        self.members.len() == 0
    }
}

/// A JSON value: numbers and what arrays and objects hold are kept as JSON text.
#[derive(Debug)]
pub enum Json {
    Null,
    Bool(bool),
    Number(String),
    Text(String),
    Array(Vec<String>),
    Object(JsonObject),
}

/// What a JSON value says.
#[verifier::ext_equal]
pub enum JsonView {
    Null,
    Bool(bool),
    Number(Seq<char>),
    Text(Seq<char>),
    Array(Seq<Seq<char>>),
    Object(JsonMembers),
}

impl View for Json {
    type V = JsonView;

    open spec fn view(&self) -> JsonView {
        match self {
            Json::Null => JsonView::Null,
            Json::Bool(b) => JsonView::Bool(*b),
            Json::Number(t) => JsonView::Number(t@),
            Json::Text(t) => JsonView::Text(t@),
            Json::Array(v) => JsonView::Array(crate::text::texts(v@)),
            Json::Object(o) => JsonView::Object(o@),
        }
    }
}

/// A JSON value that says nothing: null, or a text, an array or an object with nothing in it.
pub open spec fn says_nothing(v: JsonView) -> bool {
    match v {
        JsonView::Null => true,
        JsonView::Text(t) => t.len() == 0,
        JsonView::Array(a) => a.len() == 0,
        JsonView::Object(o) => o.len() == 0,
        JsonView::Bool(_) | JsonView::Number(_) => false,
    }
}

/// Whether a JSON value says nothing; such values are left out of messages.
pub fn object_is_empty(v: &Json) -> (r: bool)
    ensures
        r == says_nothing(v@),
{
    match v {
        Json::Null => true,
        Json::Text(t) => t.as_str().is_empty(),
        Json::Array(a) => a.len() == 0,
        Json::Object(o) => o.is_empty(),
        Json::Bool(_) | Json::Number(_) => false,
    }
}

/// What says nothing is null, the empty text, the empty array and the empty object, and nothing
/// else.
pub proof fn law_what_says_nothing(v: JsonView)
    ensures
        says_nothing(v) <==> v == JsonView::Null || v == JsonView::Text(Seq::empty()) || v
            == JsonView::Array(Seq::empty()) || v == JsonView::Object(Seq::empty()),
{
    match v {
        JsonView::Text(t) => {
            assert(t.len() == 0 ==> t =~= Seq::empty());
        },
        JsonView::Array(a) => {
            assert(a.len() == 0 ==> a =~= Seq::empty());
        },
        JsonView::Object(o) => {
            assert(o.len() == 0 ==> o =~= Seq::empty());
        },
        _ => {},
    }
}

} // verus!
