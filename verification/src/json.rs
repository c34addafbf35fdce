//! JSON documents as plain values. Reading and writing the text form is left
//! to `serde_json`; what a document holds is looked up here.

use crate::text::text_eq;
use vstd::prelude::*;

verus! {

/// A JSON document. A number is held as its decimal text, an object as its
/// members in order.
#[derive(Debug)]
pub enum Json {
    Null,
    Bool(bool),
    Number(String),
    Str(String),
    Arr(Vec<Json>),
    Obj(Vec<(String, Json)>),
}

/// What a JSON document holds.
#[verifier::ext_equal]
pub enum JsonView {
    Null,
    Bool(bool),
    Number(Seq<char>),
    Str(Seq<char>),
    Arr(Seq<JsonView>),
    Obj(Seq<(Seq<char>, JsonView)>),
}

impl Json {
    /// What this document holds.
    pub open spec fn model(self) -> JsonView
        decreases self,
    {
        match self {
            Json::Null => JsonView::Null,
            Json::Bool(b) => JsonView::Bool(b),
            Json::Number(s) => JsonView::Number(s@),
            Json::Str(s) => JsonView::Str(s@),
            Json::Arr(v) => JsonView::Arr(
                Seq::new(
                    v@.len(),
                    |i: int|
                        if 0 <= i < v@.len() {
                            v@[i].model()
                        } else {
                            JsonView::Null
                        },
                ),
            ),
            Json::Obj(v) => JsonView::Obj(
                Seq::new(
                    v@.len(),
                    |i: int|
                        if 0 <= i < v@.len() {
                            (v@[i].0@, v@[i].1.model())
                        } else {
                            (Seq::empty(), JsonView::Null)
                        },
                ),
            ),
        }
    }
}

/// The first member of an object with the given key.
pub open spec fn member(m: Seq<(Seq<char>, JsonView)>, key: Seq<char>) -> Option<JsonView>
    decreases m.len(),
{
    if m.len() == 0 {
        None
    } else if m[0].0 == key {
        Some(m[0].1)
    } else {
        member(m.drop_first(), key)
    }
}

/// Members with other keys at the front do not count for a look-up.
pub proof fn lemma_member_skips(m: Seq<(Seq<char>, JsonView)>, key: Seq<char>, n: int)
    requires
        0 <= n <= m.len(),
        forall|i: int| 0 <= i < n ==> (#[trigger] m[i]).0 != key,
    ensures
        member(m, key) == member(m.skip(n), key),
    decreases n,
{
    if n > 0 {
        let rest = m.drop_first();
        assert(m[0].0 != key);
        assert forall|i: int| 0 <= i < n - 1 implies (#[trigger] rest[i]).0 != key by {
            assert(rest[i] == m[i + 1]);
        }
        lemma_member_skips(rest, key, n - 1);
        assert(rest.skip(n - 1) =~= m.skip(n));
    } else {
        assert(m.skip(0) =~= m);
    }
}

/// Whether a document is an object that has a member with the given key.
pub open spec fn has_member(v: JsonView, key: Seq<char>) -> bool {
    v is Obj && member(v->Obj_0, key) is Some
}

/// The member of an object with the given key; null where there is none.
pub open spec fn field(v: JsonView, key: Seq<char>) -> JsonView {
    if has_member(v, key) {
        member(v->Obj_0, key)->0
    } else {
        JsonView::Null
    }
}

/// The element of an array at a position; null where there is none.
pub open spec fn element(v: JsonView, i: int) -> JsonView {
    if v is Arr && 0 <= i < v->Arr_0.len() {
        v->Arr_0[i]
    } else {
        JsonView::Null
    }
}

/// The text of a document that is a string.
pub open spec fn as_text(v: JsonView) -> Option<Seq<char>> {
    match v {
        JsonView::Str(s) => Some(s),
        _ => None,
    }
}

/// The text of a document that is a string, or the given text.
pub open spec fn text_or(v: JsonView, default: Seq<char>) -> Seq<char> {
    match v {
        JsonView::Str(s) => s,
        _ => default,
    }
}

impl Json {
    /// The member of an object with the given key. Nothing is found where the
    /// document is no object or has no such member.
    pub fn get(&self, key: &str) -> (r: Option<&Json>)
        ensures
            r is Some <==> has_member(self.model(), key@),
            r is Some ==> r->0.model() == field(self.model(), key@),
    {
        match self {
            Json::Obj(v) => {
                let ghost m = self.model()->Obj_0;
                let mut i: usize = 0;
                proof {
                    assert(m.skip(0) =~= m);
                }
                while i < v.len()
                    invariant
                        i <= v.len(),
                        *self == Json::Obj(*v),
                        m == self.model()->Obj_0,
                        m.len() == v.len(),
                        member(m, key@) == member(m.skip(i as int), key@),
                    decreases v.len() - i,
                {
                    proof {
                        assert(m[i as int] == (v@[i as int].0@, v@[i as int].1.model()));
                        assert(m.skip(i as int)[0] == m[i as int]);
                        assert(m.skip(i as int).drop_first() =~= m.skip(i + 1));
                    }
                    if text_eq(v[i].0.as_str(), key) {
                        return Some(&v[i].1);
                    }
                    i += 1;
                }
                None
            },
            _ => None,
        }
    }

    /// The member of a member.
    pub fn get2(&self, a: &str, b: &str) -> (r: Option<&Json>)
        ensures
            r is Some <==> has_member(field(self.model(), a@), b@),
            r is Some ==> r->0.model() == field(field(self.model(), a@), b@),
    {
        match self.get(a) {
            Some(j) => j.get(b),
            None => None,
        }
    }

    /// The element of an array at a position.
    pub fn at(&self, i: usize) -> (r: Option<&Json>)
        ensures
            match r {
                Some(j) => self.model() is Arr && i < self.model()->Arr_0.len() && j.model()
                    == element(self.model(), i as int),
                None => !(self.model() is Arr && i < self.model()->Arr_0.len()),
            },
    {
        match self {
            Json::Arr(v) => if i < v.len() {
                Some(&v[i])
            } else {
                None
            },
            _ => None,
        }
    }

    /// The number of elements of an array.
    pub fn array_len(&self) -> (r: Option<usize>)
        ensures
            match r {
                Some(n) => self.model() is Arr && n == self.model()->Arr_0.len(),
                None => !(self.model() is Arr),
            },
    {
        match self {
            Json::Arr(v) => Some(v.len()),
            _ => None,
        }
    }

    /// Whether the document is an object.
    pub fn is_object(&self) -> (r: bool)
        ensures
            r == (self.model() is Obj),
    {
        match self {
            Json::Obj(_) => true,
            _ => false,
        }
    }

    /// The text of a document that is a string.
    pub fn as_str(&self) -> (r: Option<String>)
        ensures
            match r {
                Some(s) => as_text(self.model()) == Some(s@),
                None => as_text(self.model()) is None,
            },
    {
        match self {
            Json::Str(s) => Some(s.clone()),
            _ => None,
        }
    }

    /// The truth value of a document that is one.
    pub fn as_bool(&self) -> (r: Option<bool>)
        ensures
            r == (match self.model() {
                JsonView::Bool(b) => Some(b),
                _ => None,
            }),
    {
        match self {
            Json::Bool(b) => Some(*b),
            _ => None,
        }
    }

    /// The decimal text of a document that is a number.
    pub fn as_number(&self) -> (r: Option<String>)
        ensures
            match r {
                Some(s) => self.model() == JsonView::Number(s@),
                None => !(self.model() is Number),
            },
    {
        match self {
            Json::Number(s) => Some(s.clone()),
            _ => None,
        }
    }
}

/// The text of an optional document that is a string, or the given text.
pub fn str_or(j: Option<&Json>, default: &str) -> (r: String)
    ensures
        r@ == (match j {
            Some(d) => text_or(d.model(), default@),
            None => default@,
        }),
{
    match j {
        Some(d) => match d.as_str() {
            Some(s) => s,
            None => default.to_owned(),
        },
        None => default.to_owned(),
    }
}

/// The models of documents.
pub open spec fn models(v: Seq<Json>) -> Seq<JsonView> {
    v.map_values(|j: Json| j.model())
}

/// The keys and models of the members of an object.
pub open spec fn members(v: Seq<(String, Json)>) -> Seq<(Seq<char>, JsonView)> {
    v.map_values(|m: (String, Json)| (m.0@, m.1.model()))
}

/// The members of an object without any.
pub open spec fn no_members() -> Seq<(Seq<char>, JsonView)> {
    Seq::empty()
}

/// An object under construction.
pub struct ObjectBuilder {
    members: Vec<(String, Json)>,
}

impl ObjectBuilder {
    /// The members so far.
    pub closed spec fn model(self) -> Seq<(Seq<char>, JsonView)> {
        members(self.members@)
    }

    /// An object without members.
    pub fn new() -> (r: ObjectBuilder)
        ensures
            r.model() == no_members(),
    {
        let r = ObjectBuilder { members: Vec::new() };
        proof {
            assert(r.model() =~= no_members());
        }
        r
    }

    /// The object with one more member.
    pub fn with(self, key: &str, value: Json) -> (r: ObjectBuilder)
        ensures
            r.model() == self.model().push((key@, value.model())),
    {
        let mut list = self.members;
        list.push((key.to_owned(), value));
        let r = ObjectBuilder { members: list };
        proof {
            assert(r.model() =~= self.model().push((key@, value.model())));
        }
        r
    }

    /// The object with one more member, which is a string.
    pub fn with_text(self, key: &str, value: &str) -> (r: ObjectBuilder)
        ensures
            r.model() == self.model().push((key@, JsonView::Str(value@))),
    {
        self.with(key, Json::Str(value.to_owned()))
    }

    /// The finished object.
    pub fn build(self) -> (r: Json)
        ensures
            r.model() == JsonView::Obj(self.model()),
    {
        let r = Json::Obj(self.members);
        proof {
            assert(r.model()->Obj_0 =~= self.model());
        }
        r
    }
}

/// An array of one element.
pub fn array_of(value: Json) -> (r: Json)
    ensures
        r.model() == JsonView::Arr(seq![value.model()]),
{
    let mut list: Vec<Json> = Vec::new();
    list.push(value);
    proof {
        assert(models(list@) =~= seq![value.model()]);
    }
    array(list)
}

/// An array.
pub fn array(list: Vec<Json>) -> (r: Json)
    ensures
        r.model() == JsonView::Arr(models(list@)),
{
    let r = Json::Arr(list);
    proof {
        assert(r.model()->Arr_0 =~= models(list@));
    }
    r
}

/// `serde_json::Value`, as the parser hands it out and the writer takes it.
#[verifier::external_type_specification]
#[verifier::external_body]
pub struct ExValue(serde_json::Value);

/// What a `serde_json::Value` holds. A number is given by the decimal text
/// that `serde_json::Number` prints, an object by its members in the order in
/// which its map is walked.
pub uninterp spec fn value_model(v: serde_json::Value) -> JsonView;

/// What `serde_json::from_str::<serde_json::Value>` makes of a text: the
/// document, or the error as text.
pub uninterp spec fn json_parse(text: Seq<char>) -> Result<JsonView, Seq<char>>;

/// What `serde_json::Value::to_string` writes for a document.
pub uninterp spec fn json_text(v: JsonView) -> Seq<char>;

/// The object that a `serde_json::Map` collected from these members is.
pub uninterp spec fn json_object(members: Seq<(Seq<char>, JsonView)>) -> JsonView;

/// One level of a `serde_json::Value`.
pub(crate) enum ValueParts {
    Null,
    Bool(bool),
    Number(String),
    Str(String),
    Arr(Vec<serde_json::Value>),
    Obj(Vec<(String, serde_json::Value)>),
}

/// The models of the elements of an array.
spec fn element_models(v: Seq<serde_json::Value>) -> Seq<JsonView> {
    v.map_values(|x: serde_json::Value| value_model(x))
}

/// The keys and models of the members of an object.
spec fn member_models(v: Seq<(String, serde_json::Value)>) -> Seq<(Seq<char>, JsonView)> {
    v.map_values(|x: (String, serde_json::Value)| (x.0@, value_model(x.1)))
}

/// `serde_json::Value`: takes one level apart, variant by variant.
#[verifier::external_body]
fn open_value(v: serde_json::Value) -> (r: ValueParts)
    ensures
        value_model(v) == (match r {
            ValueParts::Null => JsonView::Null,
            ValueParts::Bool(b) => JsonView::Bool(b),
            ValueParts::Number(s) => JsonView::Number(s@),
            ValueParts::Str(s) => JsonView::Str(s@),
            ValueParts::Arr(a) => JsonView::Arr(element_models(a@)),
            ValueParts::Obj(m) => JsonView::Obj(member_models(m@)),
        }),
{
    match v {
        serde_json::Value::Null => ValueParts::Null,
        serde_json::Value::Bool(b) => ValueParts::Bool(b),
        serde_json::Value::Number(n) => ValueParts::Number(n.to_string()),
        serde_json::Value::String(s) => ValueParts::Str(s),
        serde_json::Value::Array(a) => ValueParts::Arr(a),
        serde_json::Value::Object(m) => ValueParts::Obj(m.into_iter().collect()),
    }
}

/// `serde_json::Value`: puts one level together, variant by variant. A
/// number is what its text parses to, null where it does not parse.
#[verifier::external_body]
fn close_value(p: ValueParts) -> (r: serde_json::Value)
    ensures
        value_model(r) == (match p {
            ValueParts::Null => JsonView::Null,
            ValueParts::Bool(b) => JsonView::Bool(b),
            ValueParts::Number(s) => stored_number(s@),
            ValueParts::Str(s) => JsonView::Str(s@),
            ValueParts::Arr(a) => JsonView::Arr(element_models(a@)),
            ValueParts::Obj(m) => json_object(member_models(m@)),
        }),
{
    match p {
        ValueParts::Null => serde_json::Value::Null,
        ValueParts::Bool(b) => serde_json::Value::Bool(b),
        ValueParts::Number(s) => serde_json::from_str(&s).unwrap_or(serde_json::Value::Null),
        ValueParts::Str(s) => serde_json::Value::String(s),
        ValueParts::Arr(a) => serde_json::Value::Array(a),
        ValueParts::Obj(m) => serde_json::Value::Object(m.into_iter().collect()),
    }
}

/// `serde_json::from_str::<serde_json::Value>`: reads a document from its
/// text, or says why the text is none. The result is a function of the text.
#[verifier::external_body]
fn parse_value(text: &str) -> (r: Result<serde_json::Value, String>)
    ensures
        match r {
            Ok(v) => json_parse(text@) == Ok::<JsonView, Seq<char>>(value_model(v)),
            Err(e) => json_parse(text@) == Err::<JsonView, Seq<char>>(e@),
        },
{
    serde_json::from_str(text).map_err(|e| e.to_string())
}

/// `serde_json::Value::to_string`: writes a document. The text is a function
/// of what the document holds.
#[verifier::external_body]
fn value_text(v: &serde_json::Value) -> (r: String)
    ensures
        r@ == json_text(value_model(*v)),
{
    v.to_string()
}

/// What a number is stored as, given its decimal text.
pub open spec fn stored_number(s: Seq<char>) -> JsonView {
    match json_parse(s) {
        Ok(v) => v,
        Err(_) => JsonView::Null,
    }
}

/// What a document becomes when it is handed over for writing: numbers are
/// parsed, and the members of objects collected into maps.
pub open spec fn stored(v: JsonView) -> JsonView
    decreases v,
{
    match v {
        JsonView::Number(s) => stored_number(s),
        JsonView::Arr(a) => JsonView::Arr(
            Seq::new(
                a.len(),
                |i: int|
                    if 0 <= i < a.len() {
                        stored(a[i])
                    } else {
                        JsonView::Null
                    },
            ),
        ),
        JsonView::Obj(m) => json_object(stored_members(m)),
        JsonView::Null => JsonView::Null,
        JsonView::Bool(b) => JsonView::Bool(b),
        JsonView::Str(s) => JsonView::Str(s),
    }
}

/// The members of an object as they are handed over for writing.
pub open spec fn stored_members(m: Seq<(Seq<char>, JsonView)>) -> Seq<(Seq<char>, JsonView)>
    decreases m,
{
    Seq::new(
        m.len(),
        |i: int|
            if 0 <= i < m.len() {
                (m[i].0, stored(m[i].1))
            } else {
                (Seq::empty(), JsonView::Null)
            },
    )
}

/// The text that is written for a document.
pub open spec fn written(v: JsonView) -> Seq<char> {
    json_text(stored(v))
}

fn from_value(v: serde_json::Value) -> (r: Json)
    ensures
        r.model() == value_model(v),
    decreases value_model(v),
{
    let ghost whole = value_model(v);
    match open_value(v) {
        ValueParts::Null => Json::Null,
        ValueParts::Bool(b) => Json::Bool(b),
        ValueParts::Number(s) => Json::Number(s),
        ValueParts::Str(s) => Json::Str(s),
        ValueParts::Arr(a) => {
            let ghost models = element_models(a@);
            let mut rest = a;
            let mut out: Vec<Json> = Vec::new();
            while rest.len() > 0
                invariant
                    whole == value_model(v),
                    whole == JsonView::Arr(models),
                    out.len() + rest.len() == models.len(),
                    element_models(rest@) == models.skip(out.len() as int),
                    forall|j: int| 0 <= j < out.len() ==> (#[trigger] out[j]).model() == models[j],
                decreases rest.len(),
            {
                let ghost before = rest@;
                let x = rest.remove(0);
                proof {
                    assert(value_model(x) == element_models(before)[0]);
                    assert(models.skip(out.len() as int)[0] == models[out.len() as int]);
                    assert(decreases_to!(whole => whole->Arr_0[out.len() as int]));
                    assert(element_models(rest@) =~= element_models(before).drop_first());
                    assert(models.skip(out.len() as int).drop_first() =~= models.skip(
                        out.len() + 1,
                    ));
                }
                let j = from_value(x);
                out.push(j);
            }
            let r = Json::Arr(out);
            proof {
                assert(r.model()->Arr_0 =~= models);
            }
            r
        },
        ValueParts::Obj(m) => {
            let ghost models = member_models(m@);
            let mut rest = m;
            let mut out: Vec<(String, Json)> = Vec::new();
            while rest.len() > 0
                invariant
                    whole == value_model(v),
                    whole == JsonView::Obj(models),
                    out.len() + rest.len() == models.len(),
                    member_models(rest@) == models.skip(out.len() as int),
                    forall|j: int|
                        0 <= j < out.len() ==> ((#[trigger] out[j]).0@, out[j].1.model())
                            == models[j],
                decreases rest.len(),
            {
                let ghost before = rest@;
                let (k, x) = rest.remove(0);
                proof {
                    assert((k@, value_model(x)) == member_models(before)[0]);
                    assert(models.skip(out.len() as int)[0] == models[out.len() as int]);
                    assert(decreases_to!(whole => whole->Obj_0[out.len() as int].1));
                    assert(member_models(rest@) =~= member_models(before).drop_first());
                    assert(models.skip(out.len() as int).drop_first() =~= models.skip(
                        out.len() + 1,
                    ));
                }
                let j = from_value(x);
                out.push((k, j));
            }
            let r = Json::Obj(out);
            proof {
                assert(r.model()->Obj_0 =~= models);
            }
            r
        },
    }
}

fn to_value(j: &Json) -> (r: serde_json::Value)
    ensures
        value_model(r) == stored(j.model()),
    decreases j,
{
    match j {
        Json::Null => close_value(ValueParts::Null),
        Json::Bool(b) => close_value(ValueParts::Bool(*b)),
        Json::Number(s) => close_value(ValueParts::Number(s.clone())),
        Json::Str(s) => close_value(ValueParts::Str(s.clone())),
        Json::Arr(v) => {
            let ghost models = j.model()->Arr_0;
            let mut out: Vec<serde_json::Value> = Vec::new();
            let mut i: usize = 0;
            while i < v.len()
                invariant
                    i == out.len(),
                    i <= v.len(),
                    *j == Json::Arr(*v),
                    models == j.model()->Arr_0,
                    forall|k: int|
                        0 <= k < i ==> value_model(#[trigger] out[k]) == stored(models[k]),
                decreases v.len() - i,
            {
                proof {
                    assert(models[i as int] == v@[i as int].model());
                }
                let x = to_value(&v[i]);
                out.push(x);
                i += 1;
            }
            proof {
                assert(j.model() == JsonView::Arr(models));
                assert(element_models(out@) =~= stored(j.model())->Arr_0);
                assert(stored(j.model()) is Arr);
            }
            close_value(ValueParts::Arr(out))
        },
        Json::Obj(v) => {
            let ghost models = j.model()->Obj_0;
            let mut out: Vec<(String, serde_json::Value)> = Vec::new();
            let mut i: usize = 0;
            while i < v.len()
                invariant
                    i == out.len(),
                    i <= v.len(),
                    *j == Json::Obj(*v),
                    models == j.model()->Obj_0,
                    forall|k: int|
                        0 <= k < i ==> ((#[trigger] out[k]).0@, value_model(out[k].1)) == (
                            models[k].0,
                            stored(models[k].1),
                        ),
                decreases v.len() - i,
            {
                proof {
                    assert(models[i as int] == (v@[i as int].0@, v@[i as int].1.model()));
                }
                let x = to_value(&v[i].1);
                out.push((v[i].0.clone(), x));
                i += 1;
            }
            proof {
                assert(j.model() == JsonView::Obj(models));
                assert(member_models(out@) =~= stored_members(models));
            }
            close_value(ValueParts::Obj(out))
        },
    }
}

/// Reads a document from its text, or says why the text is none.
pub fn parse_json(text: &str) -> (r: Result<Json, String>)
    ensures
        match r {
            Ok(j) => json_parse(text@) == Ok::<JsonView, Seq<char>>(j.model()),
            Err(e) => json_parse(text@) == Err::<JsonView, Seq<char>>(e@),
        },
{
    match parse_value(text) {
        Ok(v) => Ok(from_value(v)),
        Err(e) => Err(e),
    }
}

/// Writes a document.
pub fn write_json(j: &Json) -> (r: String)
    ensures
        r@ == written(j.model()),
{
    let v = to_value(j);
    value_text(&v)
}

/// A look-up finds what stands first under its key, passes over other keys,
/// and finds nothing in what is no object.
pub proof fn look_up_finds_the_first(
    m: Seq<(Seq<char>, JsonView)>,
    key: Seq<char>,
    other: Seq<char>,
    value: JsonView,
)
    ensures
        field(JsonView::Obj(seq![(key, value)] + m), key) == value,
        other != key ==> field(JsonView::Obj(seq![(other, value)] + m), key) == field(
            JsonView::Obj(m),
            key,
        ),
        field(JsonView::Obj(no_members()), key) == JsonView::Null,
        !(value is Obj) ==> field(value, key) == JsonView::Null,
{
    assert((seq![(key, value)] + m)[0].0 == key);
    let longer = seq![(other, value)] + m;
    assert(longer.drop_first() =~= m);
    assert(longer[0].0 == other);
}

/// The text of a string is read as it is, and that of anything else is the
/// text that stands in for it.
pub proof fn only_strings_have_text(v: JsonView, text: Seq<char>, default: Seq<char>)
    ensures
        as_text(JsonView::Str(text)) == Some(text),
        text_or(JsonView::Str(text), default) == text,
        !(v is Str) ==> as_text(v) is None && text_or(v, default) == default,
{
}

/// A document holds what it is made of.
pub proof fn documents_hold_their_parts(
    flag: bool,
    text: String,
    list: Vec<Json>,
    object: Vec<(String, Json)>,
)
    ensures
        Json::Null.model() == JsonView::Null,
        Json::Bool(flag).model() == JsonView::Bool(flag),
        Json::Number(text).model() == JsonView::Number(text@),
        Json::Str(text).model() == JsonView::Str(text@),
        Json::Arr(list).model() is Arr,
        Json::Arr(list).model()->Arr_0.len() == list@.len(),
        forall|i: int|
            0 <= i < list@.len() ==> #[trigger] Json::Arr(list).model()->Arr_0[i]
                == list@[i].model(),
        Json::Obj(object).model() is Obj,
        Json::Obj(object).model()->Obj_0.len() == object@.len(),
        forall|i: int|
            0 <= i < object@.len() ==> #[trigger] Json::Obj(object).model()->Obj_0[i] == (
                object@[i].0@,
                object@[i].1.model(),
            ),
{
}

/// What is handed over for writing is the document, part by part.
pub proof fn documents_are_written_as_they_are(
    flag: bool,
    text: Seq<char>,
    list: Seq<JsonView>,
    object: Seq<(Seq<char>, JsonView)>,
)
    ensures
        stored(JsonView::Null) == JsonView::Null,
        stored(JsonView::Bool(flag)) == JsonView::Bool(flag),
        stored(JsonView::Str(text)) == JsonView::Str(text),
        stored(JsonView::Arr(list)) is Arr,
        stored(JsonView::Arr(list))->Arr_0.len() == list.len(),
        forall|i: int|
            0 <= i < list.len() ==> #[trigger] stored(JsonView::Arr(list))->Arr_0[i] == stored(
                list[i],
            ),
        stored(JsonView::Obj(object)) == json_object(stored_members(object)),
        stored_members(object).len() == object.len(),
        forall|i: int|
            0 <= i < object.len() ==> #[trigger] stored_members(object)[i] == (
                object[i].0,
                stored(object[i].1),
            ),
{
}

/// The models of documents and members are theirs, one for each, in order.
pub proof fn models_are_in_order(list: Seq<Json>, object: Seq<(String, Json)>)
    ensures
        models(list).len() == list.len(),
        forall|i: int| 0 <= i < list.len() ==> #[trigger] models(list)[i] == list[i].model(),
        members(object).len() == object.len(),
        forall|i: int|
            0 <= i < object.len() ==> #[trigger] members(object)[i] == (
                object[i].0@,
                object[i].1.model(),
            ),
{
}

} // verus!
