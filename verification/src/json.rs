//! JSON values as the gateway reads and writes them: a tree of plain values
//! (a number is kept as its text and, when it is one, its unsigned value).
//! Rendering and parsing JSON text is `serde_json`'s.
use vstd::prelude::*;
use crate::text::str_eq;

verus! {

/// A JSON number: its text, and its value when it is an unsigned integer
/// that fits 64 bits.
#[derive(Debug, Clone)]
pub struct JsonNumber {
    pub text: String,
    pub unsigned: Option<u64>,
}

/// A JSON value.
#[derive(Debug)]
pub enum Json {
    Null,
    Bool(bool),
    Number(JsonNumber),
    Str(String),
    Array(Vec<Json>),
    Object(Vec<(String, Json)>),
}

/// A JSON value in specifications.
pub enum JsonView {
    Null,
    Bool(bool),
    Num(Seq<char>, Option<u64>),
    Str(Seq<char>),
    Arr(Seq<JsonView>),
    Obj(Seq<(Seq<char>, JsonView)>),
}

impl Json {
    /// The value this stands for.
    pub open spec fn view_of(self) -> JsonView
        decreases self,
    {
        match self {
            Json::Null => JsonView::Null,
            Json::Bool(b) => JsonView::Bool(b),
            Json::Number(n) => JsonView::Num(n.text@, n.unsigned),
            Json::Str(s) => JsonView::Str(s@),
            Json::Array(v) => JsonView::Arr(view_items(v@)),
            Json::Object(o) => JsonView::Obj(view_fields(o@)),
        }
    }
}

/// The values of a list.
pub open spec fn view_items(s: Seq<Json>) -> Seq<JsonView>
    decreases s,
{
    if s.len() == 0 {
        Seq::empty()
    } else {
        view_items(s.drop_last()).push(s.last().view_of())
    }
}

/// The fields of an object.
pub open spec fn view_fields(s: Seq<(String, Json)>) -> Seq<(Seq<char>, JsonView)>
    decreases s,
{
    if s.len() == 0 {
        Seq::empty()
    } else {
        view_fields(s.drop_last()).push((s.last().0@, s.last().1.view_of()))
    }
}

/// Each item's value, position by position.
pub proof fn lemma_view_items(s: Seq<Json>)
    ensures
        view_items(s).len() == s.len(),
        forall|i: int| 0 <= i < s.len() ==> #[trigger] view_items(s)[i] == s[i].view_of(),
    decreases s.len(),
{
    if s.len() > 0 {
        lemma_view_items(s.drop_last());
    }
}

/// Each field's name and value, position by position.
pub proof fn lemma_view_fields(s: Seq<(String, Json)>)
    ensures
        view_fields(s).len() == s.len(),
        forall|i: int| 0 <= i < s.len() ==> #[trigger] view_fields(s)[i] == (s[i].0@, s[i].1.view_of()),
    decreases s.len(),
{
    if s.len() > 0 {
        lemma_view_fields(s.drop_last());
    }
}

/// The value of the first field named `key`.
pub open spec fn field(fs: Seq<(Seq<char>, JsonView)>, key: Seq<char>) -> Option<JsonView>
    decreases fs.len(),
{
    if fs.len() == 0 {
        None
    } else if fs[0].0 == key {
        Some(fs[0].1)
    } else {
        field(fs.drop_first(), key)
    }
}

/// `i` is the position of the first field named `key`.
pub open spec fn first_at(fs: Seq<(Seq<char>, JsonView)>, key: Seq<char>, i: int) -> bool {
    &&& 0 <= i < fs.len()
    &&& fs[i].0 == key
    &&& forall|j: int| 0 <= j < i ==> fs[j].0 != key
}

/// The first field named `key` gives the value `field` finds; with no such
/// field, `field` finds nothing.
pub proof fn lemma_field_first(fs: Seq<(Seq<char>, JsonView)>, key: Seq<char>)
    ensures
        forall|i: int| first_at(fs, key, i) ==> field(fs, key) == Some(fs[i].1),
        (forall|i: int| 0 <= i < fs.len() ==> fs[i].0 != key) ==> field(fs, key) is None,
    decreases fs.len(),
{
    if fs.len() > 0 {
        lemma_field_first(fs.drop_first(), key);
        assert forall|i: int| first_at(fs, key, i) implies field(fs, key) == Some(fs[i].1) by {
            if i > 0 {
                assert(first_at(fs.drop_first(), key, i - 1));
            }
        }
        if forall|i: int| 0 <= i < fs.len() ==> fs[i].0 != key {
            assert(fs[0].0 != key);
            assert forall|i: int| 0 <= i < fs.drop_first().len() implies fs.drop_first()[i].0 != key by {
                assert(fs[i + 1].0 != key);
            }
        }
    }
}

/// The fields with `key` set to `v`: the first field of that name takes the
/// value, or the field is appended.
pub open spec fn obj_insert(fs: Seq<(Seq<char>, JsonView)>, key: Seq<char>, v: JsonView) -> Seq<(Seq<char>, JsonView)> {
    if exists|i: int| first_at(fs, key, i) {
        fs.update(choose|i: int| first_at(fs, key, i), (key, v))
    } else {
        fs.push((key, v))
    }
}

/// Where the first field named `key` is at `i`, setting the key writes there.
pub proof fn lemma_obj_insert_at(fs: Seq<(Seq<char>, JsonView)>, key: Seq<char>, v: JsonView, i: int)
    requires
        first_at(fs, key, i),
    ensures
        obj_insert(fs, key, v) == fs.update(i, (key, v)),
{
    let c = choose|j: int| first_at(fs, key, j);
    assert(c == i) by {
        if c < i {
            assert(fs[c].0 != key);
        }
        if c > i {
            assert(fs[i].0 != key);
        }
    }
}

/// After setting a key, the key gives the value set.
pub proof fn lemma_obj_insert_same(fs: Seq<(Seq<char>, JsonView)>, key: Seq<char>, v: JsonView)
    ensures
        field(obj_insert(fs, key, v), key) == Some(v),
{
    if exists|i: int| first_at(fs, key, i) {
        let i = choose|i: int| first_at(fs, key, i);
        let u = fs.update(i, (key, v));
        assert(first_at(u, key, i));
        lemma_field_first(u, key);
    } else {
        let u = fs.push((key, v));
        assert forall|j: int| 0 <= j < fs.len() implies fs[j].0 != key by {
            if fs[j].0 == key {
                lemma_first_exists(fs, key, j);
            }
        }
        assert(first_at(u, key, fs.len() as int));
        lemma_field_first(u, key);
    }
}

/// Where `key` occurs, some position is its first.
proof fn lemma_first_exists(fs: Seq<(Seq<char>, JsonView)>, key: Seq<char>, j: int)
    requires
        0 <= j < fs.len(),
        fs[j].0 == key,
    ensures
        exists|i: int| first_at(fs, key, i),
    decreases j,
{
    if forall|l: int| 0 <= l < j ==> fs[l].0 != key {
        assert(first_at(fs, key, j));
    } else {
        let l = choose|l: int| 0 <= l < j && fs[l].0 == key;
        lemma_first_exists(fs, key, l);
    }
}

/// Setting one key leaves what every other key gives.
pub proof fn lemma_obj_insert_other(fs: Seq<(Seq<char>, JsonView)>, key: Seq<char>, v: JsonView, other: Seq<char>)
    requires
        other != key,
    ensures
        field(obj_insert(fs, key, v), other) == field(fs, other),
{
    let u = obj_insert(fs, key, v);
    assert(u.len() >= fs.len());
    assert(forall|j: int| 0 <= j < fs.len() ==> (u[j].0 == other <==> fs[j].0 == other));
    lemma_field_first(fs, other);
    lemma_field_first(u, other);
    if exists|i: int| first_at(fs, other, i) {
        let i = choose|i: int| first_at(fs, other, i);
        assert(first_at(u, other, i));
        assert(u[i].1 == fs[i].1);
    } else {
        assert forall|j: int| 0 <= j < fs.len() implies fs[j].0 != other by {
            if fs[j].0 == other {
                lemma_first_exists(fs, other, j);
            }
        }
        assert(forall|j: int| 0 <= j < u.len() ==> u[j].0 != other);
    }
}

/// Sets field `key` of an object's fields to `v`.
pub fn set_field(fs: &mut Vec<(String, Json)>, key: &str, v: Json)
    ensures
        view_fields(final(fs)@) == obj_insert(view_fields(old(fs)@), key@, v.view_of()),
{
    let ghost before = view_fields(fs@);
    proof {
        lemma_view_fields(fs@);
    }
    let ghost vv = v.view_of();
    match crate::kvmap::find_key(fs, key) {
        Some(i) => {
            assert(first_at(before, key@, i as int));
            proof {
                let c = choose|j: int| first_at(before, key@, j);
                assert(c == i) by {
                    if c < i {
                        assert(before[c].0 != key@);
                    }
                    if c > i {
                        assert(before[i as int].0 != key@);
                    }
                }
            }
            fs.set(i, (key.to_string(), v));
            proof {
                lemma_view_fields(fs@);
                assert(view_fields(fs@) =~= before.update(i as int, (key@, vv)));
            }
        },
        None => {
            assert(!exists|j: int| first_at(before, key@, j));
            let ghost old_fs = fs@;
            fs.push((key.to_string(), v));
            assert(fs@.drop_last() =~= old_fs);
        },
    }
}

/// `v[key]` of an object; nothing for other values.
pub open spec fn jget(v: JsonView, key: Seq<char>) -> Option<JsonView> {
    match v {
        JsonView::Obj(fs) => field(fs, key),
        _ => None,
    }
}

/// `v[key]` when it is a string.
pub open spec fn jstr(v: JsonView, key: Seq<char>) -> Option<Seq<char>> {
    match jget(v, key) {
        Some(JsonView::Str(s)) => Some(s),
        _ => None,
    }
}

/// `v[key]` when it is an unsigned integer.
pub open spec fn ju64(v: JsonView, key: Seq<char>) -> Option<u64> {
    match jget(v, key) {
        Some(JsonView::Num(_, u)) => u,
        _ => None,
    }
}

/// `v[key]` when it is an array.
pub open spec fn jarr(v: JsonView, key: Seq<char>) -> Option<Seq<JsonView>> {
    match jget(v, key) {
        Some(JsonView::Arr(a)) => Some(a),
        _ => None,
    }
}

/// An optional string, or a default.
pub open spec fn or_text(s: Option<Seq<char>>, d: Seq<char>) -> Seq<char> {
    match s {
        Some(x) => x,
        None => d,
    }
}

impl Json {
    /// `self[key]` of an object.
    pub fn get(&self, key: &str) -> (r: Option<&Json>)
        ensures
            match r {
                Some(x) => jget(self.view_of(), key@) == Some(x.view_of()),
                None => jget(self.view_of(), key@) is None,
            },
    {
        match self {
            Json::Object(fs) => {
                proof {
                    lemma_view_fields(fs@);
                    assert(view_fields(fs@).skip(0) =~= view_fields(fs@));
                }
                let mut i: usize = 0;
                while i < fs.len()
                    invariant
                        *self == Json::Object(*fs),
                        i <= fs.len(),
                        view_fields(fs@).len() == fs@.len(),
                        forall|k: int| 0 <= k < fs@.len() ==> #[trigger] view_fields(fs@)[k] == (fs@[k].0@, fs@[k].1.view_of()),
                        field(view_fields(fs@), key@) == field(view_fields(fs@).skip(i as int), key@),
                    decreases fs.len() - i,
                {
                    let ghost rest = view_fields(fs@).skip(i as int);
                    assert(rest[0] == view_fields(fs@)[i as int]);
                    if str_eq(fs[i].0.as_str(), key) {
                        assert(field(rest, key@) == Some(rest[0].1));
                        return Some(&fs[i].1);
                    }
                    assert(rest.drop_first() =~= view_fields(fs@).skip(i + 1));
                    i = i + 1;
                }
                None
            },
            _ => None,
        }
    }

    /// The text of a string value.
    pub fn as_str(&self) -> (r: Option<&str>)
        ensures
            match r {
                Some(s) => self.view_of() == JsonView::Str(s@),
                None => !(self.view_of() is Str),
            },
    {
        match self {
            Json::Str(s) => Some(s.as_str()),
            _ => None,
        }
    }

    /// The value of an unsigned integer.
    pub fn as_u64(&self) -> (r: Option<u64>)
        ensures
            r == match self.view_of() {
                JsonView::Num(_, u) => u,
                _ => None,
            },
    {
        match self {
            Json::Number(n) => n.unsigned,
            _ => None,
        }
    }

    /// The items of an array.
    pub fn as_array(&self) -> (r: Option<&Vec<Json>>)
        ensures
            match r {
                Some(a) => self.view_of() == JsonView::Arr(view_items(a@)),
                None => !(self.view_of() is Arr),
            },
    {
        match self {
            Json::Array(a) => Some(a),
            _ => None,
        }
    }

    /// `self[key]` as a string.
    pub fn get_str(&self, key: &str) -> (r: Option<&str>)
        ensures
            match r {
                Some(s) => jstr(self.view_of(), key@) == Some(s@),
                None => jstr(self.view_of(), key@) is None,
            },
    {
        match self.get(key) {
            Some(v) => v.as_str(),
            None => None,
        }
    }

    /// `self[key]` as an unsigned integer.
    pub fn get_u64(&self, key: &str) -> (r: Option<u64>)
        ensures
            r == ju64(self.view_of(), key@),
    {
        match self.get(key) {
            Some(v) => v.as_u64(),
            None => None,
        }
    }

    /// `self[key]` as an array.
    pub fn get_array(&self, key: &str) -> (r: Option<&Vec<Json>>)
        ensures
            match r {
                Some(a) => jarr(self.view_of(), key@) == Some(view_items(a@)),
                None => jarr(self.view_of(), key@) is None,
            },
    {
        match self.get(key) {
            Some(v) => v.as_array(),
            None => None,
        }
    }

    /// A copy.
    pub fn duplicate(&self) -> (r: Json)
        ensures
            r.view_of() == self.view_of(),
        decreases self,
    {
        match self {
            Json::Null => Json::Null,
            Json::Bool(b) => Json::Bool(*b),
            Json::Number(n) => Json::Number(JsonNumber { text: n.text.clone(), unsigned: n.unsigned }),
            Json::Str(s) => Json::Str(s.clone()),
            Json::Array(v) => {
                let mut out: Vec<Json> = Vec::new();
                let mut i: usize = 0;
                while i < v.len()
                    invariant
                        *self == Json::Array(*v),
                        i <= v.len(),
                        view_items(out@) == view_items(v@.take(i as int)),
                    decreases v.len() - i,
                {
                    proof {
                        assert(decreases_to!(*self => (*self)->Array_0));
                        assert(decreases_to!(*v => v@));
                        assert(decreases_to!(v@ => v@[i as int]));
                        assert(decreases_to!(*self => v@[i as int]));
                    }
                    let c = v[i].duplicate();
                    let ghost prev = out@;
                    out.push(c);
                    proof {
                        assert(out@.drop_last() =~= prev);
                        assert(v@.take(i + 1).drop_last() =~= v@.take(i as int));
                    }
                    i = i + 1;
                }
                assert(v@.take(v.len() as int) =~= v@);
                Json::Array(out)
            },
            Json::Object(o) => {
                let mut out: Vec<(String, Json)> = Vec::new();
                let mut i: usize = 0;
                while i < o.len()
                    invariant
                        *self == Json::Object(*o),
                        i <= o.len(),
                        view_fields(out@) == view_fields(o@.take(i as int)),
                    decreases o.len() - i,
                {
                    proof {
                        assert(decreases_to!(*self => (*self)->Object_0));
                        assert(decreases_to!(*o => o@));
                        assert(decreases_to!(o@ => o@[i as int]));
                        assert(decreases_to!(o@[i as int] => o@[i as int].1));
                        assert(decreases_to!(*self => o@[i as int].1));
                    }
                    let c = o[i].1.duplicate();
                    let ghost prev = out@;
                    out.push((o[i].0.clone(), c));
                    proof {
                        assert(out@.drop_last() =~= prev);
                        assert(o@.take(i + 1).drop_last() =~= o@.take(i as int));
                    }
                    i = i + 1;
                }
                assert(o@.take(o.len() as int) =~= o@);
                Json::Object(out)
            },
        }
    }
}

/// The `text` strings of a list of values, in order (values without one are
/// skipped).
pub open spec fn texts_of(a: Seq<JsonView>) -> Seq<Seq<char>>
    decreases a.len(),
{
    if a.len() == 0 {
        Seq::empty()
    } else {
        texts_of(a.drop_last()) + match jstr(a.last(), "text"@) {
            Some(t) => seq![t],
            None => Seq::empty(),
        }
    }
}

/// Collects the `text` strings of a list of values.
pub fn collect_texts(a: &Vec<Json>) -> (r: Vec<String>)
    ensures
        crate::text::string_views(r@) == texts_of(view_items(a@)),
{
    let mut r: Vec<String> = Vec::new();
    let mut i: usize = 0;
    proof {
        lemma_view_items(a@);
    }
    while i < a.len()
        invariant
            i <= a.len(),
            view_items(a@).len() == a@.len(),
            forall|k: int| 0 <= k < a@.len() ==> #[trigger] view_items(a@)[k] == a@[k].view_of(),
            crate::text::string_views(r@) == texts_of(view_items(a@).take(i as int)),
        decreases a.len() - i,
    {
        let ghost before = r@;
        assert(view_items(a@).take(i + 1).drop_last() =~= view_items(a@).take(i as int));
        match a[i].get_str("text") {
            Some(t) => {
                r.push(t.to_string());
                assert(crate::text::string_views(r@) =~= crate::text::string_views(before) + seq![t@]);
            },
            None => {},
        }
        i = i + 1;
    }
    assert(view_items(a@).take(a.len() as int) =~= view_items(a@));
    r
}

/// A string value.
pub fn jtext(s: &str) -> (j: Json)
    ensures
        j.view_of() == JsonView::Str(s@),
{
    Json::Str(s.to_string())
}

/// An unsigned-integer value.
pub fn jnum(n: u64) -> (j: Json)
    ensures
        j.view_of() == JsonView::Num(crate::text::decimal(n as nat), Some(n)),
{
    Json::Number(JsonNumber { text: crate::text::u64_decimal(n), unsigned: Some(n) })
}

} // verus!

verus! {

/// The compact text `serde_json` renders for a value (object keys in
/// ascending order).
pub uninterp spec fn json_text_of(v: JsonView) -> Seq<char>;

/// What `serde_json` parses a text into (`None`: not JSON).
pub uninterp spec fn json_parse_of(s: Seq<char>) -> Option<JsonView>;

/// The `serde_json::Value` a value stands for (conversion only).
#[verifier::external_body]
fn to_serde(j: &Json) -> serde_json::Value {
    match j {
        Json::Null => serde_json::Value::Null,
        Json::Bool(b) => serde_json::Value::Bool(*b),
        Json::Number(n) => n.text.parse::<serde_json::Number>().map(serde_json::Value::Number).unwrap_or(serde_json::Value::Null),
        Json::Str(s) => serde_json::Value::String(s.clone()),
        Json::Array(a) => serde_json::Value::Array(a.iter().map(to_serde).collect()),
        Json::Object(o) => serde_json::Value::Object(o.iter().map(|(k, v)| (k.clone(), to_serde(v))).collect()),
    }
}

/// The value a `serde_json::Value` holds (conversion only).
#[verifier::external_body]
fn from_serde(v: &serde_json::Value) -> Json {
    match v {
        serde_json::Value::Null => Json::Null,
        serde_json::Value::Bool(b) => Json::Bool(*b),
        serde_json::Value::Number(n) => Json::Number(JsonNumber { text: n.to_string(), unsigned: n.as_u64() }),
        serde_json::Value::String(s) => Json::Str(s.clone()),
        serde_json::Value::Array(a) => Json::Array(a.iter().map(from_serde).collect()),
        serde_json::Value::Object(m) => Json::Object(m.iter().map(|(k, x)| (k.clone(), from_serde(x))).collect()),
    }
}

/// `serde_json::to_string` of the value: the text is named `json_text_of`
/// of the value (rendering a `Value` does not fail).
#[verifier::external_body]
pub(crate) fn json_text(j: &Json) -> (s: String)
    ensures
        s@ == json_text_of(j.view_of()),
{
    serde_json::to_string(&to_serde(j)).unwrap_or_default()
}

/// `serde_json::from_str` into a value: the result is named `json_parse_of`
/// of the text; on failure, serde's error text (its wording is not stated).
#[verifier::external_body]
pub(crate) fn json_parse(s: &str) -> (r: Result<Json, String>)
    ensures
        match r {
            Ok(j) => json_parse_of(s@) == Some(j.view_of()),
            Err(_) => json_parse_of(s@) is None,
        },
{
    match serde_json::from_str::<serde_json::Value>(s) {
        Ok(v) => Ok(from_serde(&v)),
        Err(e) => Err(e.to_string()),
    }
}

} // verus!
