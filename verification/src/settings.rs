//! Declared settings: defaults filled in under user overrides (deep merge of
//! objects), and secret values redacted for display.
use vstd::prelude::*;
use crate::config::Sensitivity;
use crate::json::{
    field, first_at, jget, lemma_field_first, lemma_obj_insert_at, lemma_obj_insert_other, lemma_obj_insert_same, lemma_view_fields, obj_insert,
    set_field, view_fields, Json, JsonView,
};
use crate::kvmap::keys_distinct;
use crate::text::{split_by, split_char, string_views};

verus! {

/// A declared setting: its key (a dotted path), default, sensitivity and the
/// role it belongs to (`server` / `client` / `global`).
#[derive(Debug)]
pub struct ConfigField {
    pub key: &'static str,
    pub default: Json,
    pub sensitivity: Sensitivity,
    pub role: &'static str,
}

impl ConfigField {
    /// An ordinary setting.
    pub fn new(key: &'static str, default: Json, role: &'static str) -> (f: Self)
        ensures
            f.key == key,
            f.default == default,
            f.sensitivity == Sensitivity::Normal,
            f.role == role,
    {
        ConfigField { key, default, sensitivity: Sensitivity::Normal, role }
    }

    /// The same setting, marked secret.
    pub fn secret(self) -> (f: Self)
        ensures
            f.key == self.key,
            f.default == self.default,
            f.sensitivity == Sensitivity::Secret,
            f.role == self.role,
    {
        ConfigField { key: self.key, default: self.default, sensitivity: Sensitivity::Secret, role: self.role }
    }
}

/// `overrides` merged into `target`: where both are objects, each override
/// field replaces the target's field of that name, except that two objects
/// are merged in turn; otherwise the target stays.
pub open spec fn merged(t: JsonView, o: JsonView) -> JsonView
    decreases o, 0int,
{
    match o {
        JsonView::Obj(of) => match t {
            JsonView::Obj(tf) => JsonView::Obj(merged_fields(tf, of, of.len() as int)),
            _ => t,
        },
        _ => t,
    }
}

/// The target fields after the first `n` override fields.
pub open spec fn merged_fields(tf: Seq<(Seq<char>, JsonView)>, of: Seq<(Seq<char>, JsonView)>, n: int) -> Seq<(Seq<char>, JsonView)>
    decreases of, n,
{
    if n <= 0 || n > of.len() {
        tf
    } else {
        let acc = merged_fields(tf, of, n - 1);
        let k = of[n - 1].0;
        proof {
            assert(decreases_to!(of => of[n - 1]));
            assert(decreases_to!(of[n - 1] => of[n - 1].1));
        }
        match field(acc, k) {
            Some(existing) => if existing is Obj && of[n - 1].1 is Obj {
                obj_insert(acc, k, merged(existing, of[n - 1].1))
            } else {
                obj_insert(acc, k, of[n - 1].1)
            },
            None => obj_insert(acc, k, of[n - 1].1),
        }
    }
}

/// `v` written at a dotted path: every step before the last must be an
/// existing object, else nothing is written.
pub open spec fn path_set(t: JsonView, parts: Seq<Seq<char>>, v: JsonView) -> JsonView
    decreases parts.len(),
{
    if parts.len() == 0 {
        t
    } else if parts.len() == 1 {
        match t {
            JsonView::Obj(fs) => JsonView::Obj(obj_insert(fs, parts[0], v)),
            _ => t,
        }
    } else {
        match t {
            JsonView::Obj(fs) => match field(fs, parts[0]) {
                Some(JsonView::Obj(inner)) => JsonView::Obj(
                    obj_insert(fs, parts[0], path_set(JsonView::Obj(inner), parts.drop_first(), v)),
                ),
                _ => t,
            },
            _ => t,
        }
    }
}

/// The value with each declared default written at its path where the key
/// is absent.
pub open spec fn with_defaults(t: JsonView, fields: Seq<ConfigField>) -> JsonView
    decreases fields.len(),
{
    if fields.len() == 0 {
        t
    } else {
        let r = with_defaults(t, fields.drop_last());
        let f = fields.last();
        if jget(r, f.key@) is None {
            path_set(r, split_by(f.key@, '.'), f.default.view_of())
        } else {
            r
        }
    }
}

/// The value with each secret field that is present shown as `true` (or
/// `null` when it is null).
pub open spec fn redacted(t: JsonView, fields: Seq<ConfigField>) -> JsonView
    decreases fields.len(),
{
    if fields.len() == 0 {
        t
    } else {
        let r = redacted(t, fields.drop_last());
        let f = fields.last();
        if f.sensitivity == Sensitivity::Secret {
            match r {
                JsonView::Obj(fs) => match field(fs, f.key@) {
                    Some(x) => JsonView::Obj(obj_insert(fs, f.key@, if x is Null {
                        JsonView::Null
                    } else {
                        JsonView::Bool(true)
                    })),
                    None => r,
                },
                _ => r,
            }
        } else {
            r
        }
    }
}

/// The first field named `k`, found in the fields.
fn find_field(fs: &Vec<(String, Json)>, k: &str) -> (r: Option<usize>)
    ensures
        r matches Some(i) ==> i < fs.len() && first_at(view_fields(fs@), k@, i as int)
            && field(view_fields(fs@), k@) == Some(fs@[i as int].1.view_of()),
        r is None ==> field(view_fields(fs@), k@) is None,
{
    proof {
        lemma_view_fields(fs@);
        lemma_field_first(view_fields(fs@), k@);
    }
    let r = crate::kvmap::find_key(fs, k);
    proof {
        match r {
            Some(i) => {
                assert forall|j: int| 0 <= j < i implies view_fields(fs@)[j].0 != k@ by {
                    assert(fs@[j].0@ != k@);
                }
                assert(first_at(view_fields(fs@), k@, i as int));
            },
            None => {
                assert forall|j: int| 0 <= j < view_fields(fs@).len() implies view_fields(fs@)[j].0 != k@ by {
                    assert(fs@[j].0@ != k@);
                }
            },
        }
    }
    r
}

/// `overrides` merged into `target` (see `merged`).
fn merged_json(t: Json, o: &Json) -> (r: Json)
    ensures
        r.view_of() == merged(t.view_of(), o.view_of()),
    decreases o,
{
    match o {
        Json::Object(of) => match t {
            Json::Object(mut tf) => {
                let ghost tv = view_fields(tf@);
                let ghost ov = view_fields(of@);
                proof {
                    lemma_view_fields(of@);
                }
                let mut j: usize = 0;
                while j < of.len()
                    invariant
                        *o == Json::Object(*of),
                        j <= of.len(),
                        ov == view_fields(of@),
                        ov.len() == of@.len(),
                        forall|k: int| 0 <= k < of@.len() ==> #[trigger] ov[k] == (of@[k].0@, of@[k].1.view_of()),
                        view_fields(tf@) == merged_fields(tv, ov, j as int),
                    decreases of.len() - j,
                {
                    proof {
                        assert(decreases_to!(*o => (*o)->Object_0));
                        assert(decreases_to!(*of => of@));
                        assert(decreases_to!(of@ => of@[j as int]));
                        assert(decreases_to!(of@[j as int] => of@[j as int].1));
                        assert(decreases_to!(*o => of@[j as int].1));
                    }
                    let key = of[j].0.as_str();
                    let v = &of[j].1;
                    let ghost acc = view_fields(tf@);
                    match find_field(&tf, key) {
                        Some(i) => {
                            let both = match (&tf[i].1, v) {
                                (Json::Object(_), Json::Object(_)) => true,
                                _ => false,
                            };
                            if both {
                                let ghost before = tf@;
                                let (k0, existing) = tf.remove(i);
                                let m = merged_json(existing, v);
                                let ghost mv = m.view_of();
                                tf.insert(i, (k0, m));
                                proof {
                                    assert(tf@ =~= before.update(i as int, (before[i as int].0, tf@[i as int].1)));
                                    lemma_view_fields(before);
                                    lemma_view_fields(tf@);
                                    lemma_obj_insert_at(acc, key@, mv, i as int);
                                    assert(view_fields(tf@) =~= acc.update(i as int, (key@, mv)));
                                }
                            } else {
                                set_field(&mut tf, key, v.duplicate());
                            }
                        },
                        None => {
                            set_field(&mut tf, key, v.duplicate());
                        },
                    }
                    assert(view_fields(tf@) == merged_fields(tv, ov, j + 1));
                    j = j + 1;
                }
                Json::Object(tf)
            },
            other => other,
        },
        _ => t,
    }
}

/// Deep-merges `overrides` into `target`.
pub fn deep_merge(target: &mut Json, overrides: &Json)
    ensures
        final(target).view_of() == merged(old(target).view_of(), overrides.view_of()),
{
    let mut t = Json::Null;
    std::mem::swap(target, &mut t);
    *target = merged_json(t, overrides);
}

/// `v` written at the dotted path `parts[i..]`.
fn set_path(t: Json, parts: &Vec<String>, i: usize, v: Json) -> (r: Json)
    requires
        i <= parts.len(),
    ensures
        r.view_of() == path_set(t.view_of(), string_views(parts@).skip(i as int), v.view_of()),
    decreases parts.len() - i,
{
    let ghost rest = string_views(parts@).skip(i as int);
    if i == parts.len() {
        assert(rest.len() == 0);
        return t;
    }
    assert(rest[0] == parts@[i as int]@);
    if i + 1 == parts.len() {
        match t {
            Json::Object(mut fs) => {
                set_field(&mut fs, parts[i].as_str(), v);
                Json::Object(fs)
            },
            other => other,
        }
    } else {
        match t {
            Json::Object(mut fs) => {
                match find_field(&fs, parts[i].as_str()) {
                    Some(j) => {
                        let is_obj = match &fs[j].1 {
                            Json::Object(_) => true,
                            _ => false,
                        };
                        if is_obj {
                            let ghost before = fs@;
                            let ghost acc = view_fields(fs@);
                            let (k0, inner) = fs.remove(j);
                            assert(rest.drop_first() =~= string_views(parts@).skip(i + 1));
                            let w = set_path(inner, parts, i + 1, v);
                            let ghost wv = w.view_of();
                            fs.insert(j, (k0, w));
                            proof {
                                assert(fs@ =~= before.update(j as int, (before[j as int].0, fs@[j as int].1)));
                                lemma_view_fields(before);
                                lemma_view_fields(fs@);
                                lemma_obj_insert_at(acc, parts@[i as int]@, wv, j as int);
                                assert(view_fields(fs@) =~= acc.update(j as int, (parts@[i as int]@, wv)));
                            }
                        }
                        Json::Object(fs)
                    },
                    None => Json::Object(fs),
                }
            },
            other => other,
        }
    }
}

/// The declared defaults filled in where absent, then the overrides
/// deep-merged on top.
pub fn merge(fields: &Vec<ConfigField>, base: &Json, overrides: &Json) -> (r: Json)
    ensures
        r.view_of() == merged(with_defaults(base.view_of(), fields@), overrides.view_of()),
{
    let mut out = base.duplicate();
    let mut i: usize = 0;
    while i < fields.len()
        invariant
            i <= fields.len(),
            out.view_of() == with_defaults(base.view_of(), fields@.take(i as int)),
        decreases fields.len() - i,
    {
        assert(fields@.take(i + 1).drop_last() =~= fields@.take(i as int));
        let f = &fields[i];
        if out.get(f.key).is_none() {
            let parts = split_char(f.key, '.');
            assert(string_views(parts@).skip(0) =~= string_views(parts@));
            out = set_path(out, &parts, 0, f.default.duplicate());
        }
        i = i + 1;
    }
    assert(fields@.take(fields.len() as int) =~= fields@);
    deep_merge(&mut out, overrides);
    out
}

/// The value with secret fields redacted (see `redacted`).
pub fn redact(fields: &Vec<ConfigField>, value: &Json) -> (r: Json)
    ensures
        r.view_of() == redacted(value.view_of(), fields@),
{
    let mut out = value.duplicate();
    let mut i: usize = 0;
    while i < fields.len()
        invariant
            i <= fields.len(),
            out.view_of() == redacted(value.view_of(), fields@.take(i as int)),
        decreases fields.len() - i,
    {
        assert(fields@.take(i + 1).drop_last() =~= fields@.take(i as int));
        let f = &fields[i];
        if f.sensitivity == Sensitivity::Secret {
            out = match out {
                Json::Object(mut fs) => {
                    match find_field(&fs, f.key) {
                        Some(j) => {
                            let shown = match &fs[j].1 {
                                Json::Null => Json::Null,
                                _ => Json::Bool(true),
                            };
                            set_field(&mut fs, f.key, shown);
                        },
                        None => {},
                    }
                    Json::Object(fs)
                },
                other => other,
            };
        }
        i = i + 1;
    }
    assert(fields@.take(fields.len() as int) =~= fields@);
    out
}

} // verus!

verus! {

/// What a key becomes when an override value meets the target's value: two
/// objects are merged, otherwise the override wins.
pub open spec fn override_result(existing: Option<JsonView>, v: JsonView) -> Option<JsonView> {
    match existing {
        Some(e) => if e is Obj && v is Obj {
            Some(merged(e, v))
        } else {
            Some(v)
        },
        None => Some(v),
    }
}

proof fn lemma_merged_fields_at(tf: Seq<(Seq<char>, JsonView)>, of: Seq<(Seq<char>, JsonView)>, n: int, k: Seq<char>)
    requires
        0 <= n <= of.len(),
        keys_distinct(of),
    ensures
        (exists|j: int| 0 <= j < n && of[j].0 == k) ==> field(merged_fields(tf, of, n), k) == override_result(
            field(tf, k),
            of[choose|j: int| 0 <= j < n && of[j].0 == k].1,
        ),
        !(exists|j: int| 0 <= j < n && of[j].0 == k) ==> field(merged_fields(tf, of, n), k) == field(tf, k),
    decreases n,
{
    if n > 0 {
        lemma_merged_fields_at(tf, of, n - 1, k);
        let acc = merged_fields(tf, of, n - 1);
        let k2 = of[n - 1].0;
        let v = of[n - 1].1;
        let val = match field(acc, k2) {
            Some(existing) => if existing is Obj && v is Obj {
                merged(existing, v)
            } else {
                v
            },
            None => v,
        };
        assert(merged_fields(tf, of, n) == obj_insert(acc, k2, val));
        if k2 == k {
            lemma_obj_insert_same(acc, k2, val);
            assert(!(exists|j: int| 0 <= j < n - 1 && of[j].0 == k)) by {
                if exists|j: int| 0 <= j < n - 1 && of[j].0 == k {
                    let j = choose|j: int| 0 <= j < n - 1 && of[j].0 == k;
                    assert(of[j].0 != of[n - 1].0);
                }
            }
            let c = choose|j: int| 0 <= j < n && of[j].0 == k;
            assert(c == n - 1);
        } else {
            lemma_obj_insert_other(acc, k2, val, k);
            if exists|j: int| 0 <= j < n && of[j].0 == k {
                let c = choose|j: int| 0 <= j < n && of[j].0 == k;
                assert(0 <= c < n - 1);
                assert(exists|j: int| 0 <= j < n - 1 && of[j].0 == k);
                let c2 = choose|j: int| 0 <= j < n - 1 && of[j].0 == k;
                assert(c == c2) by {
                    if c != c2 {
                        assert(of[c].0 != of[c2].0);
                    }
                }
            } else {
                assert(!(exists|j: int| 0 <= j < n - 1 && of[j].0 == k));
            }
        }
    }
}

/// Deep-merging overrides (with distinct keys) into an object: each key the
/// overrides hold takes the override's value, except that two objects are
/// merged in turn; every other key keeps the target's value.
pub proof fn law_merged_field(tf: Seq<(Seq<char>, JsonView)>, of: Seq<(Seq<char>, JsonView)>, k: Seq<char>)
    requires
        keys_distinct(of),
    ensures
        field(merged(JsonView::Obj(tf), JsonView::Obj(of))->Obj_0, k) == match field(of, k) {
            Some(v) => override_result(field(tf, k), v),
            None => field(tf, k),
        },
{
    lemma_merged_fields_at(tf, of, of.len() as int, k);
    lemma_field_first(of, k);
    if exists|j: int| 0 <= j < of.len() && of[j].0 == k {
        let c = choose|j: int| 0 <= j < of.len() && of[j].0 == k;
        assert(first_at(of, k, c)) by {
            assert forall|l: int| 0 <= l < c implies of[l].0 != k by {
                assert(of[l].0 != of[c].0);
            }
        }
    }
}

/// A non-object target is left as it is by any overrides, and anything
/// merged with non-object overrides stays as it was.
pub proof fn law_merge_needs_objects(t: JsonView, o: JsonView)
    requires
        !(t is Obj) || !(o is Obj),
    ensures
        merged(t, o) == t,
{
}

/// After redaction every secret field that is present shows `true`, or
/// `null` where it was null; the value stays an object or a non-object.
pub proof fn law_redacted_secret(t: JsonView, fields: Seq<ConfigField>, i: int)
    requires
        0 <= i < fields.len(),
        fields[i].sensitivity == Sensitivity::Secret,
    ensures
        (redacted(t, fields) is Obj) == (t is Obj),
        redacted(t, fields) matches JsonView::Obj(fs) ==> match field(fs, fields[i].key@) {
            Some(x) => x == JsonView::Bool(true) || x == JsonView::Null,
            None => true,
        },
    decreases fields.len(),
{
    let pre = fields.drop_last();
    let f = fields.last();
    if i < fields.len() - 1 {
        assert(pre[i] == fields[i]);
        law_redacted_secret(t, pre, i);
    } else {
        lemma_redacted_shape(t, pre);
    }
    let r = redacted(t, pre);
    if f.sensitivity == Sensitivity::Secret {
        match r {
            JsonView::Obj(fs) => match field(fs, f.key@) {
                Some(x) => {
                    let shown = if x is Null { JsonView::Null } else { JsonView::Bool(true) };
                    lemma_obj_insert_same(fs, f.key@, shown);
                    if f.key@ != fields[i].key@ {
                        lemma_obj_insert_other(fs, f.key@, shown, fields[i].key@);
                    }
                },
                None => {},
            },
            _ => {},
        }
    }
}

/// Redaction keeps a value an object or a non-object.
proof fn lemma_redacted_shape(t: JsonView, fields: Seq<ConfigField>)
    ensures
        (redacted(t, fields) is Obj) == (t is Obj),
    decreases fields.len(),
{
    if fields.len() > 0 {
        lemma_redacted_shape(t, fields.drop_last());
    }
}

} // verus!
