//! Start-up settings: the backends named on the command line (their keys
//! referenced through environment variables), and the leader's ports and
//! link encryption from the settings store.
use vstd::prelude::*;
use crate::backend::{opt_view, BackendEntry};
use crate::link_crypto::{mode_of, LinkEncryptMode};
use crate::text::{char_count, chars_of, concat, split_by, split_char, str_eq, trim, trim_ws};

verus! {

/// The value of the first variable named `name` in an environment listing.
pub open spec fn env_get(vars: Seq<(String, String)>, name: Seq<char>) -> Option<Seq<char>>
    decreases vars.len(),
{
    if vars.len() == 0 {
        None
    } else if vars[0].0@ == name {
        Some(vars[0].1@)
    } else {
        env_get(vars.drop_first(), name)
    }
}

/// The variable is set to something non-empty.
pub open spec fn env_set(vars: Seq<(String, String)>, name: Seq<char>) -> bool {
    env_get(vars, name) matches Some(v) && v.len() > 0
}

/// Looks a variable up in an environment listing.
pub fn env_lookup(vars: &Vec<(String, String)>, name: &str) -> (r: Option<String>)
    ensures
        opt_view(r) == env_get(vars@, name@),
{
    let mut i: usize = 0;
    assert(vars@.skip(0) =~= vars@);
    while i < vars.len()
        invariant
            i <= vars.len(),
            env_get(vars@, name@) == env_get(vars@.skip(i as int), name@),
        decreases vars.len() - i,
    {
        assert(vars@.skip(i as int).drop_first() =~= vars@.skip(i + 1));
        if str_eq(vars[i].0.as_str(), name) {
            return Some(vars[i].1.clone());
        }
        i = i + 1;
    }
    None
}

/// The built-in providers that need a key.
pub open spec fn keyed_provider(n: Seq<char>) -> bool {
    n == "deepseek"@ || n == "kimi"@ || n == "zhipu"@ || n == "codebuddy"@
}

/// A provider name in capitals.
pub open spec fn upper_name(n: Seq<char>) -> Seq<char> {
    if n == "deepseek"@ {
        "DEEPSEEK"@
    } else if n == "kimi"@ {
        "KIMI"@
    } else if n == "zhipu"@ {
        "ZHIPU"@
    } else {
        "CODEBUDDY"@
    }
}

/// `AIPOWERLINK_<NAME>_API_KEY`.
pub open spec fn official_var(n: Seq<char>) -> Seq<char> {
    "AIPOWERLINK_"@ + upper_name(n) + "_API_KEY"@
}

/// `AIPOWERLINK_<NAME>_MODEL`.
pub open spec fn model_var(n: Seq<char>) -> Seq<char> {
    "AIPOWERLINK_"@ + upper_name(n) + "_MODEL"@
}

/// The backend names given: the comma-separated pieces, trimmed, empty ones
/// skipped.
pub open spec fn backend_names(pieces: Seq<Seq<char>>) -> Seq<Seq<char>>
    decreases pieces.len(),
{
    if pieces.len() == 0 {
        Seq::empty()
    } else {
        backend_names(pieces.drop_last()) + if trim_ws(pieces.last()).len() > 0 {
            seq![trim_ws(pieces.last())]
        } else {
            Seq::empty()
        }
    }
}

/// Why a backend name cannot be used, if it cannot: an unknown name, or a
/// keyed provider with none of its key variables set.
pub open spec fn name_error(n: Seq<char>, vars: Seq<(String, String)>) -> Option<Seq<char>> {
    if n == "mock"@ {
        None
    } else if keyed_provider(n) {
        if env_set(vars, official_var(n)) || env_set(vars, "AIPOWERLINK_API_KEY"@)
            || (n == "codebuddy"@ && env_set(vars, "CODEBUDDY_API_KEY"@)) {
            None
        } else {
            Some(n + " backend requires "@ + official_var(n) + " (or AIPOWERLINK_API_KEY) env var"@)
        }
    } else {
        Some("unknown backend: "@ + n + " (mock/deepseek/kimi/zhipu/codebuddy)"@)
    }
}

/// The first unusable name's error.
pub open spec fn first_error(ns: Seq<Seq<char>>, vars: Seq<(String, String)>) -> Option<Seq<char>>
    decreases ns.len(),
{
    if ns.len() == 0 {
        None
    } else {
        match first_error(ns.drop_last(), vars) {
            Some(e) => Some(e),
            None => name_error(ns.last(), vars),
        }
    }
}

/// The entry made for a usable backend name: `mock` as it is; a keyed
/// provider referencing the first of its official, CodeBuddy or global key
/// variables that is set, with the model and base URL variables when set.
pub open spec fn entry_for(e: BackendEntry, n: Seq<char>, vars: Seq<(String, String)>) -> bool {
    &&& e.provider@ == n
    &&& e.id is None
    &&& e.api_key is None
    &&& e.model is None
    &&& if n == "mock"@ {
        &&& e.api_key_env is None
        &&& e.models@.len() == 0
        &&& e.base_url is None
    } else {
        &&& opt_view(e.api_key_env) == Some(if env_set(vars, official_var(n)) {
            official_var(n)
        } else if n == "codebuddy"@ && env_set(vars, "CODEBUDDY_API_KEY"@) {
            "CODEBUDDY_API_KEY"@
        } else {
            "AIPOWERLINK_API_KEY"@
        })
        &&& crate::text::string_views(e.models@) == match env_get(vars, model_var(n)) {
            Some(m) => seq![m],
            None => Seq::empty(),
        }
        &&& opt_view(e.base_url) == env_get(vars, "AIPOWERLINK_BASE_URL"@)
    }
}

fn upper_of(n: &str) -> (r: &'static str)
    requires
        keyed_provider(n@),
    ensures
        r@ == upper_name(n@),
{
    if str_eq(n, "deepseek") {
        "DEEPSEEK"
    } else if str_eq(n, "kimi") {
        "KIMI"
    } else if str_eq(n, "zhipu") {
        "ZHIPU"
    } else {
        "CODEBUDDY"
    }
}

fn set_in(vars: &Vec<(String, String)>, name: &str) -> (b: bool)
    ensures
        b == env_set(vars@, name@),
{
    match env_lookup(vars, name) {
        Some(v) => char_count(v.as_str()) > 0,
        None => false,
    }
}

fn entry_of(n: &str, vars: &Vec<(String, String)>) -> (r: Result<BackendEntry, String>)
    ensures
        r matches Ok(e) ==> name_error(n@, vars@) is None && entry_for(e, n@, vars@),
        r matches Err(m) ==> name_error(n@, vars@) == Some(m@),
{
    if str_eq(n, "mock") {
        return Ok(BackendEntry {
            provider: "mock".to_string(),
            id: None,
            api_key: None,
            api_key_env: None,
            model: None,
            models: Vec::new(),
            base_url: None,
        });
    }
    let keyed = str_eq(n, "deepseek") || str_eq(n, "kimi") || str_eq(n, "zhipu") || str_eq(n, "codebuddy");
    if !keyed {
        let a = concat("unknown backend: ", n);
        return Err(concat(a.as_str(), " (mock/deepseek/kimi/zhipu/codebuddy)"));
    }
    let up = upper_of(n);
    let env_key = concat(concat("AIPOWERLINK_", up).as_str(), "_API_KEY");
    let official = set_in(vars, env_key.as_str());
    let generic = set_in(vars, "AIPOWERLINK_API_KEY");
    let cb_alias = str_eq(n, "codebuddy") && set_in(vars, "CODEBUDDY_API_KEY");
    if !official && !generic && !cb_alias {
        let a = concat(n, " backend requires ");
        let b = concat(a.as_str(), env_key.as_str());
        return Err(concat(b.as_str(), " (or AIPOWERLINK_API_KEY) env var"));
    }
    let key_var = if official {
        env_key
    } else if cb_alias {
        "CODEBUDDY_API_KEY".to_string()
    } else {
        "AIPOWERLINK_API_KEY".to_string()
    };
    let model_key = concat(concat("AIPOWERLINK_", up).as_str(), "_MODEL");
    let mut models: Vec<String> = Vec::new();
    match env_lookup(vars, model_key.as_str()) {
        Some(m) => {
            models.push(m);
        },
        None => {},
    }
    assert(crate::text::string_views(models@) =~= match env_get(vars@, model_var(n@)) {
        Some(m) => seq![m],
        None => Seq::<Seq<char>>::empty(),
    });
    Ok(BackendEntry {
        provider: n.to_string(),
        id: None,
        api_key: None,
        api_key_env: Some(key_var),
        model: None,
        models,
        base_url: env_lookup(vars, "AIPOWERLINK_BASE_URL"),
    })
}

/// The backends named on the command line (`--backend a,b,…`), with the
/// environment listing their key variables are checked in.
pub fn entries_from_env(backend_arg: &str, vars: &Vec<(String, String)>) -> (r: Result<Vec<BackendEntry>, String>)
    ensures
        ({
            let ns = backend_names(split_by(backend_arg@, ','));
            match r {
                Ok(v) => first_error(ns, vars@) is None && ns.len() > 0 && v@.len() == ns.len()
                    && forall|i: int| 0 <= i < ns.len() ==> entry_for(#[trigger] v@[i], ns[i], vars@),
                Err(m) => match first_error(ns, vars@) {
                    Some(e) => m@ == e,
                    None => ns.len() == 0 && m@ == "no backend configured (use --backend mock/deepseek/kimi/zhipu/codebuddy)"@,
                },
            }
        }),
{
    let pieces = split_char(backend_arg, ',');
    let ghost ps = crate::text::string_views(pieces@);
    let mut out: Vec<BackendEntry> = Vec::new();
    let mut i: usize = 0;
    while i < pieces.len()
        invariant
            i <= pieces.len(),
            ps == crate::text::string_views(pieces@),
            ps == split_by(backend_arg@, ','),
            first_error(backend_names(ps.take(i as int)), vars@) is None,
            out@.len() == backend_names(ps.take(i as int)).len(),
            forall|k: int| 0 <= k < out@.len() ==> entry_for(#[trigger] out@[k], backend_names(ps.take(i as int))[k], vars@),
        decreases pieces.len() - i,
    {
        assert(ps.take(i + 1).drop_last() =~= ps.take(i as int));
        assert(ps.take(i + 1).last() == pieces@[i as int]@);
        let ghost before = backend_names(ps.take(i as int));
        let name = trim(pieces[i].as_str());
        if char_count(name.as_str()) > 0 {
            match entry_of(name.as_str(), vars) {
                Ok(e) => {
                    out.push(e);
                    assert(backend_names(ps.take(i + 1)) =~= before.push(name@));
                    assert(backend_names(ps.take(i + 1)).drop_last() =~= before);
                },
                Err(m) => {
                    proof {
                        assert(backend_names(ps.take(i + 1)) =~= before.push(name@));
                        assert(backend_names(ps.take(i + 1)).drop_last() =~= before);
                        lemma_backend_names_prefix(ps, i + 1);
                        let a = backend_names(ps.take(i + 1));
                        let b = backend_names(ps);
                        assert(b.take(a.len() as int) =~= a);
                        lemma_first_error_prefix(a, b, vars@);
                    }
                    return Err(m);
                },
            }
        } else {
            assert(backend_names(ps.take(i + 1)) =~= before);
        }
        i = i + 1;
    }
    assert(ps.take(pieces.len() as int) =~= ps);
    if out.len() == 0 {
        return Err("no backend configured (use --backend mock/deepseek/kimi/zhipu/codebuddy)".to_string());
    }
    Ok(out)
}

/// The names up to a point are a prefix of all the names.
proof fn lemma_backend_names_prefix(ps: Seq<Seq<char>>, i: int)
    requires
        0 <= i <= ps.len(),
    ensures
        backend_names(ps.take(i)).len() <= backend_names(ps).len(),
        backend_names(ps) =~= backend_names(ps.take(i)) + backend_names(ps).skip(backend_names(ps.take(i)).len() as int),
    decreases ps.len() - i,
{
    if i < ps.len() {
        lemma_backend_names_prefix(ps, i + 1);
        assert(ps.take(i + 1).drop_last() =~= ps.take(i));
    } else {
        assert(ps.take(i) =~= ps);
    }
}

/// An error among the first names is the first error of all of them.
proof fn lemma_first_error_prefix(a: Seq<Seq<char>>, b: Seq<Seq<char>>, vars: Seq<(String, String)>)
    requires
        a.len() <= b.len(),
        a =~= b.take(a.len() as int),
        first_error(a, vars) is Some,
    ensures
        first_error(b, vars) == first_error(a, vars),
    decreases b.len(),
{
    if b.len() > a.len() {
        assert(b.drop_last().take(a.len() as int) =~= a);
        lemma_first_error_prefix(a, b.drop_last(), vars);
    } else {
        assert(a =~= b);
    }
}

/// A decimal digit.
pub open spec fn is_digit(c: char) -> bool {
    '0' <= c && c <= '9'
}

/// The value of a decimal digit.
pub open spec fn digit_value(c: char) -> nat {
    (c as int - '0' as int) as nat
}

/// The value of a string of decimal digits.
pub open spec fn digits_value(d: Seq<char>) -> nat
    decreases d.len(),
{
    if d.len() == 0 {
        0
    } else {
        digits_value(d.drop_last()) * 10 + digit_value(d.last())
    }
}

/// The text after an optional leading `+`.
pub open spec fn unsigned_part(s: Seq<char>) -> Seq<char> {
    if s.len() > 0 && s[0] == '+' {
        s.drop_first()
    } else {
        s
    }
}

/// Every character is a decimal digit.
pub open spec fn all_digits(d: Seq<char>) -> bool {
    forall|i: int| 0 <= i < d.len() ==> is_digit(#[trigger] d[i])
}

/// What `str::parse::<u16>` reads: an optional `+`, then one or more
/// decimal digits whose value fits 16 bits.
pub open spec fn u16_text(s: Seq<char>) -> Option<u16> {
    let d = unsigned_part(s);
    if d.len() > 0 && all_digits(d) && digits_value(d) <= 65535 {
        Some(digits_value(d) as u16)
    } else {
        None
    }
}

/// Reads a port number the way `str::parse::<u16>` does.
pub fn parse_u16(s: &str) -> (r: Option<u16>)
    ensures
        r == u16_text(s@),
{
    let v = chars_of(s);
    let start: usize = if v.len() > 0 && v[0] == '+' { 1 } else { 0 };
    let ghost d = unsigned_part(s@);
    assert(d =~= v@.skip(start as int));
    if start >= v.len() {
        return None;
    }
    let mut val: u32 = 0;
    let mut i: usize = start;
    while i < v.len()
        invariant
            v@ == s@,
            start <= i <= v.len(),
            d == unsigned_part(s@),
            d =~= v@.skip(start as int),
            forall|k: int| 0 <= k < i - start ==> is_digit(#[trigger] d[k]),
            val as nat == if digits_value(d.take(i - start)) < 65536 { digits_value(d.take(i - start)) } else { 65536 },
        decreases v.len() - i,
    {
        let c = v[i];
        if !('0' <= c && c <= '9') {
            assert(!is_digit(d[i - start]));
            return None;
        }
        let ghost prev = d.take(i - start);
        assert(d.take(i + 1 - start).drop_last() =~= prev);
        assert(d.take(i + 1 - start).last() == c);
        let dv: u32 = (c as u32) - ('0' as u32);
        assert(dv as nat == digit_value(c));
        let next: u32 = val * 10 + dv;
        val = if next > 65536 { 65536 } else { next };
        assert(digits_value(d.take(i + 1 - start)) == digits_value(prev) * 10 + digit_value(c));
        i = i + 1;
    }
    assert(d.take(v.len() - start) =~= d);
    if val <= 65535 {
        Some(val as u16)
    } else {
        None
    }
}

/// A port setting: the default when unset; otherwise the value read as a
/// port, or the error naming the setting.
pub fn port_setting(value: Option<&str>, key: &str, default: u16) -> (r: Result<u16, String>)
    ensures
        value is None ==> r == Ok::<u16, String>(default),
        value matches Some(v) ==> match u16_text(v@) {
            Some(p) => r == Ok::<u16, String>(p),
            None => r matches Err(m) && m@ == "config "@ + key@ + " invalid: "@ + v@,
        },
{
    match value {
        None => Ok(default),
        Some(v) => match parse_u16(v) {
            Some(p) => Ok(p),
            None => {
                let a = concat(concat("config ", key).as_str(), " invalid: ");
                Err(concat(a.as_str(), v))
            },
        },
    }
}

/// The leader's link encryption setting: `aes-gcm` when unset.
pub fn link_setting(value: Option<&str>) -> (m: LinkEncryptMode)
    ensures
        value is None ==> m == LinkEncryptMode::AesGcm,
        value matches Some(v) ==> m == mode_of(v@),
{
    match value {
        None => LinkEncryptMode::AesGcm,
        Some(v) => LinkEncryptMode::parse(v),
    }
}

} // verus!
