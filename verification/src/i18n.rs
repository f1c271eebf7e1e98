//! Light localisation (zh-CN / en): switchable at run time; the preference
//! file's text is read and written here, the file itself by the caller.
use vstd::prelude::*;
use crate::text::{concat, seq_contains, str_contains, str_eq, trim, trim_ws, has_prefix, starts_with};

verus! {

/// Language.
#[derive(Debug, Clone, Copy, PartialEq, Eq, Hash, Structural)]
pub enum Lang {
    Zh,
    En,
}

impl Lang {
    /// Language code.
    pub fn code(&self) -> (s: &'static str)
        ensures
            s@ == lang_code(*self),
    {
        match self {
            Lang::Zh => "zh-CN",
            Lang::En => "en",
        }
    }
}

/// Language code.
pub open spec fn lang_code(l: Lang) -> Seq<char> {
    match l {
        Lang::Zh => "zh-CN"@,
        Lang::En => "en"@,
    }
}

/// The language a system locale asks for: Chinese only for a `zh` locale
/// (compared lower-cased); English otherwise.
pub open spec fn locale_lang(locale: Seq<char>) -> Lang {
    if has_prefix(crate::policy::lowercase(locale), "zh"@) {
        Lang::Zh
    } else {
        Lang::En
    }
}

/// The language of a system locale (the value of `LANG` or `LC_ALL`).
pub fn lang_from_locale(locale: &str) -> (l: Lang)
    ensures
        l == locale_lang(locale@),
{
    let low = crate::policy::to_lower(locale);
    if starts_with(low.as_str(), "zh") {
        Lang::Zh
    } else {
        Lang::En
    }
}

/// The language a saved preference names: English when the text holds
/// `"en"` (quoted) or is `en` once trimmed; Chinese otherwise.
pub open spec fn pref_lang(data: Seq<char>) -> Lang {
    if seq_contains(data, "\"en\""@) || trim_ws(data) == "en"@ {
        Lang::En
    } else {
        Lang::Zh
    }
}

/// Reads a saved preference.
pub fn parse_pref(data: &str) -> (l: Lang)
    ensures
        l == pref_lang(data@),
{
    let t = trim(data);
    if str_contains(data, "\"en\"") || str_eq(t.as_str(), "en") {
        Lang::En
    } else {
        Lang::Zh
    }
}

/// The preference text saved for a language: `{"lang":"<code>"}`.
pub fn pref_text(l: Lang) -> (s: String)
    ensures
        s@ == "{\"lang\":\""@ + lang_code(l) + "\"}"@,
{
    let a = concat("{\"lang\":\"", l.code());
    concat(a.as_str(), "\"}")
}

/// Chinese texts.
pub open spec fn zh_texts() -> Seq<(Seq<char>, Seq<char>)> {
    seq![
        ("app.name"@, "AIPowerLink"@),
        ("tray.server.menu"@, "组长端"@),
        ("tray.client.menu"@, "组员端"@),
        ("tray.open_console"@, "打开管理面板"@),
        ("tray.start_sharing"@, "开启共享"@),
        ("tray.pause_sharing"@, "暂停共享"@),
        ("tray.quit"@, "退出"@),
        ("tray.leaders"@, "发现的组长"@),
        ("tray.auto_discover"@, "（启动后自动发现）"@),
        ("tray.connection_status"@, "接入状态"@),
        ("tray.rename"@, "修改显示名"@),
        ("tray.show_usage"@, "查看个人用量"@),
        ("cli.starting"@, "启动中..."@),
        ("cli.sharing_enabled"@, "共享已开启"@),
        ("cli.sharing_paused"@, "共享已暂停"@),
        ("cli.broadcast"@, "发现广播"@),
        ("cli.tray_started"@, "系统托盘已启动"@),
        ("cli.tray_disabled"@, "无托盘模式（纯命令行）"@),
        ("cli.open_console"@, "打开管理面板"@),
        ("role.builtin_server"@, "内置组长"@),
        ("role.builtin_client"@, "内置组员"@),
        ("role.custom_server"@, "自定义组长"@),
        ("role.custom_client"@, "自定义组员"@),
        ("role.readonly"@, "内置角色只读，请先 clone 后修改"@),
        ("usage.total"@, "总用量"@),
        ("usage.calls"@, "调用次数"@)
    ]
}

/// English texts.
pub open spec fn en_texts() -> Seq<(Seq<char>, Seq<char>)> {
    seq![
        ("app.name"@, "AIPowerLink"@),
        ("tray.server.menu"@, "Leader"@),
        ("tray.client.menu"@, "Member"@),
        ("tray.open_console"@, "Open console"@),
        ("tray.start_sharing"@, "Start sharing"@),
        ("tray.pause_sharing"@, "Pause sharing"@),
        ("tray.quit"@, "Quit"@),
        ("tray.leaders"@, "Discovered leaders"@),
        ("tray.auto_discover"@, "(auto-discover on start)"@),
        ("tray.connection_status"@, "Connection status"@),
        ("tray.rename"@, "Rename"@),
        ("tray.show_usage"@, "Show usage"@),
        ("cli.starting"@, "starting..."@),
        ("cli.sharing_enabled"@, "sharing enabled"@),
        ("cli.sharing_paused"@, "sharing paused"@),
        ("cli.broadcast"@, "discovery broadcast"@),
        ("cli.tray_started"@, "system tray started"@),
        ("cli.tray_disabled"@, "no-tray mode (CLI only)"@),
        ("cli.open_console"@, "open console"@),
        ("role.builtin_server"@, "Built-in Leader"@),
        ("role.builtin_client"@, "Built-in Member"@),
        ("role.custom_server"@, "Custom Leader"@),
        ("role.custom_client"@, "Custom Member"@),
        ("role.readonly"@, "builtin role is read-only; clone it to customize"@),
        ("usage.total"@, "Total usage"@),
        ("usage.calls"@, "Calls"@)
    ]
}

/// The texts of a language.
pub open spec fn texts(l: Lang) -> Seq<(Seq<char>, Seq<char>)> {
    match l {
        Lang::Zh => zh_texts(),
        Lang::En => en_texts(),
    }
}

/// The text of the first entry with key `key`.
pub open spec fn lookup(d: Seq<(Seq<char>, Seq<char>)>, key: Seq<char>) -> Option<Seq<char>>
    decreases d.len(),
{
    if d.len() == 0 {
        None
    } else if d[0].0 == key {
        Some(d[0].1)
    } else {
        lookup(d.drop_first(), key)
    }
}

/// What `tr` gives: the text in `l`, else the English one, else the key.
pub open spec fn translated(l: Lang, key: Seq<char>) -> Seq<char> {
    match lookup(texts(l), key) {
        Some(v) => v,
        None => match lookup(en_texts(), key) {
            Some(v) => v,
            None => key,
        },
    }
}

/// The texts of a language, as a table.
pub fn dict(l: Lang) -> (d: Vec<(&'static str, &'static str)>)
    ensures
        d@.map_values(|p: (&'static str, &'static str)| (p.0@, p.1@)) == texts(l),
{
    match l {
        Lang::Zh => {
            let d = vec![
        ("app.name", "AIPowerLink"),
        ("tray.server.menu", "组长端"),
        ("tray.client.menu", "组员端"),
        ("tray.open_console", "打开管理面板"),
        ("tray.start_sharing", "开启共享"),
        ("tray.pause_sharing", "暂停共享"),
        ("tray.quit", "退出"),
        ("tray.leaders", "发现的组长"),
        ("tray.auto_discover", "（启动后自动发现）"),
        ("tray.connection_status", "接入状态"),
        ("tray.rename", "修改显示名"),
        ("tray.show_usage", "查看个人用量"),
        ("cli.starting", "启动中..."),
        ("cli.sharing_enabled", "共享已开启"),
        ("cli.sharing_paused", "共享已暂停"),
        ("cli.broadcast", "发现广播"),
        ("cli.tray_started", "系统托盘已启动"),
        ("cli.tray_disabled", "无托盘模式（纯命令行）"),
        ("cli.open_console", "打开管理面板"),
        ("role.builtin_server", "内置组长"),
        ("role.builtin_client", "内置组员"),
        ("role.custom_server", "自定义组长"),
        ("role.custom_client", "自定义组员"),
        ("role.readonly", "内置角色只读，请先 clone 后修改"),
        ("usage.total", "总用量"),
        ("usage.calls", "调用次数")
            ];
            assert(d@.map_values(|p: (&'static str, &'static str)| (p.0@, p.1@)) =~= zh_texts());
            d
        },
        Lang::En => {
            let d = vec![
        ("app.name", "AIPowerLink"),
        ("tray.server.menu", "Leader"),
        ("tray.client.menu", "Member"),
        ("tray.open_console", "Open console"),
        ("tray.start_sharing", "Start sharing"),
        ("tray.pause_sharing", "Pause sharing"),
        ("tray.quit", "Quit"),
        ("tray.leaders", "Discovered leaders"),
        ("tray.auto_discover", "(auto-discover on start)"),
        ("tray.connection_status", "Connection status"),
        ("tray.rename", "Rename"),
        ("tray.show_usage", "Show usage"),
        ("cli.starting", "starting..."),
        ("cli.sharing_enabled", "sharing enabled"),
        ("cli.sharing_paused", "sharing paused"),
        ("cli.broadcast", "discovery broadcast"),
        ("cli.tray_started", "system tray started"),
        ("cli.tray_disabled", "no-tray mode (CLI only)"),
        ("cli.open_console", "open console"),
        ("role.builtin_server", "Built-in Leader"),
        ("role.builtin_client", "Built-in Member"),
        ("role.custom_server", "Custom Leader"),
        ("role.custom_client", "Custom Member"),
        ("role.readonly", "builtin role is read-only; clone it to customize"),
        ("usage.total", "Total usage"),
        ("usage.calls", "Calls")
            ];
            assert(d@.map_values(|p: (&'static str, &'static str)| (p.0@, p.1@)) =~= en_texts());
            d
        },
    }
}

fn find_text(d: &Vec<(&'static str, &'static str)>, key: &str) -> (r: Option<&'static str>)
    ensures
        match r {
            Some(v) => lookup(d@.map_values(|p: (&'static str, &'static str)| (p.0@, p.1@)), key@) == Some(v@),
            None => lookup(d@.map_values(|p: (&'static str, &'static str)| (p.0@, p.1@)), key@) is None,
        },
{
    let ghost full = d@.map_values(|p: (&'static str, &'static str)| (p.0@, p.1@));
    assert(full.skip(0) =~= full);
    let mut i: usize = 0;
    while i < d.len()
        invariant
            i <= d.len(),
            full == d@.map_values(|p: (&'static str, &'static str)| (p.0@, p.1@)),
            lookup(full, key@) == lookup(full.skip(i as int), key@),
        decreases d.len() - i,
    {
        let ghost rest = full.skip(i as int);
        assert(rest[0] == full[i as int]);
        assert(rest.drop_first() =~= full.skip(i + 1));
        if str_eq(d[i].0, key) {
            return Some(d[i].1);
        }
        i = i + 1;
    }
    assert(full.skip(d.len() as int).len() == 0);
    None
}

/// `s` with every occurrence of `pat` replaced by `rep`, left to right.
pub open spec fn replaced(s: Seq<char>, pat: Seq<char>, rep: Seq<char>) -> Seq<char>
    decreases s.len(),
{
    if pat.len() == 0 || s.len() < pat.len() {
        s
    } else if s.subrange(0, pat.len() as int) == pat {
        rep + replaced(s.skip(pat.len() as int), pat, rep)
    } else {
        seq![s[0]] + replaced(s.skip(1), pat, rep)
    }
}

/// Replaces every occurrence of a non-empty `pat` (as `str::replace`).
pub fn replace_all(s: &str, pat: &str, rep: &str) -> (r: String)
    requires
        pat@.len() > 0,
    ensures
        r@ == replaced(s@, pat@, rep@),
{
    let h = crate::text::chars_of(s);
    let p = crate::text::chars_of(pat);
    let rv = crate::text::chars_of(rep);
    let mut out: Vec<char> = Vec::new();
    let mut i: usize = 0;
    assert(h@.skip(0) =~= h@);
    assert(out@ + replaced(h@.skip(0), p@, rv@) =~= replaced(h@, p@, rv@));
    while i < h.len()
        invariant
            h@ == s@,
            p@ == pat@,
            rv@ == rep@,
            p@.len() > 0,
            i <= h.len(),
            out@ + replaced(h@.skip(i as int), p@, rv@) == replaced(h@, p@, rv@),
        decreases h.len() - i,
    {
        let ghost rest = h@.skip(i as int);
        if p.len() <= h.len() - i && crate::text::matches_at_pub(&h, &p, i) {
            assert(rest.subrange(0, p@.len() as int) =~= h@.subrange(i as int, i + p@.len()));
            assert(rest.skip(p@.len() as int) =~= h@.skip(i + p.len()));
            let mut k: usize = 0;
            let ghost out0 = out@;
            while k < rv.len()
                invariant
                    k <= rv.len(),
                    out@ == out0 + rv@.take(k as int),
                decreases rv.len() - k,
            {
                out.push(rv[k]);
                assert(rv@.take(k + 1) =~= rv@.take(k as int).push(rv@[k as int]));
                k = k + 1;
            }
            assert(rv@.take(rv.len() as int) =~= rv@);
            assert(out@ + replaced(h@.skip(i + p.len()), p@, rv@) =~= out0 + replaced(rest, p@, rv@));
            i = i + p.len();
        } else {
            proof {
                if rest.len() >= p@.len() {
                    assert(rest.subrange(0, p@.len() as int) =~= h@.subrange(i as int, i + p@.len()));
                }
            }
            let ghost out0 = out@;
            out.push(h[i]);
            proof {
                assert(rest.skip(1) =~= h@.skip(i + 1));
                if rest.len() < p@.len() {
                    assert(replaced(rest, p@, rv@) == rest);
                    assert(rest =~= seq![rest[0]] + rest.skip(1));
                    assert(replaced(rest.skip(1), p@, rv@) == rest.skip(1));
                }
                assert(out@ + replaced(h@.skip(i + 1), p@, rv@) =~= out0 + replaced(rest, p@, rv@));
            }
            i = i + 1;
        }
    }
    assert(h@.skip(h.len() as int) =~= Seq::<char>::empty());
    assert(out@ =~= out@ + replaced(h@.skip(h.len() as int), p@, rv@));
    crate::text::string_from_chars(&out)
}

/// Localiser: the current language over the built-in texts.
#[derive(Debug, Clone, Copy)]
pub struct I18n {
    lang: Lang,
}

impl I18n {
    pub closed spec fn current(&self) -> Lang {
        self.lang
    }

    /// A localiser starting in `lang` (the saved preference, or the system's).
    pub fn with_lang(lang: Lang) -> (i: Self)
        ensures
            i.current() == lang,
    {
        I18n { lang }
    }

    /// A localiser in English that nothing is saved for.
    pub fn without_persist() -> (i: Self)
        ensures
            i.current() == Lang::En,
    {
        I18n { lang: Lang::En }
    }

    pub fn lang(&self) -> (l: Lang)
        ensures
            l == self.current(),
    {
        self.lang
    }

    /// Switches language (the caller saves `pref_text`).
    pub fn set_lang(&mut self, lang: Lang)
        ensures
            final(self).current() == lang,
    {
        self.lang = lang;
    }

    /// The text of `key`: in the current language, else English, else the key.
    pub fn tr(&self, key: &str) -> (s: String)
        ensures
            s@ == translated(self.current(), key@),
    {
        let d = dict(self.lang);
        match find_text(&d, key) {
            Some(v) => return v.to_string(),
            None => {},
        }
        let en = dict(Lang::En);
        match find_text(&en, key) {
            Some(v) => v.to_string(),
            None => key.to_string(),
        }
    }

    /// The text of `key` with each `{name}` replaced by its value, in order.
    pub fn tr_args(&self, key: &str, args: &[(&str, &str)]) -> (s: String)
        ensures
            s@ == fill_args(translated(self.current(), key@), args@.map_values(|a: (&str, &str)| (a.0@, a.1@))),
    {
        let mut s = self.tr(key);
        let ghost all = args@.map_values(|a: (&str, &str)| (a.0@, a.1@));
        let mut i: usize = 0;
        while i < args.len()
            invariant
                i <= args.len(),
                all == args@.map_values(|a: (&str, &str)| (a.0@, a.1@)),
                s@ == fill_args(translated(self.current(), key@), all.take(i as int)),
            decreases args.len() - i,
        {
            let (k, v) = args[i];
            let a = concat("{", k);
            let pat = concat(a.as_str(), "}");
            proof {
                reveal_strlit("{");
                reveal_strlit("}");
                assert(all.take(i + 1).drop_last() =~= all.take(i as int));
            }
            s = replace_all(s.as_str(), pat.as_str(), v);
            i = i + 1;
        }
        assert(all.take(args.len() as int) =~= all);
        s
    }
}

/// `text` with the placeholders of `args` filled, one after another.
pub open spec fn fill_args(text: Seq<char>, args: Seq<(Seq<char>, Seq<char>)>) -> Seq<char>
    decreases args.len(),
{
    if args.len() == 0 {
        text
    } else {
        let a = args.last();
        replaced(fill_args(text, args.drop_last()), "{"@ + a.0 + "}"@, a.1)
    }
}

} // verus!
