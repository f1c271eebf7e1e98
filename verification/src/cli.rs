//! Command line: the commands and what starting a role decides (parsing the
//! arguments and running the services are the program's part).
use vstd::prelude::*;
use crate::text::{char_count, concat, seq_contains, str_contains, str_eq};

verus! {

/// Command-line options.
#[derive(Debug, Clone)]
pub struct Cli {
    /// Role to run (`server`, `client` or a custom role id).
    pub role: String,
    /// Backends (`mock`, `deepseek`, …; comma separated).
    pub backend: String,
    /// No tray (command line only).
    pub no_tray: bool,
    /// Data directory override.
    pub data_dir: Option<String>,
    pub command: Option<Commands>,
}

#[derive(Debug, Clone)]
pub enum Commands {
    Config { sub: ConfigCmd },
    Role { sub: RoleCmd },
    Version,
    Autostart { sub: AutostartCmd },
    Account { sub: AccountCmd },
}

#[derive(Debug, Clone)]
pub enum AccountCmd {
    Status,
    Enable,
    Disable,
    Register { username: String, email: String },
    Login { username: String, otp: String },
    Bind,
    Logout,
}

#[derive(Debug, Clone)]
pub enum ConfigCmd {
    Get { key: String },
    SetValue { key: String, value: String },
    List,
}

#[derive(Debug, Clone)]
pub enum AutostartCmd {
    Enable,
    Disable,
    Status,
}

#[derive(Debug, Clone)]
pub enum RoleCmd {
    List,
    Show { id: String },
    Clone { from: String, to: String },
    New { id: String },
    Edit { id: String },
    Rm { id: String },
}

impl Cli {
    /// Defaults: the leader role with the mock backend and a tray.
    pub fn defaults() -> (c: Self)
        ensures
            c.role@ == "server"@,
            c.backend@ == "mock"@,
            !c.no_tray,
            c.data_dir is None,
            c.command is None,
    {
        Cli { role: "server".to_string(), backend: "mock".to_string(), no_tray: false, data_dir: None, command: None }
    }
}

/// Single-instance lock name: one for the member role, another for every
/// other role (a leader and a member can run on the same machine).
pub fn lock_name(role: &str) -> (s: &'static str)
    ensures
        s@ == (if role@ == "client"@ { "aipowergateway-client"@ } else { "aipowergateway"@ }),
{
    if str_eq(role, "client") {
        "aipowergateway-client"
    } else {
        "aipowergateway"
    }
}

/// How a role runs.
#[derive(Debug, Clone, Copy, PartialEq, Eq, Structural)]
pub enum RunMode {
    Server,
    Client,
    /// A custom role (runs the leader services with its own modules).
    Custom,
}

/// The run mode of a role name.
pub fn run_mode(role: &str) -> (m: RunMode)
    ensures
        m == (if role@ == "server"@ { RunMode::Server } else if role@ == "client"@ { RunMode::Client } else { RunMode::Custom }),
{
    if str_eq(role, "server") {
        RunMode::Server
    } else if str_eq(role, "client") {
        RunMode::Client
    } else {
        RunMode::Custom
    }
}

/// The tray line of the start banner.
pub fn tray_label(no_tray: bool) -> (s: &'static str)
    ensures
        s@ == (if no_tray { "disabled"@ } else { "enabled"@ }),
{
    if no_tray { "disabled" } else { "enabled" }
}

/// Application name used for autostart registration.
pub const APP_NAME: &'static str = "aipowergateway";

/// The path registered for autostart: on macOS an executable inside an
/// `.app` bundle stands for the bundle (cut after `.app`); other paths stay.
pub open spec fn bundle_path_of(exe: Seq<char>) -> Seq<char> {
    if exists|i: int| crate::text::occurs_at(exe, ".app/Contents/MacOS/"@, i) {
        exe.take(first_at(exe, ".app/Contents/MacOS/"@) + 4)
    } else {
        exe
    }
}

/// The first position where `needle` occurs in `hay`.
pub open spec fn first_at(hay: Seq<char>, needle: Seq<char>) -> int {
    choose|i: int| crate::text::occurs_at(hay, needle, i) && forall|j: int| 0 <= j < i ==> !crate::text::occurs_at(hay, needle, j)
}

/// The autostart path of an executable.
pub fn bundle_path(exe: &str) -> (r: String)
    ensures
        r@ == bundle_path_of(exe@),
{
    let h = crate::text::chars_of(exe);
    let n = crate::text::chars_of(".app/Contents/MacOS/");
    proof {
        reveal_strlit(".app/Contents/MacOS/");
    }
    assert(n@.len() == 20);
    if n.len() > h.len() {
        proof {
            assert forall|i: int| !crate::text::occurs_at(exe@, ".app/Contents/MacOS/"@, i) by {}
        }
        return exe.to_string();
    }
    let mut i: usize = 0;
    while i <= h.len() - n.len()
        invariant
            h@ == exe@,
            n@ == ".app/Contents/MacOS/"@,
            n.len() <= h.len(),
            n.len() == 20,
            i <= h.len() - n.len() + 1,
            forall|j: int| 0 <= j < i ==> !crate::text::occurs_at(exe@, n@, j),
        decreases h.len() - n.len() + 1 - i,
    {
        if crate::text::matches_at_pub(&h, &n, i) {
            proof {
                assert(crate::text::occurs_at(exe@, n@, i as int));
                let f = first_at(exe@, n@);
                assert(crate::text::occurs_at(exe@, n@, f) && forall|j: int| 0 <= j < f ==> !crate::text::occurs_at(exe@, n@, j));
                if f < i {
                } else if f > i {
                    assert(!crate::text::occurs_at(exe@, n@, i as int));
                }
                assert(f == i);
            }
            let mut out: Vec<char> = Vec::new();
            let mut k: usize = 0;
            while k < i + 4
                invariant
                    h@ == exe@,
                    i + 4 <= h.len(),
                    k <= i + 4,
                    out@ == h@.take(k as int),
                decreases i + 4 - k,
            {
                out.push(h[k]);
                assert(h@.take(k + 1) =~= h@.take(k as int).push(h@[k as int]));
                k = k + 1;
            }
            return crate::text::string_from_chars(&out);
        }
        i = i + 1;
    }
    proof {
        assert forall|j: int| !crate::text::occurs_at(exe@, ".app/Contents/MacOS/"@, j) by {
            if 0 <= j < i {
            }
        }
    }
    exe.to_string()
}

} // verus!

verus! {

/// The arguments an autostarted instance is launched with, so that it runs
/// as this one does: `--no-tray`, a role other than `server`, backends other
/// than `mock`, and the data directory when given.
pub open spec fn launch_args_of(no_tray: bool, role: Seq<char>, backend: Seq<char>, data_dir: Option<Seq<char>>) -> Seq<Seq<char>> {
    (if no_tray { seq!["--no-tray"@] } else { Seq::empty() })
        + (if role != "server"@ { seq!["--role"@, role] } else { Seq::empty() })
        + (if backend != "mock"@ { seq!["--backend"@, backend] } else { Seq::empty() })
        + match data_dir {
        Some(d) => seq!["--data-dir"@, d],
        None => Seq::empty(),
    }
}

fn push_arg(args: &mut Vec<String>, a: &str)
    ensures
        crate::text::string_views(final(args)@) == crate::text::string_views(old(args)@).push(a@),
{
    args.push(a.to_string());
    assert(crate::text::string_views(args@) =~= crate::text::string_views(old(args)@).push(a@));
}

/// The autostart launch arguments for these options.
pub fn launch_args(cli: &Cli) -> (r: Vec<String>)
    ensures
        crate::text::string_views(r@) == launch_args_of(cli.no_tray, cli.role@, cli.backend@, match cli.data_dir {
            Some(d) => Some(d@),
            None => None,
        }),
{
    let mut args: Vec<String> = Vec::new();
    if cli.no_tray {
        push_arg(&mut args, "--no-tray");
    }
    if !str_eq(cli.role.as_str(), "server") {
        push_arg(&mut args, "--role");
        push_arg(&mut args, cli.role.as_str());
    }
    if !str_eq(cli.backend.as_str(), "mock") {
        push_arg(&mut args, "--backend");
        push_arg(&mut args, cli.backend.as_str());
    }
    match &cli.data_dir {
        Some(d) => {
            push_arg(&mut args, "--data-dir");
            push_arg(&mut args, d.as_str());
        },
        None => {},
    }
    assert(crate::text::string_views(args@) =~= launch_args_of(cli.no_tray, cli.role@, cli.backend@, match cli.data_dir {
        Some(d) => Some(d@),
        None => None,
    }));
    args
}

/// A setting is stored as a secret when its key mentions a password, a
/// token, an API key or a secret.
pub open spec fn secret_key(key: Seq<char>) -> bool {
    seq_contains(key, "password"@) || seq_contains(key, "token"@) || seq_contains(key, "api_key"@)
        || seq_contains(key, "secret"@)
}

/// Whether `config set` stores this key as a secret.
pub fn is_secret_key(key: &str) -> (b: bool)
    ensures
        b == secret_key(key@),
{
    str_contains(key, "password") || str_contains(key, "token") || str_contains(key, "api_key") || str_contains(key, "secret")
}

/// A set, non-empty value.
pub open spec fn nonempty_text(v: Option<Seq<char>>) -> bool {
    v matches Some(x) && x.len() > 0
}

/// The account server: `AIPOWERLINK_ACCOUNT_URL`, else
/// `AIPOWERLINK_COORD_URL` (each when non-empty), else the stored
/// `account.base_url`.
pub fn account_base_url(account_env: Option<String>, coord_env: Option<String>, configured: Option<String>) -> (r: Option<String>)
    ensures
        ({
            let a = match account_env { Some(s) => Some(s@), None => None };
            let c = match coord_env { Some(s) => Some(s@), None => None };
            let k = match configured { Some(s) => Some(s@), None => None };
            (match r { Some(s) => Some(s@), None => None }) == if nonempty_text(a) {
                a
            } else if nonempty_text(c) {
                c
            } else {
                k
            }
        }),
{
    match account_env {
        Some(a) => {
            if char_count(a.as_str()) > 0 {
                return Some(a);
            }
        },
        None => {},
    }
    match coord_env {
        Some(c) => {
            if char_count(c.as_str()) > 0 {
                return Some(c);
            }
        },
        None => {},
    }
    configured
}

/// `s` padded with spaces on the right to at least `width` characters.
pub open spec fn pad_right(s: Seq<char>, width: nat) -> Seq<char> {
    if s.len() >= width {
        s
    } else {
        s + Seq::new((width - s.len()) as nat, |i: int| ' ')
    }
}

fn padded(s: &str, width: usize) -> (r: String)
    ensures
        r@ == pad_right(s@, width as nat),
{
    let mut r = s.to_string();
    let n = char_count(s);
    let mut k: usize = n;
    while k < width
        invariant
            n == s@.len(),
            n <= k <= width || (k == n && n >= width),
            k >= width ==> k == width || n >= width,
            r@ == s@ + Seq::new((k - n) as nat, |i: int| ' '),
        decreases width - k,
    {
        let ghost before = r@;
        crate::text::push_char(&mut r, ' ');
        assert(r@ =~= s@ + Seq::new((k + 1 - n) as nat, |i: int| ' '));
        k = k + 1;
    }
    assert(s@ + Seq::new((k - n) as nat, |i: int| ' ') =~= pad_right(s@, width as nat));
    r
}

/// One line of `role list`: the id padded to 16, the trust padded to 8, the
/// module count and the name.
pub fn role_line(id: &str, system: bool, modules: usize, name: &str) -> (s: String)
    ensures
        s@ == pad_right(id@, 16) + " "@ + pad_right(if system { "system"@ } else { "user"@ }, 8) + " modules="@
            + crate::text::decimal(modules as nat) + "  "@ + name@,
{
    let a = padded(id, 16);
    let tag = if system { "system" } else { "user" };
    let b = padded(tag, 8);
    let c = concat(concat(a.as_str(), " ").as_str(), b.as_str());
    let d = concat(c.as_str(), " modules=");
    let e = concat(d.as_str(), crate::text::u64_decimal(modules as u64).as_str());
    let f = concat(concat(e.as_str(), "  ").as_str(), name);
    assert(f@ =~= pad_right(id@, 16) + " "@ + pad_right(if system { "system"@ } else { "user"@ }, 8) + " modules="@
        + crate::text::decimal(modules as nat) + "  "@ + name@);
    f
}

} // verus!
