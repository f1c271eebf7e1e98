//! Configuration store: role-partitioned tables, secret values masked when
//! listed (the database itself is the caller's part).
use vstd::prelude::*;
use crate::text::concat;

verus! {

/// Sensitivity of a configuration value.
#[derive(Debug, Clone, Copy, PartialEq, Eq, Structural)]
pub enum Sensitivity {
    /// Ordinary value.
    Normal,
    /// Password or token: masked when read out, exported or logged.
    Secret,
}

/// Configuration store failure.
#[derive(Debug, Clone)]
pub enum DbError {
    Sql(String),
    Io(String),
}

impl DbError {
    /// The error's text (`sql: …` / `io: …`).
    pub fn message(&self) -> (s: String)
        ensures
            s@ == match self {
                DbError::Sql(e) => "sql: "@ + e@,
                DbError::Io(e) => "io: "@ + e@,
            },
    {
        match self {
            DbError::Sql(e) => concat("sql: ", e.as_str()),
            DbError::Io(e) => concat("io: ", e.as_str()),
        }
    }
}

/// Which partition a setting lives in: leader and member settings are kept
/// apart.
#[derive(Debug, Clone, Copy, PartialEq, Eq, Structural)]
pub enum RoleView {
    Global,
    Server,
    Client,
}

/// A setting as listed.
#[derive(Debug, Clone)]
pub struct ConfigEntry {
    pub key: String,
    pub value: String,
    pub role: String,
    /// Secret (shown masked).
    pub secret: bool,
}

/// The table of a partition.
pub open spec fn table_name(r: RoleView) -> Seq<char> {
    match r {
        RoleView::Global => "settings"@,
        RoleView::Server => "server_config"@,
        RoleView::Client => "client_config"@,
    }
}

/// The table of a partition.
pub fn table_for(r: RoleView) -> (t: &'static str)
    ensures
        t@ == table_name(r),
{
    match r {
        RoleView::Global => "settings",
        RoleView::Server => "server_config",
        RoleView::Client => "client_config",
    }
}

/// Statement that writes a setting (parameters: key, value, secret).
pub fn upsert_sql(r: RoleView) -> (s: String)
    ensures
        s@ == "INSERT INTO "@ + table_name(r)
            + " (key, value, secret) VALUES (?1, ?2, ?3) ON CONFLICT(key) DO UPDATE SET value=excluded.value, secret=excluded.secret"@,
{
    concat(
        concat("INSERT INTO ", table_for(r)).as_str(),
        " (key, value, secret) VALUES (?1, ?2, ?3) ON CONFLICT(key) DO UPDATE SET value=excluded.value, secret=excluded.secret",
    )
}

/// Statement that reads a setting (parameter: key).
pub fn select_sql(r: RoleView) -> (s: String)
    ensures
        s@ == "SELECT value, secret FROM "@ + table_name(r) + " WHERE key = ?1"@,
{
    concat(concat("SELECT value, secret FROM ", table_for(r)).as_str(), " WHERE key = ?1")
}

/// Statement that lists a partition.
pub fn list_sql(r: RoleView) -> (s: String)
    ensures
        s@ == "SELECT key, value, secret FROM "@ + table_name(r),
{
    concat("SELECT key, value, secret FROM ", table_for(r))
}

/// Statement that deletes a setting (parameter: key).
pub fn delete_sql(r: RoleView) -> (s: String)
    ensures
        s@ == "DELETE FROM "@ + table_name(r) + " WHERE key = ?1"@,
{
    concat(concat("DELETE FROM ", table_for(r)).as_str(), " WHERE key = ?1")
}

/// A listed entry: a secret shows only whether it is set (`[set]` when it
/// decrypts to something non-empty, else `[unset]`); others show their value.
pub fn listed_entry(key: String, stored: String, role: RoleView, secret: bool, decrypted: Option<String>) -> (e: ConfigEntry)
    ensures
        e.key@ == key@,
        e.role@ == table_name(role),
        e.secret == secret,
        !secret ==> e.value@ == stored@,
        secret ==> e.value@ == (if decrypted matches Some(d) && d@.len() > 0 { "[set]"@ } else { "[unset]"@ }),
{
    let value = if secret {
        let set = match &decrypted {
            Some(d) => crate::text::char_count(d.as_str()) > 0,
            None => false,
        };
        if set { "[set]".to_string() } else { "[unset]".to_string() }
    } else {
        stored
    };
    ConfigEntry { key, value, role: table_for(role).to_string(), secret }
}

} // verus!
