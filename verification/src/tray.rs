//! System tray: the menu each state shows and what a click means (the native
//! tray and its thread are the caller's part).
use vstd::prelude::*;
use crate::text::{concat, str_eq};

verus! {

/// A menu action, for the host to act on.
#[derive(Debug, Clone, PartialEq, Eq)]
pub enum TrayAction {
    OpenConsole,
    StartSharing,
    PauseSharing,
    ChangePassword,
    /// Join a leader (by leader id).
    ConnectLeader(String),
    Rename,
    ShowUsage,
    Quit,
    NoOp,
}

/// Tray mode.
#[derive(Debug, Clone, Copy, PartialEq, Eq, Structural)]
pub enum TrayMode {
    /// Leader side.
    Server,
    /// Member side.
    Client,
}

/// A leader shown in the member menu.
#[derive(Debug, Clone)]
pub struct LeaderEntry {
    pub id: String,
    pub name: String,
    pub online: bool,
}

/// Host-to-tray command.
#[derive(Debug, Clone)]
pub enum TrayCommand {
    /// New leader list (rebuilds the "discovered leaders" submenu).
    UpdateLeaders(Vec<LeaderEntry>),
    /// New connection status.
    SetConnected(bool),
    /// New sharing status (leader side).
    SetSharing(bool),
}

/// What the menu shows.
pub struct TrayState {
    pub leaders: Vec<LeaderEntry>,
    pub connected: bool,
    pub sharing: bool,
}

impl TrayState {
    /// The starting state: no leaders, not connected, sharing.
    pub fn new() -> (s: Self)
        ensures
            s.leaders@.len() == 0,
            !s.connected,
            s.sharing,
    {
        TrayState { leaders: Vec::new(), connected: false, sharing: true }
    }

    /// Applies a host command.
    pub fn apply(&mut self, cmd: TrayCommand)
        ensures
            match cmd {
                TrayCommand::UpdateLeaders(l) => final(self).leaders == l && final(self).connected == old(self).connected
                    && final(self).sharing == old(self).sharing,
                TrayCommand::SetConnected(c) => final(self).leaders == old(self).leaders && final(self).connected == c
                    && final(self).sharing == old(self).sharing,
                TrayCommand::SetSharing(x) => final(self).leaders == old(self).leaders && final(self).connected == old(self).connected
                    && final(self).sharing == x,
            },
    {
        match cmd {
            TrayCommand::UpdateLeaders(l) => self.leaders = l,
            TrayCommand::SetConnected(c) => self.connected = c,
            TrayCommand::SetSharing(x) => self.sharing = x,
        }
    }
}

/// One line of the menu.
#[derive(Debug, Clone)]
pub enum MenuLine {
    Item(String, TrayAction),
    Separator,
    Submenu(String, Vec<(String, TrayAction)>),
}

/// The label of a leader in the member menu: a status dot, a space, the name.
pub open spec fn leader_label(l: LeaderEntry) -> Seq<char> {
    (if l.online { "🟢"@ } else { "⚪"@ }) + " "@ + l.name@
}

/// `line` is a plain item with this label and a parameterless action.
pub open spec fn is_item(line: MenuLine, label: Seq<char>, action: TrayAction) -> bool {
    line matches MenuLine::Item(l, a) && l@ == label && a == action
}

/// The leader-side menu.
pub open spec fn server_menu(m: Seq<MenuLine>, sharing: bool) -> bool {
    &&& m.len() == 8
    &&& is_item(m[0], "打开管理面板"@, TrayAction::OpenConsole)
    &&& m[1] is Separator
    &&& is_item(m[2], if sharing { "✓ 共享中"@ } else { "○ 已暂停"@ }, TrayAction::NoOp)
    &&& is_item(m[3], "开启共享"@, TrayAction::StartSharing)
    &&& is_item(m[4], "暂停共享"@, TrayAction::PauseSharing)
    &&& is_item(m[5], "修改密码"@, TrayAction::ChangePassword)
    &&& m[6] is Separator
    &&& is_item(m[7], "退出"@, TrayAction::Quit)
}

/// The member-side "discovered leaders" entries.
pub open spec fn leader_entries(items: Seq<(String, TrayAction)>, leaders: Seq<LeaderEntry>) -> bool {
    if leaders.len() == 0 {
        items.len() == 1 && items[0].0@ == "（未发现组长）"@ && items[0].1 == TrayAction::NoOp
    } else {
        &&& items.len() == leaders.len()
        &&& forall|i: int| 0 <= i < items.len() ==> (#[trigger] items[i]).0@ == leader_label(leaders[i])
            && (items[i].1 matches TrayAction::ConnectLeader(x) && x@ == leaders[i].id@)
    }
}

/// The member-side menu.
pub open spec fn client_menu(m: Seq<MenuLine>, leaders: Seq<LeaderEntry>, connected: bool) -> bool {
    &&& m.len() == 7
    &&& is_item(m[0], if connected { "✓ 已接入"@ } else { "○ 未接入"@ }, TrayAction::NoOp)
    &&& (m[1] matches MenuLine::Submenu(t, items) && t@ == "发现的组长"@ && leader_entries(items@, leaders))
    &&& m[2] is Separator
    &&& is_item(m[3], "修改显示名"@, TrayAction::Rename)
    &&& is_item(m[4], "查看个人用量"@, TrayAction::ShowUsage)
    &&& m[5] is Separator
    &&& is_item(m[6], "退出"@, TrayAction::Quit)
}

fn item(label: &str, action: TrayAction) -> (l: MenuLine)
    ensures
        l matches MenuLine::Item(x, a) && x@ == label@ && a == action,
{
    MenuLine::Item(label.to_string(), action)
}

fn copy_action(a: &TrayAction) -> (r: TrayAction)
    ensures
        r == *a,
{
    match a {
        TrayAction::OpenConsole => TrayAction::OpenConsole,
        TrayAction::StartSharing => TrayAction::StartSharing,
        TrayAction::PauseSharing => TrayAction::PauseSharing,
        TrayAction::ChangePassword => TrayAction::ChangePassword,
        TrayAction::ConnectLeader(id) => TrayAction::ConnectLeader(id.clone()),
        TrayAction::Rename => TrayAction::Rename,
        TrayAction::ShowUsage => TrayAction::ShowUsage,
        TrayAction::Quit => TrayAction::Quit,
        TrayAction::NoOp => TrayAction::NoOp,
    }
}

/// The menu for a mode and state.
pub fn build_menu(mode: TrayMode, state: &TrayState) -> (m: Vec<MenuLine>)
    ensures
        mode == TrayMode::Server ==> server_menu(m@, state.sharing),
        mode == TrayMode::Client ==> client_menu(m@, state.leaders@, state.connected),
{
    let mut m: Vec<MenuLine> = Vec::new();
    match mode {
        TrayMode::Server => {
            m.push(item("打开管理面板", TrayAction::OpenConsole));
            m.push(MenuLine::Separator);
            m.push(item(if state.sharing { "✓ 共享中" } else { "○ 已暂停" }, TrayAction::NoOp));
            m.push(item("开启共享", TrayAction::StartSharing));
            m.push(item("暂停共享", TrayAction::PauseSharing));
            m.push(item("修改密码", TrayAction::ChangePassword));
            m.push(MenuLine::Separator);
            m.push(item("退出", TrayAction::Quit));
        },
        TrayMode::Client => {
            m.push(item(if state.connected { "✓ 已接入" } else { "○ 未接入" }, TrayAction::NoOp));
            let mut sub: Vec<(String, TrayAction)> = Vec::new();
            if state.leaders.len() == 0 {
                sub.push(("（未发现组长）".to_string(), TrayAction::NoOp));
            } else {
                let mut i: usize = 0;
                while i < state.leaders.len()
                    invariant
                        i <= state.leaders.len(),
                        sub@.len() == i,
                        forall|j: int| 0 <= j < i ==> (#[trigger] sub@[j]).0@ == leader_label(state.leaders@[j])
                            && (sub@[j].1 matches TrayAction::ConnectLeader(x) && x@ == state.leaders@[j].id@),
                    decreases state.leaders.len() - i,
                {
                    let l = &state.leaders[i];
                    let dot = if l.online { "🟢" } else { "⚪" };
                    let a = concat(dot, " ");
                    let label = concat(a.as_str(), l.name.as_str());
                    assert(label@ =~= leader_label(*l));
                    sub.push((label, TrayAction::ConnectLeader(l.id.clone())));
                    i = i + 1;
                }
            }
            m.push(MenuLine::Submenu("发现的组长".to_string(), sub));
            m.push(MenuLine::Separator);
            m.push(item("修改显示名", TrayAction::Rename));
            m.push(item("查看个人用量", TrayAction::ShowUsage));
            m.push(MenuLine::Separator);
            m.push(item("退出", TrayAction::Quit));
        },
    }
    m
}

/// What a click on menu item `id` means: the action filed under the first
/// matching id, else nothing.
pub fn action_for(items: &Vec<(String, TrayAction)>, id: &str) -> (a: TrayAction)
    ensures
        (exists|i: int| 0 <= i < items@.len() && items@[i].0@ == id@) ==> exists|i: int|
            0 <= i < items@.len() && items@[i].0@ == id@ && a == items@[i].1 && forall|j: int| 0 <= j < i ==> items@[j].0@ != id@,
        !(exists|i: int| 0 <= i < items@.len() && items@[i].0@ == id@) ==> a == TrayAction::NoOp,
{
    let mut i: usize = 0;
    while i < items.len()
        invariant
            i <= items.len(),
            forall|j: int| 0 <= j < i ==> items@[j].0@ != id@,
        decreases items.len() - i,
    {
        if str_eq(items[i].0.as_str(), id) {
            return copy_action(&items[i].1);
        }
        i = i + 1;
    }
    TrayAction::NoOp
}

} // verus!
