//! The compositor vocabulary: the actions hyprdesk sends (rendered as Lua
//! statements for Hyprland's `eval` request), the compositor state it
//! reads (monitors, workspaces, clients), the socket2 events it reacts to,
//! and the socket paths. Talking to the sockets is the application's job;
//! everything here computes on plain values.

use crate::error::Error;
use crate::text::{
    chars_eq_str, chars_of, join, lemma_join_push, push_i64, signed_decimal, trim,
    trim_chars, string_of_chars,
};
use vstd::prelude::*;
use vstd::string::*;

verus! {

// ---------------------------------------------------------------------
// Commands
// ---------------------------------------------------------------------

/// One compositor-side action, in the vocabulary hyprdesk needs. Rendered
/// as an `hl.*` Lua statement and executed through the `eval` request.
#[derive(Debug, Clone, PartialEq, Eq)]
pub enum Command {
    /// Bring a workspace to its pinned monitor and focus it.
    FocusWorkspace(i64),
    /// Focus a window by compositor address.
    FocusWindow { address: String },
    /// Move a window to a workspace without following it. A vanished
    /// address is a silent no-op, which restore passes rely on.
    MoveWindowSilent { address: String, workspace: i64 },
    /// Move a whole workspace onto a monitor.
    MoveWorkspaceToMonitor { workspace: i64, monitor: String },
    /// Register this workspace's monitor pinning rule. Re-registering a
    /// workspace replaces its previous rule; a config reload wipes all
    /// eval-registered rules.
    PinWorkspace { workspace: i64, monitor: String },
}

/// A [`Command`] over mathematical values.
pub enum CommandView {
    FocusWorkspace(int),
    FocusWindow { address: Seq<char> },
    MoveWindowSilent { address: Seq<char>, workspace: int },
    MoveWorkspaceToMonitor { workspace: int, monitor: Seq<char> },
    PinWorkspace { workspace: int, monitor: Seq<char> },
}

impl View for Command {
    type V = CommandView;

    open spec fn view(&self) -> CommandView {
        match self {
            Command::FocusWorkspace(w) => CommandView::FocusWorkspace(*w as int),
            Command::FocusWindow { address } => CommandView::FocusWindow { address: address@ },
            Command::MoveWindowSilent { address, workspace } => CommandView::MoveWindowSilent {
                address: address@,
                workspace: *workspace as int,
            },
            Command::MoveWorkspaceToMonitor { workspace, monitor } =>
                CommandView::MoveWorkspaceToMonitor {
                workspace: *workspace as int,
                monitor: monitor@,
            },
            Command::PinWorkspace { workspace, monitor } => CommandView::PinWorkspace {
                workspace: *workspace as int,
                monitor: monitor@,
            },
        }
    }
}

/// The views of a sequence of commands.
pub open spec fn command_views(cs: Seq<Command>) -> Seq<CommandView> {
    cs.map_values(|c: Command| c@)
}

/// The Lua escape of one character inside a double-quoted literal.
pub open spec fn lua_escape_char(c: char) -> Seq<char> {
    if c == '\\' {
        seq!['\\', '\\']
    } else if c == '"' {
        seq!['\\', '"']
    } else if c == '\n' {
        seq!['\\', 'n']
    } else {
        seq![c]
    }
}

/// The Lua escape of every character of `s`, in order.
pub open spec fn lua_escaped(s: Seq<char>) -> Seq<char>
    decreases s.len(),
{
    if s.len() == 0 {
        seq![]
    } else {
        lua_escaped(s.drop_last()) + lua_escape_char(s.last())
    }
}

/// A Lua double-quoted string literal denoting `s`.
pub open spec fn lua_quoted(s: Seq<char>) -> Seq<char> {
    seq!['"'] + lua_escaped(s) + seq!['"']
}

/// The window selector for an address.
pub open spec fn window_selector(address: Seq<char>) -> Seq<char> {
    lua_quoted("address:"@ + address)
}

/// The Lua statement a command renders to.
pub open spec fn lua_of(c: CommandView) -> Seq<char> {
    match c {
        CommandView::FocusWorkspace(w) => "hl.dispatch(hl.dsp.focus({ workspace = \""@
            + signed_decimal(w) + "\" }))"@,
        CommandView::FocusWindow { address } => "hl.dispatch(hl.dsp.focus({ window = "@
            + window_selector(address) + " }))"@,
        CommandView::MoveWindowSilent { address, workspace } =>
            "hl.dispatch(hl.dsp.window.move({ window = "@ + window_selector(address)
            + ", workspace = \""@ + signed_decimal(workspace) + "\", follow = false }))"@,
        CommandView::MoveWorkspaceToMonitor { workspace, monitor } =>
            "hl.dispatch(hl.dsp.workspace.move({ workspace = \""@ + signed_decimal(workspace)
            + "\", monitor = "@ + lua_quoted(monitor) + " }))"@,
        CommandView::PinWorkspace { workspace, monitor } =>
            "hl.workspace_rule({ workspace = "@ + signed_decimal(workspace) + ", monitor = "@
            + lua_quoted(monitor) + " })"@,
    }
}

/// Appends a Lua double-quoted literal denoting `value`.
fn push_lua_quoted(s: &mut String, value: &str)
    ensures
        final(s)@ == old(s)@ + lua_quoted(value@),
{
    let chars = chars_of(value);
    s.push('"');
    let ghost start = s@;
    let mut i: usize = 0;
    while i < chars.len()
        invariant
            i <= chars@.len(),
            chars@ == value@,
            s@ == start + lua_escaped(chars@.take(i as int)),
        decreases chars@.len() - i,
    {
        let c = chars[i];
        let ghost before = s@;
        if c == '\\' {
            s.push('\\');
            s.push('\\');
        } else if c == '"' {
            s.push('\\');
            s.push('"');
        } else if c == '\n' {
            s.push('\\');
            s.push('n');
        } else {
            s.push(c);
        }
        proof {
            let t = chars@.take(i + 1);
            assert(t.drop_last() =~= chars@.take(i as int));
            assert(t.last() == c);
            assert(s@ =~= before + lua_escape_char(c));
        }
        i = i + 1;
    }
    assert(chars@.take(chars@.len() as int) =~= value@);
    s.push('"');
    assert(s@ =~= old(s)@ + lua_quoted(value@));
}

/// A Lua double-quoted string literal. Compositor-sourced values (monitor
/// names, window addresses) are interpolated into eval chunks; quoting
/// keeps an odd name from being read as Lua syntax.
pub fn lua_quote(value: &str) -> (r: String)
    ensures
        r@ == lua_quoted(value@),
{
    let mut s = String::new();
    push_lua_quoted(&mut s, value);
    assert(s@ =~= lua_quoted(value@));
    s
}

fn push_window_selector(s: &mut String, address: &String)
    ensures
        final(s)@ == old(s)@ + window_selector(address@),
{
    let mut selector = String::from_str("address:");
    selector.append(address.as_str());
    push_lua_quoted(s, selector.as_str());
}

impl Command {
    /// Renders the command as one Lua statement for the compositor's
    /// config engine.
    pub fn to_lua(&self) -> (r: String)
        ensures
            r@ == lua_of(self@),
    {
        match self {
            Command::FocusWorkspace(workspace) => {
                let mut s = String::from_str("hl.dispatch(hl.dsp.focus({ workspace = \"");
                push_i64(&mut s, *workspace);
                s.append("\" }))");
                assert(s@ =~= lua_of(self@));
                s
            },
            Command::FocusWindow { address } => {
                let mut s = String::from_str("hl.dispatch(hl.dsp.focus({ window = ");
                push_window_selector(&mut s, address);
                s.append(" }))");
                assert(s@ =~= lua_of(self@));
                s
            },
            Command::MoveWindowSilent { address, workspace } => {
                let mut s = String::from_str("hl.dispatch(hl.dsp.window.move({ window = ");
                push_window_selector(&mut s, address);
                s.append(", workspace = \"");
                push_i64(&mut s, *workspace);
                s.append("\", follow = false }))");
                assert(s@ =~= lua_of(self@));
                s
            },
            Command::MoveWorkspaceToMonitor { workspace, monitor } => {
                let mut s = String::from_str("hl.dispatch(hl.dsp.workspace.move({ workspace = \"");
                push_i64(&mut s, *workspace);
                s.append("\", monitor = ");
                push_lua_quoted(&mut s, monitor.as_str());
                s.append(" }))");
                assert(s@ =~= lua_of(self@));
                s
            },
            Command::PinWorkspace { workspace, monitor } => {
                let mut s = String::from_str("hl.workspace_rule({ workspace = ");
                push_i64(&mut s, *workspace);
                s.append(", monitor = ");
                push_lua_quoted(&mut s, monitor.as_str());
                s.append(" })");
                assert(s@ =~= lua_of(self@));
                s
            },
        }
    }
}

// ---------------------------------------------------------------------
// The eval request
// ---------------------------------------------------------------------

/// The Lua statements of a command list, in order.
pub open spec fn statements(cs: Seq<CommandView>) -> Seq<Seq<char>> {
    cs.map_values(|c: CommandView| lua_of(c))
}

/// The `eval` request carrying the commands as one Lua chunk, or nothing
/// when there is nothing to run.
pub open spec fn eval_message(cs: Seq<CommandView>) -> Option<Seq<char>> {
    if cs.len() == 0 {
        None
    } else {
        Some("eval "@ + join(statements(cs), "; "@))
    }
}

/// The request that executes `commands` as one Lua chunk in a single
/// `eval`: the whole chunk runs inside the compositor with no other input
/// interleaved. An empty command list needs no request.
pub fn eval_request(commands: &[Command]) -> (r: Option<String>)
    ensures
        match r {
            Some(m) => eval_message(command_views(commands@)) == Some(m@),
            None => eval_message(command_views(commands@)) is None,
        },
{
    if commands.len() == 0 {
        return None;
    }
    let ghost views = command_views(commands@);
    let mut chunk = String::new();
    let mut i: usize = 0;
    while i < commands.len()
        invariant
            i <= commands@.len(),
            views == command_views(commands@),
            chunk@ == join(statements(views.take(i as int)), "; "@),
        decreases commands@.len() - i,
    {
        let statement = commands[i].to_lua();
        proof {
            lemma_join_push(statements(views.take(i as int)), "; "@, statement@);
            assert(statements(views.take(i + 1)) =~= statements(views.take(i as int)).push(
                statement@,
            ));
        }
        if i > 0 {
            chunk.append("; ");
        }
        chunk.append(statement.as_str());
        proof {
            if i == 0 {
                assert(chunk@ =~= statement@);
            }
        }
        i = i + 1;
    }
    assert(views.take(commands@.len() as int) =~= views);
    let mut message = String::from_str("eval ");
    message.append(chunk.as_str());
    Some(message)
}

/// The verdict on an `eval` reply: the trimmed reply `ok` is success; any
/// other text is the compositor's rejection.
pub fn eval_reply(reply: &str) -> (r: Result<(), Error>)
    ensures
        match r {
            Ok(_) => trim(reply@) == "ok"@,
            Err(e) => trim(reply@) != "ok"@ && (e matches Error::Rejected(t) && t@ == trim(
                reply@,
            )),
        },
{
    let chars = chars_of(reply);
    let trimmed = trim_chars(&chars);
    if chars_eq_str(&trimmed, "ok") {
        Ok(())
    } else {
        Err(Error::Rejected(string_of_chars(&trimmed)))
    }
}

// ---------------------------------------------------------------------
// Compositor state
// ---------------------------------------------------------------------

#[derive(Debug, Clone)]
pub struct WorkspaceRef {
    pub id: i64,
}

#[derive(Debug, Clone)]
pub struct Monitor {
    pub id: i64,
    pub name: String,
    pub focused: bool,
    pub disabled: bool,
    pub active_workspace: WorkspaceRef,
}

#[derive(Debug, Clone)]
pub struct Workspace {
    pub id: i64,
    pub monitor: Option<String>,
    pub windows: u32,
}

#[derive(Debug, Clone)]
pub struct Client {
    pub address: String,
    pub workspace: WorkspaceRef,
}

/// A [`Monitor`] over mathematical values.
pub struct MonitorView {
    pub id: int,
    pub name: Seq<char>,
    pub focused: bool,
    pub disabled: bool,
    pub active_workspace: int,
}

/// A [`Workspace`] over mathematical values.
pub struct WorkspaceView {
    pub id: int,
    pub monitor: Option<Seq<char>>,
    pub windows: nat,
}

/// A [`Client`] over mathematical values.
pub struct ClientView {
    pub address: Seq<char>,
    pub workspace: int,
}

impl View for Monitor {
    type V = MonitorView;

    open spec fn view(&self) -> MonitorView {
        MonitorView {
            id: self.id as int,
            name: self.name@,
            focused: self.focused,
            disabled: self.disabled,
            active_workspace: self.active_workspace.id as int,
        }
    }
}

impl View for Workspace {
    type V = WorkspaceView;

    open spec fn view(&self) -> WorkspaceView {
        WorkspaceView {
            id: self.id as int,
            monitor: match self.monitor {
                Some(m) => Some(m@),
                None => None,
            },
            windows: self.windows as nat,
        }
    }
}

impl View for Client {
    type V = ClientView;

    open spec fn view(&self) -> ClientView {
        ClientView { address: self.address@, workspace: self.workspace.id as int }
    }
}

pub open spec fn monitor_views(ms: Seq<Monitor>) -> Seq<MonitorView> {
    ms.map_values(|m: Monitor| m@)
}

pub open spec fn workspace_views(ws: Seq<Workspace>) -> Seq<WorkspaceView> {
    ws.map_values(|w: Workspace| w@)
}

pub open spec fn client_views(cs: Seq<Client>) -> Seq<ClientView> {
    cs.map_values(|c: Client| c@)
}

/// The monitors with a given id.
pub open spec fn with_id(ms: Seq<MonitorView>, k: int) -> Seq<MonitorView> {
    ms.filter(|m: MonitorView| m.id == k)
}

/// The enabled monitors with a given id.
pub open spec fn enabled_with_id(ms: Seq<MonitorView>, k: int) -> Seq<MonitorView> {
    ms.filter(|m: MonitorView| !m.disabled && m.id == k)
}

/// Monitor ids never decrease along the sequence.
pub open spec fn sorted_by_id(ms: Seq<MonitorView>) -> bool {
    forall|i: int, j: int| 0 <= i < j < ms.len() ==> ms[i].id <= ms[j].id
}

/// `out` is the enabled monitors of `input` in a stable sort by id: sorted
/// by id, and for every id the monitors carrying it appear in input order.
pub open spec fn enabled_sorted(out: Seq<MonitorView>, input: Seq<MonitorView>) -> bool {
    &&& sorted_by_id(out)
    &&& forall|k: int| #[trigger] with_id(out, k) == enabled_with_id(input, k)
}

/// Enabled monitors sorted by Hyprland id. The position in this list is
/// the desk-mapping monitor index; sorting by id keeps the mapping stable
/// across hotplug because the built-in panel enumerates first. The sort is
/// stable: monitors sharing an id keep their reported order.
pub fn monitors(reported: Vec<Monitor>) -> (r: Vec<Monitor>)
    ensures
        enabled_sorted(monitor_views(r@), monitor_views(reported@)),
{
    broadcast use vstd::seq_lib::group_seq_lib_default;

    let ghost input = monitor_views(reported@);
    let mut out: Vec<Monitor> = Vec::new();
    let mut done: usize = 0;
    let total = reported.len();
    while done < total
        invariant
            done <= total,
            input.len() == total,
            input == monitor_views(reported@),
            sorted_by_id(monitor_views(out@)),
            forall|k: int| #[trigger] with_id(monitor_views(out@), k) == enabled_with_id(
                input.take(done as int),
                k,
            ),
        decreases total - done,
    {
        let m = copy_monitor(&reported[done]);
        proof {
            assert(input[done as int] == m@);
            assert(input.take(done + 1).drop_last() =~= input.take(done as int));
            assert(input.take(done + 1).last() == m@);
        }
        if !m.disabled {
            let ghost before = out@;
            let mut p = out.len();
            while p > 0 && out[p - 1].id > m.id
                invariant
                    p <= out@.len(),
                    out@ == before,
                    forall|j: int| p <= j < out@.len() ==> out@[j].id > m.id,
                decreases p,
            {
                p = p - 1;
            }
            proof {
                let ov = monitor_views(out@);
                assert forall|j: int| 0 <= j < p implies ov[j].id <= m.id by {
                    if p > 0 {
                        assert(ov[p - 1].id <= m.id);
                    }
                }
            }
            out.insert(p, m);
            proof {
                reveal(Seq::filter);
                let ov = monitor_views(before);
                let nv = monitor_views(out@);
                assert(nv =~= ov.take(p as int) + seq![m@] + ov.skip(p as int));
                assert forall|k: int| #[trigger] with_id(nv, k) == enabled_with_id(
                    input.take(done + 1),
                    k,
                ) by {
                    let pred = |x: MonitorView| x.id == k;
                    let epred = |x: MonitorView| !x.disabled && x.id == k;
                    assert(ov =~= ov.take(p as int) + ov.skip(p as int));
                    assert(with_id(ov, k) == ov.take(p as int).filter(pred) + ov.skip(
                        p as int,
                    ).filter(pred));
                    assert(with_id(nv, k) == ov.take(p as int).filter(pred) + seq![m@].filter(
                        pred,
                    ) + ov.skip(p as int).filter(pred)) by {
                        assert(nv =~= (ov.take(p as int) + seq![m@]) + ov.skip(p as int));
                    }
                    assert(seq![m@].drop_last() =~= Seq::<MonitorView>::empty());
                    assert(seq![m@].drop_last().filter(pred) =~= Seq::<MonitorView>::empty());
                    assert(seq![m@].last() == m@);
                    if k == m.id {
                        assert(ov.skip(p as int).filter(pred) =~= Seq::<MonitorView>::empty())
                            by {
                            let sk = ov.skip(p as int);
                            if sk.filter(pred).len() > 0 {
                                let x = sk.filter(pred)[0];
                                assert(sk.filter(pred).contains(x));
                                sk.lemma_filter_contains_rev(pred, x);
                                assert(sk.contains(x));
                                assert(pred(x));
                            }
                        }
                        assert(seq![m@].filter(pred) =~= seq![m@]);
                    } else {
                        assert(seq![m@].filter(pred) =~= Seq::<MonitorView>::empty());
                    }
                    assert(input.take(done + 1).filter(epred) == input.take(done as int).filter(
                        epred,
                    ) + (if epred(m@) {
                        seq![m@]
                    } else {
                        Seq::<MonitorView>::empty()
                    })) by {
                        if epred(m@) {
                            assert(input.take(done as int).filter(epred).push(m@) =~= input.take(
                                done as int,
                            ).filter(epred) + seq![m@]);
                        } else {
                            assert(input.take(done as int).filter(epred) + Seq::<
                                MonitorView,
                            >::empty() =~= input.take(done as int).filter(epred));
                        }
                    }
                }
                assert forall|i: int, j: int| 0 <= i < j < nv.len() implies nv[i].id
                    <= nv[j].id by {
                    if i < p && j > p {
                        assert(nv[i] == ov[i]);
                        assert(nv[j] == ov[j - 1]);
                    }
                }
            }
        } else {
            proof {
                reveal(Seq::filter);
                let ov = monitor_views(out@);
                assert forall|k: int| #[trigger] with_id(ov, k) == enabled_with_id(
                    input.take(done + 1),
                    k,
                ) by {
                    let epred = |x: MonitorView| !x.disabled && x.id == k;
                    assert(!epred(m@));
                }
            }
        }
        done = done + 1;
    }
    assert(input.take(total as int) =~= input);
    out
}

/// A copy of a monitor record.
fn copy_monitor(m: &Monitor) -> (r: Monitor)
    ensures
        r@ == m@,
{
    Monitor {
        id: m.id,
        name: m.name.clone(),
        focused: m.focused,
        disabled: m.disabled,
        active_workspace: WorkspaceRef { id: m.active_workspace.id },
    }
}

// ---------------------------------------------------------------------
// Events
// ---------------------------------------------------------------------

/// The socket2 events hyprdesk reacts to; everything else is `Other`.
#[derive(Debug, Clone, Copy, PartialEq, Eq, Structural)]
pub enum Event {
    MonitorAdded,
    MonitorRemoved,
    ConfigReloaded,
    /// The active workspace changed on some monitor (`workspacev2`).
    WorkspaceChanged,
    /// A window opened, closed, or moved between workspaces - anything
    /// that can change desk occupancy.
    WindowsChanged,
    Other,
}

/// Index of the first `>>` at or after `i`, or the length when none.
pub open spec fn name_end(s: Seq<char>, i: nat) -> nat
    decreases s.len() - i,
{
    if i + 1 >= s.len() {
        s.len()
    } else if s[i as int] == '>' && s[i + 1 as int] == '>' {
        i
    } else {
        name_end(s, i + 1)
    }
}

/// The event name of a socket2 line: the text before the first `>>`, or
/// the whole line.
pub open spec fn event_name(line: Seq<char>) -> Seq<char> {
    line.take(name_end(line, 0) as int)
}

/// The event an event name denotes.
pub open spec fn event_of_name(name: Seq<char>) -> Event {
    if name == "monitoraddedv2"@ {
        // `monitoradded` and `monitoraddedv2` both fire; react to one only.
        Event::MonitorAdded
    } else if name == "monitorremoved"@ {
        Event::MonitorRemoved
    } else if name == "configreloaded"@ {
        Event::ConfigReloaded
    } else if name == "workspacev2"@ {
        Event::WorkspaceChanged
    } else if name == "openwindow"@ || name == "closewindow"@ || name == "movewindowv2"@ {
        // `movewindow` and `movewindowv2` both fire; react to one only.
        Event::WindowsChanged
    } else {
        Event::Other
    }
}

proof fn lemma_name_end_bound(s: Seq<char>, i: nat)
    requires
        i <= s.len(),
    ensures
        i <= name_end(s, i) <= s.len(),
    decreases s.len() - i,
{
    if i + 1 < s.len() && !(s[i as int] == '>' && s[i + 1 as int] == '>') {
        lemma_name_end_bound(s, i + 1);
    }
}

/// Classifies one socket2 line.
pub fn parse_event(line: &str) -> (e: Event)
    ensures
        e == event_of_name(event_name(line@)),
{
    let chars = chars_of(line);
    let n = chars.len();
    let mut i: usize = 0;
    while n > 0 && i < n - 1 && !(chars[i] == '>' && chars[i + 1] == '>')
        invariant
            i <= n,
            n == chars@.len(),
            name_end(chars@, 0) == name_end(chars@, i as nat),
        decreases n - i,
    {
        i = i + 1;
    }
    let end: usize = if n > 0 && i < n - 1 {
        i
    } else {
        n
    };
    assert(name_end(chars@, i as nat) == end);
    let mut name: Vec<char> = Vec::new();
    let mut j: usize = 0;
    while j < end
        invariant
            j <= end <= n,
            n == chars@.len(),
            name@ =~= chars@.take(j as int),
        decreases end - j,
    {
        name.push(chars[j]);
        j = j + 1;
        assert(name@ =~= chars@.take(j as int));
    }
    if chars_eq_str(&name, "monitoraddedv2") {
        Event::MonitorAdded
    } else if chars_eq_str(&name, "monitorremoved") {
        Event::MonitorRemoved
    } else if chars_eq_str(&name, "configreloaded") {
        Event::ConfigReloaded
    } else if chars_eq_str(&name, "workspacev2") {
        Event::WorkspaceChanged
    } else if chars_eq_str(&name, "openwindow") || chars_eq_str(&name, "closewindow")
        || chars_eq_str(&name, "movewindowv2") {
        Event::WindowsChanged
    } else {
        Event::Other
    }
}

// ---------------------------------------------------------------------
// Socket paths
// ---------------------------------------------------------------------

/// `base` extended by the relative or absolute path `part`, as a path
/// join does on Unix: an absolute `part` replaces `base`; otherwise a `/`
/// separates the two unless `base` is empty or already ends in one.
pub open spec fn path_join(base: Seq<char>, part: Seq<char>) -> Seq<char> {
    if part.len() > 0 && part[0] == '/' {
        part
    } else if base.len() > 0 && base.last() != '/' {
        base + seq!['/'] + part
    } else {
        base + part
    }
}

/// Joins a path component onto a path.
pub fn join_path(base: &str, part: &str) -> (r: String)
    ensures
        r@ == path_join(base@, part@),
{
    let b = chars_of(base);
    let p = chars_of(part);
    if p.len() > 0 && p[0] == '/' {
        return string_of_chars(&p);
    }
    let mut s = string_of_chars(&b);
    if b.len() > 0 && b[b.len() - 1] != '/' {
        s.push('/');
    }
    s.append(part);
    s
}

/// The path of one of the compositor's sockets:
/// `<runtime dir>/hypr/<instance signature>/<name>`.
pub open spec fn hypr_socket_path(runtime_dir: Seq<char>, signature: Seq<char>, name: Seq<char>) -> Seq<char> {
    path_join(path_join(path_join(runtime_dir, "hypr"@), signature), name)
}

/// The path of one of the compositor's sockets, from the runtime
/// directory and the instance signature the session exports.
pub fn socket_path(runtime_dir: &str, signature: &str, name: &str) -> (r: String)
    ensures
        r@ == hypr_socket_path(runtime_dir@, signature@, name@),
{
    let a = join_path(runtime_dir, "hypr");
    let b = join_path(a.as_str(), signature);
    join_path(b.as_str(), name)
}

// ---------------------------------------------------------------------
// Laws
// ---------------------------------------------------------------------

/// What Lua's lexer reads from the body of a double-quoted literal (as far
/// as the escapes used here go): `\\`, `\"` and `\n` are escapes; a bare
/// `"` or line break would end or break the literal, and any other
/// backslash sequence is outside this vocabulary.
pub open spec fn lua_decode(b: Seq<char>) -> Option<Seq<char>>
    decreases b.len(),
{
    if b.len() == 0 {
        Some(seq![])
    } else if b[0] == '\\' {
        if b.len() >= 2 && (b[1] == '\\' || b[1] == '"' || b[1] == 'n') {
            match lua_decode(b.skip(2)) {
                Some(r) => Some(seq![if b[1] == 'n' { '\n' } else { b[1] }] + r),
                None => None,
            }
        } else {
            None
        }
    } else if b[0] == '"' || b[0] == '\n' {
        None
    } else {
        match lua_decode(b.drop_first()) {
            Some(r) => Some(seq![b[0]] + r),
            None => None,
        }
    }
}

proof fn lemma_lua_escaped_concat(a: Seq<char>, b: Seq<char>)
    ensures
        lua_escaped(a + b) == lua_escaped(a) + lua_escaped(b),
    decreases b.len(),
{
    if b.len() == 0 {
        assert(a + b =~= a);
        assert(lua_escaped(a) + lua_escaped(b) =~= lua_escaped(a));
    } else {
        lemma_lua_escaped_concat(a, b.drop_last());
        assert((a + b).drop_last() =~= a + b.drop_last());
        assert((a + b).last() == b.last());
        assert(lua_escaped(a + b) =~= lua_escaped(a) + lua_escaped(b));
    }
}

proof fn lemma_lua_decode_escape(c: char, rest: Seq<char>)
    requires
        lua_decode(rest) is Some,
    ensures
        lua_decode(lua_escape_char(c) + rest) == Some(seq![c] + lua_decode(rest)->0),
{
    let b = lua_escape_char(c) + rest;
    if c == '\\' || c == '"' || c == '\n' {
        assert(b.skip(2) =~= rest);
    } else {
        assert(b.drop_first() =~= rest);
    }
}

/// Quoting is faithful: the body of the literal [`lua_quote`] produces
/// reads back, under Lua's escapes, as exactly the quoted value - so no
/// compositor-supplied name can end the literal early or inject Lua.
pub proof fn law_lua_quote_reads_back(s: Seq<char>)
    ensures
        lua_decode(lua_escaped(s)) == Some(s),
        lua_quoted(s) == seq!['"'] + lua_escaped(s) + seq!['"'],
    decreases s.len(),
{
    if s.len() == 0 {
        assert(lua_escaped(s) =~= Seq::<char>::empty());
    } else {
        let t = s.drop_first();
        law_lua_quote_reads_back(t);
        assert(s =~= seq![s[0]] + t);
        lemma_lua_escaped_concat(seq![s[0]], t);
        assert(seq![s[0]].drop_last() =~= Seq::<char>::empty());
        assert(seq![s[0]].last() == s[0]);
        assert(lua_escaped(Seq::<char>::empty()) =~= Seq::<char>::empty());
        assert(lua_escaped(seq![s[0]]) =~= lua_escape_char(s[0]));
        lemma_lua_decode_escape(s[0], lua_escaped(t));
    }
}

} // verus!
