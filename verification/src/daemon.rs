//! The resident daemon's decisions: the single owner of desk state.
//!
//! Desk state is deliberately minimal - current and last desk, plus the
//! window memory used across monitor hotplug. Everything else (monitors,
//! workspaces, windows) is queried live from the compositor when needed
//! and handed in here as plain values; the functions below decide what to
//! reply, which compositor commands to run, and how the state moves on.

use crate::error::{error_text, Error};
use crate::hypr::{
    client_views, command_views, monitor_views, path_join, workspace_views, Client, ClientView,
    Command, CommandView, Event, Monitor, MonitorView, Workspace, WorkspaceView,
    join_path,
};
use crate::memory::{
    entries_map, insert_sorted, key_lt, lemma_insert_sorted, lemma_key_lt_irreflexive, sorted_keys,
    EntryView, WindowMemory,
};
use crate::model::{
    desk_number_of, desk_text, lemma_desk_text, lemma_from_value, lemma_value_injective,
    law_mapping_round_trips, monitor_count_fits, monitor_index_of, monitor_slot_of, next_number,
    opt_value, prev_number, workspace_of, DeskId, Wrap, DESK_COUNT, MAX_MONITORS, MONITOR_STRIDE,
};
use crate::protocol::{
    law_request_line_is_one_line, law_request_round_trips, request_line, request_of_line,
    Direction, MoveMode, Request, StatusFormat,
};
use crate::text::{
    escape_breaks, lemma_escape_breaks_plain, lemma_escape_breaks_single_line,
    lemma_single_line_concat, no_ws, push_escaped_breaks, single_line,
};
use vstd::prelude::*;
use vstd::string::*;

verus! {

// ---------------------------------------------------------------------
// Control socket
// ---------------------------------------------------------------------

/// The control socket path: `<runtime dir>/hyprdesk/<signature>.sock`,
/// namespaced by Hyprland instance so a daemon per session is possible and
/// stale sockets from dead sessions never collide.
pub open spec fn control_path(runtime_dir: Seq<char>, signature: Seq<char>) -> Seq<char> {
    path_join(path_join(runtime_dir, "hyprdesk"@), signature + ".sock"@)
}

/// The control socket path, from the runtime directory and the instance
/// signature the session exports.
pub fn control_socket_path(runtime_dir: &str, signature: &str) -> (r: String)
    ensures
        r@ == control_path(runtime_dir@, signature@),
{
    let dir = join_path(runtime_dir, "hyprdesk");
    let mut file = String::from_str(signature);
    file.append(".sock");
    join_path(dir.as_str(), file.as_str())
}

// ---------------------------------------------------------------------
// Status replies
// ---------------------------------------------------------------------

/// The status reply. Single-line in both formats: the control protocol is
/// one reply line per request.
pub open spec fn status_text(current: DeskId, last: Option<DeskId>, format: StatusFormat) -> Seq<
    char,
> {
    match format {
        StatusFormat::Text => "desk: "@ + desk_text(current) + ", last: "@ + match last {
            Some(d) => desk_text(d),
            None => "none"@,
        },
        StatusFormat::Json => "{\"desk\":"@ + desk_text(current) + ",\"last\":"@ + match last {
            Some(d) => desk_text(d),
            None => "null"@,
        } + "}"@,
    }
}

/// Renders a status reply.
pub fn render_status(current: DeskId, last: Option<DeskId>, format: StatusFormat) -> (r: String)
    ensures
        r@ == status_text(current, last, format),
{
    match format {
        StatusFormat::Text => {
            let mut s = String::from_str("desk: ");
            s.append(current.to_string().as_str());
            s.append(", last: ");
            match last {
                Some(d) => s.append(d.to_string().as_str()),
                None => s.append("none"),
            }
            s
        },
        StatusFormat::Json => {
            let mut s = String::from_str("{\"desk\":");
            s.append(current.to_string().as_str());
            s.append(",\"last\":");
            match last {
                Some(d) => s.append(d.to_string().as_str()),
                None => s.append("null"),
            }
            s.append("}");
            s
        },
    }
}

proof fn lemma_desk_single_line(d: DeskId)
    requires
        d.wf(),
    ensures
        single_line(desk_text(d)),
{
    lemma_desk_text(d.value());
    assert forall|i: int| 0 <= i < desk_text(d).len() implies desk_text(d)[i] != '\n' by {
        assert(no_ws(desk_text(d)));
    }
}

/// Every status reply, in both formats, fits on one line.
pub proof fn law_status_is_one_line(current: DeskId, last: Option<DeskId>, format: StatusFormat)
    requires
        current.wf(),
        last matches Some(d) ==> d.wf(),
    ensures
        single_line(status_text(current, last, format)),
{
    reveal_strlit("desk: ");
    reveal_strlit(", last: ");
    reveal_strlit("none");
    reveal_strlit("{\"desk\":");
    reveal_strlit(",\"last\":");
    reveal_strlit("null");
    reveal_strlit("}");
    lemma_desk_single_line(current);
    let tail = match last {
        Some(d) => {
            lemma_desk_single_line(d);
            desk_text(d)
        },
        None => match format {
            StatusFormat::Text => "none"@,
            StatusFormat::Json => "null"@,
        },
    };
    assert(single_line(tail));
    match format {
        StatusFormat::Text => {
            assert(single_line("desk: "@));
            assert(single_line(", last: "@));
            lemma_single_line_concat("desk: "@, desk_text(current));
            lemma_single_line_concat("desk: "@ + desk_text(current), ", last: "@);
            lemma_single_line_concat("desk: "@ + desk_text(current) + ", last: "@, tail);
        },
        StatusFormat::Json => {
            assert(single_line("{\"desk\":"@));
            assert(single_line(",\"last\":"@));
            assert(single_line("}"@));
            lemma_single_line_concat("{\"desk\":"@, desk_text(current));
            lemma_single_line_concat("{\"desk\":"@ + desk_text(current), ",\"last\":"@);
            lemma_single_line_concat("{\"desk\":"@ + desk_text(current) + ",\"last\":"@, tail);
            lemma_single_line_concat(
                "{\"desk\":"@ + desk_text(current) + ",\"last\":"@ + tail,
                "}"@,
            );
        },
    }
}

// ---------------------------------------------------------------------
// Topology
// ---------------------------------------------------------------------

/// The monitor names in slot order.
pub open spec fn names_of(ms: Seq<MonitorView>) -> Seq<Seq<char>> {
    ms.map_values(|m: MonitorView| m.name)
}

/// The views of a list of names.
pub open spec fn string_views(v: Seq<String>) -> Seq<Seq<char>> {
    v.map_values(|s: String| s@)
}

/// The monitor names in slot order - the daemon's notion of "topology"
/// for the settled-topology guard on workspace events.
pub fn monitor_names(monitors: &[Monitor]) -> (r: Vec<String>)
    ensures
        string_views(r@) == names_of(monitor_views(monitors@)),
{
    let mut r: Vec<String> = Vec::new();
    let mut i: usize = 0;
    while i < monitors.len()
        invariant
            i <= monitors@.len(),
            string_views(r@) =~= names_of(monitor_views(monitors@)).take(i as int),
        decreases monitors@.len() - i,
    {
        let ghost before = r@;
        let name = monitors[i].name.clone();
        r.push(name);
        proof {
            assert(names_of(monitor_views(monitors@))[i as int] == monitors@[i as int].name@);
            assert(string_views(r@) =~= string_views(before).push(name@));
            assert(names_of(monitor_views(monitors@)).take(i + 1) =~= names_of(
                monitor_views(monitors@),
            ).take(i as int).push(name@));
        }
        i = i + 1;
    }
    assert(names_of(monitor_views(monitors@)).take(monitors@.len() as int) =~= names_of(
        monitor_views(monitors@),
    ));
    r
}

/// Whether two name lists are equal.
fn names_equal(a: &Vec<String>, b: &Vec<String>) -> (r: bool)
    ensures
        r == (string_views(a@) == string_views(b@)),
{
    if a.len() != b.len() {
        proof {
            assert(string_views(a@).len() != string_views(b@).len());
        }
        return false;
    }
    let mut i: usize = 0;
    while i < a.len()
        invariant
            i <= a@.len(),
            a@.len() == b@.len(),
            forall|j: int| 0 <= j < i ==> a@[j]@ == b@[j]@,
        decreases a@.len() - i,
    {
        if a[i] != b[i] {
            proof {
                assert(string_views(a@)[i as int] != string_views(b@)[i as int]);
            }
            return false;
        }
        i = i + 1;
    }
    assert(string_views(a@) =~= string_views(b@));
    true
}

/// The desk every monitor is showing, if they agree: monitor slot `m`
/// must show that desk's workspace for `m`.
pub open spec fn shown_everywhere(ms: Seq<MonitorView>) -> Option<nat> {
    if ms.len() == 0 {
        None
    } else {
        match desk_number_of(ms[0].active_workspace) {
            None => None,
            Some(d) => if forall|i: int|
                0 <= i < ms.len() ==> #[trigger] ms[i].active_workspace == workspace_of(
                    d as int,
                    i,
                ) {
                Some(d)
            } else {
                None
            },
        }
    }
}

/// The desk every monitor is showing, if they agree. States where
/// monitors show pieces of different desks (mid-hotplug juggling,
/// app-driven activation switching one monitor) resolve to `None` - a
/// desk switch is only tracked when the world looks like exactly one desk.
pub fn desk_shown_everywhere(monitors: &[Monitor]) -> (r: Option<DeskId>)
    ensures
        opt_value(r) == shown_everywhere(monitor_views(monitors@)),
{
    let ghost ms = monitor_views(monitors@);
    if monitors.len() == 0 {
        return None;
    }
    let desk = match DeskId::of_workspace(monitors[0].active_workspace.id) {
        Some(d) => d,
        None => {
            return None;
        },
    };
    let d = desk.id();
    let mut i: usize = 0;
    assert(ms[0].active_workspace == monitors@[0].active_workspace.id as int);
    while i < monitors.len()
        invariant
            i <= monitors@.len(),
            monitors@.len() > 0,
            desk_number_of(ms[0].active_workspace) == Some(d as nat),
            ms == monitor_views(monitors@),
            d == desk.value(),
            forall|j: int|
                0 <= j < i ==> #[trigger] ms[j].active_workspace == workspace_of(d as int, j),
        decreases monitors@.len() - i,
    {
        let expected: i128 = (d as i128) + (MONITOR_STRIDE as i128) * (i as i128);
        if (monitors[i].active_workspace.id as i128) != expected {
            proof {
                assert(ms[i as int].active_workspace == monitors@[i as int].active_workspace.id
                    as int);
                assert(ms[i as int].active_workspace != workspace_of(d as int, i as int));
            }
            return None;
        }
        i = i + 1;
    }
    Some(desk)
}

// ---------------------------------------------------------------------
// Switching and moving
// ---------------------------------------------------------------------

/// Focus commands, in slot order, for the monitors whose focus flag is
/// `focused`: each such slot gets desk `d`'s workspace for that slot.
pub open spec fn switches_where(d: nat, ms: Seq<MonitorView>, focused: bool) -> Seq<CommandView>
    decreases ms.len(),
{
    if ms.len() == 0 {
        seq![]
    } else {
        let rest = switches_where(d, ms.drop_last(), focused);
        if ms.last().focused == focused {
            rest.push(CommandView::FocusWorkspace(workspace_of(d as int, ms.len() - 1)))
        } else {
            rest
        }
    }
}

/// The slot of the first focused monitor, if any.
pub open spec fn first_focused(ms: Seq<MonitorView>) -> Option<nat>
    decreases ms.len(),
{
    if ms.len() == 0 {
        None
    } else if ms[0].focused {
        Some(0)
    } else {
        match first_focused(ms.drop_first()) {
            Some(i) => Some(i + 1),
            None => None,
        }
    }
}

/// Commands bringing every monitor to desk `d`: the unfocused monitors in
/// slot order, then the focused one, so focus ends where it started.
pub open spec fn switch_plan(d: nat, ms: Seq<MonitorView>) -> Seq<CommandView> {
    switches_where(d, ms, false) + switches_where(d, ms, true)
}

/// Commands bringing every monitor to `desk`. The focused monitor is
/// switched last so focus ends where it started.
pub fn switch_commands(desk: DeskId, monitors: &[Monitor]) -> (r: Vec<Command>)
    requires
        monitor_count_fits(monitors@.len() as int),
    ensures
        command_views(r@) == switch_plan(desk.value(), monitor_views(monitors@)),
{
    let ghost ms = monitor_views(monitors@);
    let ghost d = desk.value();
    let mut commands: Vec<Command> = Vec::new();
    let mut focused_commands: Vec<Command> = Vec::new();
    let mut index: usize = 0;
    proof {
        use_type_invariant(&desk);
    }
    while index < monitors.len()
        invariant
            index <= monitors@.len(),
            ms == monitor_views(monitors@),
            d == desk.value(),
            1 <= d <= DESK_COUNT,
            monitor_count_fits(monitors@.len() as int),
            command_views(commands@) == switches_where(d, ms.take(index as int), false),
            command_views(focused_commands@) == switches_where(d, ms.take(index as int), true),
        decreases monitors@.len() - index,
    {
        let command = Command::FocusWorkspace(desk.workspace_on(index));
        proof {
            let t = ms.take(index + 1);
            assert(t.drop_last() =~= ms.take(index as int));
            assert(t.last() == ms[index as int]);
        }
        if monitors[index].focused {
            let ghost before = focused_commands@;
            focused_commands.push(command);
            assert(command_views(focused_commands@) =~= command_views(before).push(command@));
        } else {
            let ghost before = commands@;
            commands.push(command);
            assert(command_views(commands@) =~= command_views(before).push(command@));
        }
        index = index + 1;
    }
    assert(ms.take(monitors@.len() as int) =~= ms);
    let ghost unfocused = commands@;
    let ghost focused = focused_commands@;
    commands.append(&mut focused_commands);
    assert(command_views(commands@) =~= command_views(unfocused) + command_views(focused));
    commands
}

/// Index of the first focused monitor, or 0 when none is focused.
fn focused_index(monitors: &[Monitor]) -> (r: usize)
    ensures
        r == match first_focused(monitor_views(monitors@)) {
            Some(i) => i,
            None => 0,
        },
        r == 0 || r < monitors@.len(),
{
    let ghost ms = monitor_views(monitors@);
    let mut i: usize = 0;
    assert(ms.skip(0) =~= ms);
    while i < monitors.len() && !monitors[i].focused
        invariant
            i <= monitors@.len(),
            ms == monitor_views(monitors@),
            first_focused(ms) == match first_focused(ms.skip(i as int)) {
                Some(k) => Some((k + i) as nat),
                None => None,
            },
        decreases monitors@.len() - i,
    {
        proof {
            assert(ms.skip(i as int).drop_first() =~= ms.skip(i + 1));
            assert(ms.skip(i as int)[0] == ms[i as int]);
        }
        i = i + 1;
    }
    proof {
        if i < monitors.len() {
            assert(ms.skip(i as int)[0] == ms[i as int]);
        } else {
            assert(ms.skip(i as int).len() == 0);
        }
    }
    if i < monitors.len() {
        i
    } else {
        0
    }
}

/// Commands moving the window at `address` to desk `d`: it lands on the
/// focused monitor's workspace for that desk; a follow then switches every
/// monitor there and ends focused on the moved window.
pub open spec fn move_plan(
    d: nat,
    follow: bool,
    ms: Seq<MonitorView>,
    address: Seq<char>,
) -> Seq<CommandView> {
    let slot = match first_focused(ms) {
        Some(i) => i,
        None => 0,
    };
    seq![
        CommandView::MoveWindowSilent {
            address: address,
            workspace: workspace_of(d as int, slot as int),
        },
    ] + if follow {
        switch_plan(d, ms) + seq![CommandView::FocusWindow { address: address }]
    } else {
        seq![]
    }
}

/// Commands moving the window at `address` to `desk`, following it there
/// or not per `mode`. The window is pinned by address throughout, and a
/// follow ends with an explicit focus of that window.
pub fn move_commands(
    desk: DeskId,
    mode: MoveMode,
    monitors: &[Monitor],
    address: &str,
) -> (r: Vec<Command>)
    requires
        monitor_count_fits(monitors@.len() as int),
    ensures
        command_views(r@) == move_plan(
            desk.value(),
            mode == MoveMode::Follow,
            monitor_views(monitors@),
            address@,
        ),
{
    proof {
        use_type_invariant(&desk);
    }
    let index = focused_index(monitors);
    let mut commands: Vec<Command> = Vec::new();
    commands.push(
        Command::MoveWindowSilent {
            address: address.to_owned(),
            workspace: desk.workspace_on(index),
        },
    );
    let ghost first = commands@;
    match mode {
        MoveMode::Follow => {
            let mut switch = switch_commands(desk, monitors);
            let ghost sw = switch@;
            commands.append(&mut switch);
            let focus = Command::FocusWindow { address: address.to_owned() };
            commands.push(focus);
            assert(command_views(commands@) =~= command_views(first) + (command_views(sw)
                + seq![focus@]));
        },
        MoveMode::Silent => {
            assert(command_views(commands@) =~= command_views(first) + Seq::<
                CommandView,
            >::empty());
        },
    }
    commands
}

// ---------------------------------------------------------------------
// Workspace pinning
// ---------------------------------------------------------------------

/// One pinning rule per desk per monitor: for monitor slot `k / 10`, desk
/// `k % 10 + 1`'s workspace on that slot is pinned to that monitor.
pub open spec fn pin_plan(ms: Seq<MonitorView>) -> Seq<CommandView> {
    Seq::new(
        (ms.len() * 10) as nat,
        |k: int|
            CommandView::PinWorkspace {
                workspace: workspace_of(k % 10 + 1, k / 10),
                monitor: ms[k / 10].name,
            },
    )
}

/// Pins every desk workspace to its monitor, so plain workspace focus
/// dispatches always land on the right monitor.
pub fn pinning_commands(monitors: &[Monitor]) -> (r: Vec<Command>)
    requires
        monitor_count_fits(monitors@.len() as int),
    ensures
        command_views(r@) == pin_plan(monitor_views(monitors@)),
{
    let ghost ms = monitor_views(monitors@);
    let desks = DeskId::all();
    let mut commands: Vec<Command> = Vec::new();
    let mut index: usize = 0;
    while index < monitors.len()
        invariant
            index <= monitors@.len(),
            ms == monitor_views(monitors@),
            monitor_count_fits(monitors@.len() as int),
            desks@.len() == DESK_COUNT,
            forall|i: int| 0 <= i < desks@.len() ==> (#[trigger] desks@[i]).value() == i + 1,
            command_views(commands@) =~= pin_plan(ms).take(index * 10),
        decreases monitors@.len() - index,
    {
        let mut j: usize = 0;
        while j < desks.len()
            invariant
                index < monitors@.len(),
                j <= desks@.len(),
                ms == monitor_views(monitors@),
                monitor_count_fits(monitors@.len() as int),
                desks@.len() == DESK_COUNT,
                forall|i: int| 0 <= i < desks@.len() ==> (#[trigger] desks@[i]).value() == i + 1,
                command_views(commands@) =~= pin_plan(ms).take(index * 10 + j),
            decreases desks@.len() - j,
        {
            let ghost before = commands@;
            let command = Command::PinWorkspace {
                workspace: desks[j].workspace_on(index),
                monitor: monitors[index].name.clone(),
            };
            commands.push(command);
            proof {
                let k = index * 10 + j;
                assert(k % 10 == j && k / 10 == index) by (nonlinear_arith)
                    requires
                        k == index * 10 + j,
                        0 <= j < 10,
                ;
                assert(k < ms.len() * 10) by (nonlinear_arith)
                    requires
                        k == index * 10 + j,
                        0 <= j < 10,
                        index < ms.len(),
                ;
                assert(ms[index as int].name == monitors@[index as int].name@);
                assert(command@ == pin_plan(ms)[k]);
                assert(command_views(commands@) =~= command_views(before).push(command@));
                assert(pin_plan(ms).take(k + 1) =~= pin_plan(ms).take(k).push(pin_plan(ms)[k]));
                assert(command_views(commands@) =~= pin_plan(ms).take(k + 1));
            }
            j = j + 1;
        }
        index = index + 1;
    }
    assert(pin_plan(ms).take((monitors@.len() * 10) as int) =~= pin_plan(ms));
    commands
}

// ---------------------------------------------------------------------
// Occupancy
// ---------------------------------------------------------------------

/// Whether some workspace of desk `v` holds at least one window.
pub open spec fn desk_occupied(ws: Seq<WorkspaceView>, v: nat) -> bool {
    exists|i: int|
        0 <= i < ws.len() && (#[trigger] ws[i]).windows > 0 && desk_number_of(ws[i].id) == Some(
            v,
        )
}

/// The desk numbers `1..=DESK_COUNT`, ascending.
pub open spec fn desk_numbers() -> Seq<nat> {
    Seq::new(DESK_COUNT as nat, |i: int| (i + 1) as nat)
}

/// The occupied desks, ascending, each once.
pub open spec fn occupied_plan(ws: Seq<WorkspaceView>) -> Seq<nat> {
    desk_numbers().filter(|v: nat| desk_occupied(ws, v))
}

/// The numbers of a list of desks.
pub open spec fn desk_values(ds: Seq<DeskId>) -> Seq<nat> {
    ds.map_values(|d: DeskId| d.value())
}

/// Desks with at least one window on any of their workspaces, across all
/// monitors, in ascending order without repeats.
pub fn occupied_desks(workspaces: &[Workspace]) -> (r: Vec<DeskId>)
    ensures
        desk_values(r@) == occupied_plan(workspace_views(workspaces@)),
{
    let ghost ws = workspace_views(workspaces@);
    let mut flags: Vec<bool> = vec![false; 11];
    let mut i: usize = 0;
    while i < workspaces.len()
        invariant
            i <= workspaces@.len(),
            ws == workspace_views(workspaces@),
            flags@.len() == 11,
            forall|v: nat|
                1 <= v <= DESK_COUNT ==> (#[trigger] flags@[v as int] <==> exists|j: int|
                    0 <= j < i && (#[trigger] ws[j]).windows > 0 && desk_number_of(ws[j].id)
                        == Some(v)),
        decreases workspaces@.len() - i,
    {
        let w = &workspaces[i];
        assert(ws[i as int] == w@);
        if w.windows > 0 {
            match DeskId::of_workspace(w.id) {
                Some(d) => {
                    let v = d.id();
                    flags.set(v as usize, true);
                    proof {
                        assert forall|u: nat| 1 <= u <= DESK_COUNT implies (#[trigger] flags@[
                            u as int] <==> exists|j: int|
                            0 <= j < i + 1 && (#[trigger] ws[j]).windows > 0 && desk_number_of(
                                ws[j].id,
                            ) == Some(u)) by {
                            if u == v {
                                assert(ws[i as int].windows > 0 && desk_number_of(
                                    ws[i as int].id,
                                ) == Some(u));
                            }
                        }
                    }
                },
                None => {},
            }
        }
        i = i + 1;
    }
    let mut r: Vec<DeskId> = Vec::new();
    let mut v: u8 = 1;
    while v <= DESK_COUNT
        invariant
            1 <= v <= DESK_COUNT + 1,
            flags@.len() == 11,
            ws == workspace_views(workspaces@),
            forall|u: nat|
                1 <= u <= DESK_COUNT ==> (#[trigger] flags@[u as int] <==> desk_occupied(ws, u)),
            desk_values(r@) == desk_numbers().take(v - 1).filter(
                |u: nat| desk_occupied(ws, u),
            ),
        decreases DESK_COUNT + 1 - v,
    {
        proof {
            reveal(Seq::filter);
            let t = desk_numbers().take(v as int);
            assert(t.drop_last() =~= desk_numbers().take(v - 1));
            assert(t.last() == v);
        }
        if flags[v as usize] {
            let d = DeskId::new(v).unwrap();
            let ghost before = r@;
            r.push(d);
            assert(desk_values(r@) =~= desk_values(before).push(v as nat));
        }
        v = v + 1;
    }
    assert(desk_numbers().take(DESK_COUNT as int) =~= desk_numbers());
    r
}

// ---------------------------------------------------------------------
// Window memory: evacuation and restore
// ---------------------------------------------------------------------

/// Whether some client with this address sits on workspace `w`.
pub open spec fn client_at(cs: Seq<ClientView>, address: Seq<char>, w: int) -> bool {
    exists|j: int|
        0 <= j < cs.len() && (#[trigger] cs[j]).address == address && cs[j].workspace == w
}

/// A remembered window whose home monitor slot is still missing keeps
/// waiting.
pub open spec fn entry_waits(e: EntryView, count: nat) -> bool {
    match monitor_slot_of(e.1) {
        Some(slot) => slot >= count,
        None => false,
    }
}

/// A remembered window goes home when its home slot is back and it still
/// sits where evacuation left it (its desk's workspace on slot 0).
pub open spec fn entry_returns(e: EntryView, count: nat, cs: Seq<ClientView>) -> bool {
    match (desk_number_of(e.1), monitor_slot_of(e.1)) {
        (Some(d), Some(slot)) => slot < count && client_at(cs, e.0, workspace_of(d as int, 0)),
        _ => false,
    }
}

/// The command sending a remembered window home.
pub open spec fn restore_command(e: EntryView) -> CommandView {
    CommandView::MoveWindowSilent { address: e.0, workspace: e.1 }
}

/// The entries that keep waiting.
pub open spec fn restore_kept(entries: Seq<EntryView>, count: nat) -> Seq<EntryView> {
    entries.filter(|e: EntryView| entry_waits(e, count))
}

/// The commands sending windows home, in address order.
pub open spec fn restore_plan(entries: Seq<EntryView>, count: nat, cs: Seq<ClientView>) -> Seq<
    CommandView,
> {
    entries.filter(|e: EntryView| entry_returns(e, count, cs)).map_values(
        |e: EntryView| restore_command(e),
    )
}

/// Whether a client with this address is on workspace `w`.
fn has_client_at(clients: &[Client], address: &String, w: i64) -> (r: bool)
    ensures
        r == client_at(client_views(clients@), address@, w as int),
{
    let ghost cs = client_views(clients@);
    let mut j: usize = 0;
    while j < clients.len()
        invariant
            j <= clients@.len(),
            cs == client_views(clients@),
            forall|k: int|
                0 <= k < j ==> !((#[trigger] cs[k]).address == address@ && cs[k].workspace == w),
        decreases clients@.len() - j,
    {
        assert(cs[j as int] == clients@[j as int]@);
        if clients[j].address == *address && clients[j].workspace.id == w {
            return true;
        }
        j = j + 1;
    }
    false
}

/// Commands sending displaced windows home, run on every re-weld. An
/// entry survives only while its home monitor slot is still missing; once
/// the slot is back the entry's fate is settled in one pass: the window is
/// sent home if it still sits where evacuation left it, and forgotten
/// otherwise (closed, or deliberately re-placed while displaced).
pub fn restore_commands(
    displaced: &mut WindowMemory,
    monitor_count: usize,
    clients: &[Client],
) -> (r: Vec<Command>)
    ensures
        final(displaced)@ == restore_kept(old(displaced)@, monitor_count as nat),
        command_views(r@) == restore_plan(
            old(displaced)@,
            monitor_count as nat,
            client_views(clients@),
        ),
{
    let entries = displaced.take_all();
    let ghost ev = entries@.map_values(|e: (String, i64)| (e.0@, e.1 as int));
    let ghost cs = client_views(clients@);
    let ghost count = monitor_count as nat;
    let ghost waits = |e: EntryView| entry_waits(e, count);
    let ghost goes_home = |e: EntryView| entry_returns(e, count, cs);
    let mut kept: Vec<(String, i64)> = Vec::new();
    let mut commands: Vec<Command> = Vec::new();
    let mut i: usize = 0;
    while i < entries.len()
        invariant
            i <= entries@.len(),
            ev == entries@.map_values(|e: (String, i64)| (e.0@, e.1 as int)),
            ev == old(displaced)@,
            sorted_keys(ev),
            cs == client_views(clients@),
            count == monitor_count as nat,
            waits == (|e: EntryView| entry_waits(e, count)),
            goes_home == (|e: EntryView| entry_returns(e, count, cs)),
            kept@.map_values(|e: (String, i64)| (e.0@, e.1 as int)) == ev.take(i as int).filter(
                waits,
            ),
            command_views(commands@) == ev.take(i as int).filter(goes_home).map_values(
                |e: EntryView| restore_command(e),
            ),
            forall|x: int|
                0 <= x < kept@.len() ==> exists|y: int|
                    0 <= y < i && #[trigger] kept@[x].0@ == ev[y].0,
        decreases entries@.len() - i,
    {
        let address = &entries[i].0;
        let home = entries[i].1;
        let ghost e = ev[i as int];
        assert(e == (address@, home as int));
        proof {
            reveal(Seq::filter);
            let t = ev.take(i + 1);
            assert(t.drop_last() =~= ev.take(i as int));
            assert(t.last() == e);
        }
        match (DeskId::of_workspace(home), monitor_index_of(home)) {
            (Some(desk), Some(slot)) => {
                if slot >= monitor_count {
                    let ghost before = kept@;
                    kept.push((address.clone(), home));
                    proof {
                        assert(kept@.map_values(|e: (String, i64)| (e.0@, e.1 as int))
                            =~= before.map_values(|e: (String, i64)| (e.0@, e.1 as int)).push(
                            e,
                        ));
                        assert forall|x: int| 0 <= x < kept@.len() implies exists|y: int|
                            0 <= y < i + 1 && #[trigger] kept@[x].0@ == ev[y].0 by {
                            if x == kept@.len() - 1 {
                                assert(kept@[x].0@ == ev[i as int].0);
                            } else {
                                assert(kept@[x] == before[x]);
                            }
                        }
                        assert(!goes_home(e));
                    }
                } else {
                    let target = desk.workspace_on(0);
                    if has_client_at(clients, address, target) {
                        let ghost before = commands@;
                        let c = Command::MoveWindowSilent { address: address.clone(), workspace: home };
                        commands.push(c);
                        assert(command_views(commands@) =~= command_views(before).push(
                            restore_command(e),
                        ));
                    }
                    assert(!waits(e));
                }
            },
            _ => {
                assert(!waits(e));
                assert(!goes_home(e));
            },
        }
        i = i + 1;
    }
    assert(ev.take(entries@.len() as int) =~= ev);
    proof {
        let kv = kept@.map_values(|e: (String, i64)| (e.0@, e.1 as int));
        assert(sorted_keys(kv)) by {
            assert forall|a: int, b: int| 0 <= a < b < kv.len() implies key_lt(
                #[trigger] kv[a].0,
                #[trigger] kv[b].0,
            ) by {
                lemma_filter_sorted(ev, waits, a, b);
            }
        }
    }
    displaced.put_all(kept);
    commands
}

/// Filtering keeps sorted entries sorted.
proof fn lemma_filter_sorted(s: Seq<EntryView>, p: spec_fn(EntryView) -> bool, a: int, b: int)
    requires
        sorted_keys(s),
        0 <= a < b < s.filter(p).len(),
    ensures
        key_lt(s.filter(p)[a].0, s.filter(p)[b].0),
    decreases s.len(),
{
    reveal(Seq::filter);
    let t = s.drop_last();
    assert(sorted_keys(t)) by {
        assert forall|x: int, y: int| 0 <= x < y < t.len() implies key_lt(
            #[trigger] t[x].0,
            #[trigger] t[y].0,
        ) by {
            assert(t[x] == s[x] && t[y] == s[y]);
        }
    }
    if p(s.last()) && b == s.filter(p).len() - 1 {
        let ea = s.filter(p)[a];
        assert(ea == t.filter(p)[a]);
        assert(t.filter(p).contains(ea));
        t.lemma_filter_contains_rev(p, ea);
        let y = choose|y: int| 0 <= y < t.len() && t[y] == ea;
        assert(s[y] == ea);
        assert(s.filter(p)[b] == s.last());
        assert(key_lt(s[y].0, s[s.len() - 1].0));
    } else {
        assert(s.filter(p)[a] == t.filter(p)[a]);
        assert(s.filter(p)[b] == t.filter(p)[b]);
        lemma_filter_sorted(t, p, a, b);
    }
}

/// Windows on workspace `home` (whose monitor slot is gone) are moved to
/// `target` and remembered with `home`, client by client in order.
pub open spec fn evacuate(mem: Seq<EntryView>, home: int, target: int, cs: Seq<ClientView>) -> (
    Seq<EntryView>,
    Seq<CommandView>,
)
    decreases cs.len(),
{
    if cs.len() == 0 {
        (mem, seq![])
    } else {
        let prior = evacuate(mem, home, target, cs.drop_last());
        let c = cs.last();
        if c.workspace == home {
            (
                insert_sorted(prior.0, c.address, home),
                prior.1.push(CommandView::MoveWindowSilent { address: c.address, workspace: target }),
            )
        } else {
            prior
        }
    }
}

/// What the re-weld does for one workspace: a desk workspace whose monitor
/// slot is gone is evacuated to the desk's workspace on slot 0; one on the
/// wrong monitor is moved to its owner; anything else is left alone.
pub open spec fn workspace_plan(
    mem: Seq<EntryView>,
    w: WorkspaceView,
    ms: Seq<MonitorView>,
    cs: Seq<ClientView>,
) -> (Seq<EntryView>, Seq<CommandView>) {
    match (desk_number_of(w.id), monitor_slot_of(w.id)) {
        (Some(d), Some(slot)) => if slot >= ms.len() {
            evacuate(mem, w.id, workspace_of(d as int, 0), cs)
        } else if w.monitor != Some(ms[slot as int].name) {
            (
                mem,
                seq![
                    CommandView::MoveWorkspaceToMonitor {
                        workspace: w.id,
                        monitor: ms[slot as int].name,
                    },
                ],
            )
        } else {
            (mem, seq![])
        },
        _ => (mem, seq![]),
    }
}

/// The re-weld pass over every workspace, in order.
pub open spec fn evacuation(
    mem: Seq<EntryView>,
    wss: Seq<WorkspaceView>,
    ms: Seq<MonitorView>,
    cs: Seq<ClientView>,
) -> (Seq<EntryView>, Seq<CommandView>)
    decreases wss.len(),
{
    if wss.len() == 0 {
        (mem, seq![])
    } else {
        let prior = evacuation(mem, wss.drop_last(), ms, cs);
        let step = workspace_plan(prior.0, wss.last(), ms, cs);
        (step.0, prior.1 + step.1)
    }
}

// ---------------------------------------------------------------------
// The daemon state and its decisions
// ---------------------------------------------------------------------

/// What a request line asks of the daemon.
#[derive(Debug)]
pub enum Decision {
    /// Answer with this line; nothing else happens.
    Reply(String),
    /// Switch every monitor to the desk: run [`switch_commands`] for the
    /// live monitors, then [`Daemon::commit_switch`].
    Switch(DeskId),
    /// Move the active window to the desk: look the window up, run
    /// [`move_commands`] for it, then [`Daemon::commit_move`].
    Move { desk: DeskId, mode: MoveMode },
}

/// A [`Decision`] over mathematical values.
pub enum DecisionView {
    Reply(Seq<char>),
    Switch(DeskId),
    Move { desk: DeskId, mode: MoveMode },
}

impl View for Decision {
    type V = DecisionView;

    open spec fn view(&self) -> DecisionView {
        match self {
            Decision::Reply(s) => DecisionView::Reply(s@),
            Decision::Switch(d) => DecisionView::Switch(*d),
            Decision::Move { desk, mode } => DecisionView::Move { desk: *desk, mode: *mode },
        }
    }
}

/// The reply for a failed request: `err: ` and the error's rendering,
/// with line breaks escaped so the reply stays one line.
pub open spec fn error_reply_text(e: Error) -> Seq<char> {
    "err: "@ + escape_breaks(error_text(e))
}

/// Going to `target` from `current`: nothing to do when already there.
pub open spec fn switch_decision(current: DeskId, target: DeskId) -> DecisionView {
    if target == current {
        DecisionView::Reply("ok (already there)"@)
    } else {
        DecisionView::Switch(target)
    }
}

/// The neighbor of `current` in a direction.
pub open spec fn step_target(current: DeskId, direction: Direction, wrap: Wrap) -> DeskId {
    match direction {
        Direction::Next => DeskId::from_value(next_number(current.value(), wrap)),
        Direction::Prev => DeskId::from_value(prev_number(current.value(), wrap)),
    }
}

/// What a parsed request asks of a daemon on `current` with last desk
/// `last`.
pub open spec fn request_decision(current: DeskId, last: Option<DeskId>, r: Request) -> DecisionView {
    match r {
        Request::Switch(desk) => switch_decision(current, desk),
        Request::Move { desk, mode } => DecisionView::Move { desk, mode },
        Request::Step { direction, wrap } => switch_decision(
            current,
            step_target(current, direction, wrap),
        ),
        Request::Last => match last {
            Some(desk) => switch_decision(current, desk),
            None => DecisionView::Reply("ok (no last desk yet)"@),
        },
        Request::Status(format) => DecisionView::Reply(status_text(current, last, format)),
        // Subscriptions are intercepted before this point; reaching here
        // is answered as a bad request.
        Request::Subscribe(_) => DecisionView::Reply(
            "err: "@ + escape_breaks("invalid request: "@ + request_line(r)),
        ),
    }
}

/// What a request line asks of the daemon; a malformed line is answered
/// with an error reply naming it.
pub open spec fn line_decision(current: DeskId, last: Option<DeskId>, line: Seq<char>) -> DecisionView {
    match request_of_line(line) {
        Some(r) => request_decision(current, last, r),
        None => DecisionView::Reply("err: "@ + escape_breaks("invalid request: "@ + line)),
    }
}

/// The desk a workspace event reveals as switched to behind the daemon's
/// back: only when the topology matches the last re-weld and every monitor
/// shows one desk, other than the current one.
pub open spec fn tracked_switch(welded: Seq<Seq<char>>, current: DeskId, ms: Seq<MonitorView>) -> Option<
    nat,
> {
    if names_of(ms) == welded {
        match shown_everywhere(ms) {
            Some(d) => if d != current.value() {
                Some(d)
            } else {
                None
            },
            None => None,
        }
    } else {
        None
    }
}

/// The daemon's state: current and last desk, the last waybar line
/// streamed, the window memory, and the topology of the last re-weld.
pub struct Daemon {
    pub current: DeskId,
    pub last: Option<DeskId>,
    /// Last waybar line streamed, to suppress no-op updates from the
    /// chatty window events that feed occupancy.
    pub waybar_cache: String,
    /// Windows evacuated from a vanished monitor slot, with the home
    /// workspace to restore when that monitor returns. Suspend drops the
    /// external monitor's link, so every sleep looks like an undock; this
    /// memory is how wake puts the layout back.
    pub displaced: WindowMemory,
    /// Monitor names as of the last successful re-weld - the daemon's
    /// notion of a settled topology. Hyprland re-juggles workspaces while a
    /// monitor is (un)plugging and emits `workspacev2` before the monitor
    /// event; those echoes must not be mistaken for the user switching
    /// desks.
    pub welded_monitors: Vec<String>,
}

/// The reply for a failed request: `err: ` and the error's rendering,
/// line breaks escaped.
pub fn error_reply(e: &Error) -> (r: String)
    ensures
        r@ == error_reply_text(*e),
{
    let mut s = String::from_str("err: ");
    let text = e.to_string();
    push_escaped_breaks(&mut s, text.as_str());
    s
}

/// The reply to a move request when no window is focused.
pub fn no_window_reply() -> (r: String)
    ensures
        r@ == "ok (no active window)"@,
{
    String::from_str("ok (no active window)")
}

/// The commands starting a re-weld: with no monitor there is nothing to
/// weld; otherwise every desk workspace gets its pinning rule.
pub fn reweld_pins(monitors: &[Monitor]) -> (r: Option<Vec<Command>>)
    requires
        monitor_count_fits(monitors@.len() as int),
    ensures
        match r {
            Some(cs) => monitors@.len() > 0 && command_views(cs@) == pin_plan(
                monitor_views(monitors@),
            ),
            None => monitors@.len() == 0,
        },
{
    if monitors.len() == 0 {
        None
    } else {
        Some(pinning_commands(monitors))
    }
}

impl Daemon {
    /// A daemon on the inferred desk (desk 1 when none can be inferred),
    /// with no last desk, no window memory and no weld yet.
    pub fn new(inferred: Option<DeskId>) -> (d: Daemon)
        ensures
            d.current.value() == match inferred {
                Some(x) => x.value(),
                None => 1,
            },
            inferred matches Some(x) ==> d.current == x,
            d.last is None,
            d.waybar_cache@ == Seq::<char>::empty(),
            d.displaced@ == Seq::<EntryView>::empty(),
            d.welded_monitors@.len() == 0,
    {
        let current = match inferred {
            Some(x) => x,
            None => DeskId::first(),
        };
        Daemon {
            current,
            last: None,
            waybar_cache: String::new(),
            displaced: WindowMemory::new(),
            welded_monitors: Vec::new(),
        }
    }

    fn switch_to(&self, desk: DeskId) -> (r: Decision)
        ensures
            r@ == switch_decision(self.current, desk),
    {
        if desk == self.current {
            Decision::Reply(String::from_str("ok (already there)"))
        } else {
            Decision::Switch(desk)
        }
    }

    /// What a parsed request asks of the daemon.
    pub fn decide_request(&self, request: Request) -> (r: Decision)
        ensures
            r@ == request_decision(self.current, self.last, request),
    {
        match request {
            Request::Switch(desk) => self.switch_to(desk),
            Request::Move { desk, mode } => Decision::Move { desk, mode },
            Request::Step { direction, wrap } => {
                let target = match direction {
                    Direction::Next => self.current.next(wrap),
                    Direction::Prev => self.current.prev(wrap),
                };
                proof {
                    use_type_invariant(&target);
                    let v = target.value();
                    lemma_from_value(v);
                    lemma_value_injective(target, DeskId::from_value(v));
                }
                self.switch_to(target)
            },
            Request::Last => match self.last {
                Some(desk) => self.switch_to(desk),
                None => Decision::Reply(String::from_str("ok (no last desk yet)")),
            },
            Request::Status(format) => Decision::Reply(
                render_status(self.current, self.last, format),
            ),
            Request::Subscribe(_) => {
                let e = Error::BadRequest(request.to_string());
                let reply = error_reply(&e);
                assert(error_text(e) =~= "invalid request: "@ + request_line(request));
                Decision::Reply(reply)
            },
        }
    }

    /// What a request line asks of the daemon. Errors become `err: `
    /// replies, so the client always gets exactly one line.
    pub fn decide(&self, line: &str) -> (r: Decision)
        ensures
            r@ == line_decision(self.current, self.last, line@),
    {
        match Request::parse_line(line) {
            Ok(request) => self.decide_request(request),
            Err(e) => {
                let reply = error_reply(&e);
                assert(error_text(e) =~= "invalid request: "@ + line@);
                Decision::Reply(reply)
            },
        }
    }

    fn record_switch(&mut self, desk: DeskId)
        ensures
            final(self).current == desk,
            final(self).last == Some(old(self).current),
            final(self).waybar_cache == old(self).waybar_cache,
            final(self).displaced == old(self).displaced,
            final(self).welded_monitors == old(self).welded_monitors,
    {
        self.last = Some(self.current);
        self.current = desk;
    }

    /// Records a switch the compositor carried out; the reply is `ok`.
    pub fn commit_switch(&mut self, desk: DeskId) -> (r: String)
        ensures
            r@ == "ok"@,
            final(self).current == desk,
            final(self).last == Some(old(self).current),
            final(self).waybar_cache == old(self).waybar_cache,
            final(self).displaced == old(self).displaced,
            final(self).welded_monitors == old(self).welded_monitors,
    {
        self.record_switch(desk);
        String::from_str("ok")
    }

    /// Records a window move the compositor carried out: a follow to
    /// another desk switches the daemon there. The reply is `ok`; the flag
    /// says whether the desk changed.
    pub fn commit_move(&mut self, desk: DeskId, mode: MoveMode) -> (r: (String, bool))
        ensures
            r.0@ == "ok"@,
            r.1 == (mode == MoveMode::Follow && desk != old(self).current),
            r.1 ==> final(self).current == desk && final(self).last == Some(old(self).current),
            !r.1 ==> final(self).current == old(self).current && final(self).last == old(
                self,
            ).last,
            final(self).waybar_cache == old(self).waybar_cache,
            final(self).displaced == old(self).displaced,
            final(self).welded_monitors == old(self).welded_monitors,
    {
        let switched = mode == MoveMode::Follow && desk != self.current;
        if switched {
            self.record_switch(desk);
        }
        (String::from_str("ok"), switched)
    }

    /// Tracks desk changes made behind the daemon's back from a workspace
    /// event. Two guards keep Hyprland's own workspace juggling around a
    /// monitor (un)plug from corrupting `current`: the topology must match
    /// the last weld, and every monitor must agree on one desk. Answers
    /// whether a switch was recorded.
    pub fn observe_workspaces(&mut self, monitors: &[Monitor]) -> (r: bool)
        ensures
            match tracked_switch(
                string_views(old(self).welded_monitors@),
                old(self).current,
                monitor_views(monitors@),
            ) {
                Some(d) => r && final(self).current.value() == d && final(self).last == Some(
                    old(self).current,
                ),
                None => !r && final(self).current == old(self).current && final(self).last == old(
                    self,
                ).last,
            },
            final(self).waybar_cache == old(self).waybar_cache,
            final(self).displaced == old(self).displaced,
            final(self).welded_monitors == old(self).welded_monitors,
    {
        let names = monitor_names(monitors);
        if !names_equal(&names, &self.welded_monitors) {
            return false;
        }
        match desk_shown_everywhere(monitors) {
            Some(desk) => {
                proof {
                    if desk.value() == self.current.value() {
                        lemma_value_injective(desk, self.current);
                    }
                }
                if desk != self.current {
                    self.record_switch(desk);
                    true
                } else {
                    false
                }
            },
            None => false,
        }
    }

    /// Plans the body of a re-weld, used at startup and on monitor
    /// hotplug: repatriate desk workspaces to their owning monitors,
    /// evacuate windows from workspaces whose monitor slot no longer
    /// exists into the desk's workspace on slot 0 (nothing may become
    /// unreachable) and remember their homes, send previously evacuated
    /// windows home if their slot is back, then re-apply the current desk.
    pub fn plan_reweld(
        &mut self,
        monitors: &[Monitor],
        workspaces: &[Workspace],
        clients: &[Client],
    ) -> (r: Vec<Command>)
        requires
            monitor_count_fits(monitors@.len() as int),
        ensures
            ({
                let ms = monitor_views(monitors@);
                let cs = client_views(clients@);
                let evac = evacuation(old(self).displaced@, workspace_views(workspaces@), ms, cs);
                &&& final(self).displaced@ == restore_kept(evac.0, ms.len())
                &&& command_views(r@) == evac.1 + restore_plan(evac.0, ms.len(), cs)
                    + switch_plan(old(self).current.value(), ms)
            }),
            final(self).current == old(self).current,
            final(self).last == old(self).last,
            final(self).waybar_cache == old(self).waybar_cache,
            final(self).welded_monitors == old(self).welded_monitors,
    {
        let ghost ms = monitor_views(monitors@);
        let ghost cs = client_views(clients@);
        let ghost wss = workspace_views(workspaces@);
        let mut commands: Vec<Command> = Vec::new();
        let mut w: usize = 0;
        while w < workspaces.len()
            invariant
                w <= workspaces@.len(),
                ms == monitor_views(monitors@),
                cs == client_views(clients@),
                wss == workspace_views(workspaces@),
                monitor_count_fits(monitors@.len() as int),
                self.current == old(self).current,
                self.last == old(self).last,
                self.waybar_cache == old(self).waybar_cache,
                self.welded_monitors == old(self).welded_monitors,
                (self.displaced@, command_views(commands@)) == evacuation(
                    old(self).displaced@,
                    wss.take(w as int),
                    ms,
                    cs,
                ),
            decreases workspaces@.len() - w,
        {
            let ws = &workspaces[w];
            let ghost mem0 = self.displaced@;
            let ghost cmd0 = command_views(commands@);
            proof {
                let t = wss.take(w + 1);
                assert(t.drop_last() =~= wss.take(w as int));
                assert(t.last() == ws@);
            }
            match (DeskId::of_workspace(ws.id), monitor_index_of(ws.id)) {
                (Some(desk), Some(slot)) => {
                    if slot >= monitors.len() {
                        let target = desk.workspace_on(0);
                        let mut j: usize = 0;
                        assert(cs.take(0) =~= Seq::<ClientView>::empty());
                        while j < clients.len()
                            invariant
                                j <= clients@.len(),
                                cs == client_views(clients@),
                                target == workspace_of(desk.value() as int, 0),
                                self.current == old(self).current,
                                self.last == old(self).last,
                                self.waybar_cache == old(self).waybar_cache,
                                self.welded_monitors == old(self).welded_monitors,
                                ({
                                    let ev = evacuate(mem0, ws.id as int, target as int, cs.take(j as int));
                                    self.displaced@ == ev.0 && command_views(commands@) == cmd0
                                        + ev.1
                                }),
                            decreases clients@.len() - j,
                        {
                            let client = &clients[j];
                            proof {
                                let t = cs.take(j + 1);
                                assert(t.drop_last() =~= cs.take(j as int));
                                assert(t.last() == client@);
                            }
                            if client.workspace.id == ws.id {
                                let ghost before = commands@;
                                self.displaced.insert(client.address.clone(), ws.id);
                                let c = Command::MoveWindowSilent {
                                    address: client.address.clone(),
                                    workspace: target,
                                };
                                commands.push(c);
                                assert(command_views(commands@) =~= command_views(before).push(
                                    c@,
                                ));
                            }
                            j = j + 1;
                        }
                        assert(cs.take(clients@.len() as int) =~= cs);
                    } else {
                        let owner = &monitors[slot];
                        assert(ms[slot as int] == owner@);
                        let on_owner = match &ws.monitor {
                            Some(m) => *m == owner.name,
                            None => false,
                        };
                        if !on_owner {
                            let ghost before = commands@;
                            let c = Command::MoveWorkspaceToMonitor {
                                workspace: ws.id,
                                monitor: owner.name.clone(),
                            };
                            commands.push(c);
                            assert(command_views(commands@) =~= command_views(before) + seq![c@]);
                        } else {
                            assert(cmd0 + Seq::<CommandView>::empty() =~= cmd0);
                        }
                    }
                },
                _ => {
                    assert(cmd0 + Seq::<CommandView>::empty() =~= cmd0);
                },
            }
            w = w + 1;
        }
        assert(wss.take(workspaces@.len() as int) =~= wss);
        let ghost evac_cmds = command_views(commands@);
        let mut restores = restore_commands(&mut self.displaced, monitors.len(), clients);
        let ghost rv = restores@;
        commands.append(&mut restores);
        let mut switch = switch_commands(self.current, monitors);
        let ghost sv = switch@;
        commands.append(&mut switch);
        assert(command_views(commands@) =~= evac_cmds + command_views(rv) + command_views(sv));
        commands
    }

    /// Completes a re-weld: the monitors it welded are the settled
    /// topology from now on.
    pub fn finish_reweld(&mut self, monitors: &[Monitor])
        ensures
            string_views(final(self).welded_monitors@) == names_of(monitor_views(monitors@)),
            final(self).current == old(self).current,
            final(self).last == old(self).last,
            final(self).waybar_cache == old(self).waybar_cache,
            final(self).displaced == old(self).displaced,
    {
        self.welded_monitors = monitor_names(monitors);
    }

    /// Offers a freshly rendered waybar line: answers the line to stream
    /// when it differs from the last one streamed (and remembers it), and
    /// nothing when it is unchanged.
    pub fn waybar_update(&mut self, line: String) -> (r: Option<String>)
        ensures
            line@ == old(self).waybar_cache@ ==> r is None && final(self).waybar_cache@ == old(
                self,
            ).waybar_cache@,
            line@ != old(self).waybar_cache@ ==> (r matches Some(l) && l@ == line@)
                && final(self).waybar_cache@ == line@,
            final(self).current == old(self).current,
            final(self).last == old(self).last,
            final(self).displaced == old(self).displaced,
            final(self).welded_monitors == old(self).welded_monitors,
    {
        if line == self.waybar_cache {
            return None;
        }
        self.waybar_cache = line.clone();
        Some(line)
    }
}

// ---------------------------------------------------------------------
// Laws
// ---------------------------------------------------------------------

/// At most one monitor has focus (the compositor focuses exactly one).
pub open spec fn at_most_one_focused(ms: Seq<MonitorView>) -> bool {
    forall|i: int, j: int| 0 <= i < ms.len() && 0 <= j < ms.len() && ms[i].focused && ms[j].focused ==> i == j
}

proof fn lemma_switches_where(d: nat, ms: Seq<MonitorView>, f: bool)
    ensures
        forall|i: int|
            0 <= i < ms.len() && #[trigger] ms[i].focused == f ==> switches_where(
                d,
                ms,
                f,
            ).contains(CommandView::FocusWorkspace(workspace_of(d as int, i))),
        switches_where(d, ms, f).len() + switches_where(d, ms, !f).len() == ms.len(),
        (forall|i: int| 0 <= i < ms.len() ==> #[trigger] ms[i].focused != f) ==> switches_where(
            d,
            ms,
            f,
        ).len() == 0,
    decreases ms.len(),
{
    if ms.len() > 0 {
        let t = ms.drop_last();
        lemma_switches_where(d, t, f);
        let prior = switches_where(d, t, f);
        let now = switches_where(d, ms, f);
        assert forall|i: int| 0 <= i < ms.len() && #[trigger] ms[i].focused == f implies now.contains(
            CommandView::FocusWorkspace(workspace_of(d as int, i)),
        ) by {
            let c = CommandView::FocusWorkspace(workspace_of(d as int, i));
            if i < ms.len() - 1 {
                assert(t[i] == ms[i]);
                assert(prior.contains(c));
                let k = choose|k: int| 0 <= k < prior.len() && prior[k] == c;
                assert(now[k] == c);
            } else {
                assert(now[prior.len() as int] == c);
            }
        }
        if forall|i: int| 0 <= i < ms.len() ==> #[trigger] ms[i].focused != f {
            assert forall|i: int| 0 <= i < t.len() implies #[trigger] t[i].focused != f by {
                assert(t[i] == ms[i]);
            }
            assert(ms[ms.len() - 1].focused != f);
        }
    }
}

proof fn lemma_single_focused_switch(d: nat, ms: Seq<MonitorView>, k: int)
    requires
        0 <= k < ms.len(),
        ms[k].focused,
        at_most_one_focused(ms),
    ensures
        switches_where(d, ms, true) == seq![CommandView::FocusWorkspace(workspace_of(d as int, k))],
    decreases ms.len(),
{
    let t = ms.drop_last();
    if k == ms.len() - 1 {
        assert forall|i: int| 0 <= i < t.len() implies #[trigger] t[i].focused != true by {
            assert(t[i] == ms[i]);
        }
        lemma_switches_where(d, t, true);
        assert(switches_where(d, t, true) =~= Seq::<CommandView>::empty());
        assert(switches_where(d, ms, true) =~= seq![
            CommandView::FocusWorkspace(workspace_of(d as int, k)),
        ]);
    } else {
        assert(t[k] == ms[k]);
        assert(at_most_one_focused(t)) by {
            assert forall|i: int, j: int|
                0 <= i < t.len() && 0 <= j < t.len() && t[i].focused && t[j].focused implies i
                == j by {
                assert(t[i] == ms[i] && t[j] == ms[j]);
            }
        }
        assert(!ms.last().focused) by {
            assert(ms[ms.len() - 1] == ms.last());
        }
        lemma_single_focused_switch(d, t, k);
    }
}

/// Switching to desk `d` gives exactly one command per monitor slot, each
/// focusing that desk's workspace for the slot; the unfocused monitors come
/// first, in slot order, and when one monitor has focus its command comes
/// last, so focus ends where it started.
pub proof fn law_switch_covers_every_monitor(d: nat, ms: Seq<MonitorView>)
    ensures
        switch_plan(d, ms).len() == ms.len(),
        forall|i: int|
            0 <= i < ms.len() ==> switch_plan(d, ms).contains(
                CommandView::FocusWorkspace(workspace_of(d as int, i)),
            ),
        forall|i: int|
            0 <= i < ms.len() && !ms[i].focused ==> switch_plan(d, ms).take(
                switches_where(d, ms, false).len() as int,
            ).contains(CommandView::FocusWorkspace(workspace_of(d as int, i))),
        forall|k: int|
            0 <= k < ms.len() && ms[k].focused && at_most_one_focused(ms) ==> switch_plan(
                d,
                ms,
            ).last() == CommandView::FocusWorkspace(workspace_of(d as int, k)),
{
    lemma_switches_where(d, ms, false);
    lemma_switches_where(d, ms, true);
    let u = switches_where(d, ms, false);
    let g = switches_where(d, ms, true);
    let plan = switch_plan(d, ms);
    assert(plan.take(u.len() as int) =~= u);
    assert forall|i: int|
        0 <= i < ms.len() implies plan.contains(
        CommandView::FocusWorkspace(workspace_of(d as int, i)),
    ) by {
        let c = CommandView::FocusWorkspace(workspace_of(d as int, i));
        if ms[i].focused {
            assert(g.contains(c));
            let k = choose|k: int| 0 <= k < g.len() && g[k] == c;
            assert(plan[u.len() + k] == c);
        } else {
            assert(u.contains(c));
            let k = choose|k: int| 0 <= k < u.len() && u[k] == c;
            assert(plan[k] == c);
        }
    }
    assert forall|k: int|
        0 <= k < ms.len() && ms[k].focused && at_most_one_focused(ms) implies plan.last()
        == CommandView::FocusWorkspace(workspace_of(d as int, k)) by {
        lemma_single_focused_switch(d, ms, k);
    }
}

/// A desk switch makes the previous desk the last one, so `lastdesk`
/// goes back to it; and asking for the desk already shown changes
/// nothing.
pub proof fn law_back_and_forth(previous: DeskId, now: DeskId, last: Option<DeskId>)
    requires
        previous != now,
    ensures
        request_decision(now, Some(previous), Request::Last) == DecisionView::Switch(previous),
        request_decision(now, last, Request::Switch(now)) == DecisionView::Reply(
            "ok (already there)"@,
        ),
{
}

/// Memory entries map addresses to homes: the home of a key present in
/// the map is held by some entry with that key.
proof fn lemma_map_has_entry(s: Seq<EntryView>, k: Seq<char>)
    requires
        entries_map(s).contains_key(k),
    ensures
        exists|i: int| 0 <= i < s.len() && s[i].0 == k && s[i].1 == entries_map(s)[k],
    decreases s.len(),
{
    if s.last().0 != k {
        lemma_map_has_entry(s.drop_last(), k);
        let i = choose|i: int|
            0 <= i < s.drop_last().len() && s.drop_last()[i].0 == k && s.drop_last()[i].1
                == entries_map(s.drop_last())[k];
        assert(s[i] == s.drop_last()[i]);
    } else {
        assert(s[s.len() - 1] == s.last());
    }
}

proof fn lemma_sorted_unique(s: Seq<EntryView>, i: int, j: int)
    requires
        sorted_keys(s),
        0 <= i < s.len(),
        0 <= j < s.len(),
        s[i].0 == s[j].0,
    ensures
        i == j,
{
    if i < j {
        assert(key_lt(s[i].0, s[j].0));
        lemma_key_lt_irreflexive(s[i].0);
    } else if j < i {
        assert(key_lt(s[j].0, s[i].0));
        lemma_key_lt_irreflexive(s[i].0);
    }
}

/// Window memory brings windows home: a window remembered with home
/// workspace `home` goes back there once the home monitor slot is present
/// again and the window still sits where evacuation left it (its desk's
/// workspace on slot 0); after that pass the window is no longer
/// remembered. Every entry that stays remembered still waits for a
/// missing slot.
pub proof fn law_remembered_window_returns_home(
    mem: Seq<EntryView>,
    address: Seq<char>,
    count: nat,
    later: Seq<ClientView>,
)
    requires
        sorted_keys(mem),
        entries_map(mem).contains_key(address),
        desk_number_of(entries_map(mem)[address]) is Some,
        monitor_slot_of(entries_map(mem)[address])->0 < count,
        client_at(
            later,
            address,
            workspace_of(desk_number_of(entries_map(mem)[address])->0 as int, 0),
        ),
    ensures
        restore_plan(mem, count, later).contains(
            CommandView::MoveWindowSilent { address: address, workspace: entries_map(mem)[address] },
        ),
        forall|i: int|
            0 <= i < restore_kept(mem, count).len() ==> restore_kept(mem, count)[i].0 != address,
        forall|i: int|
            0 <= i < restore_kept(mem, count).len() ==> entry_waits(
                #[trigger] restore_kept(mem, count)[i],
                count,
            ),
{
    broadcast use vstd::seq_lib::group_filter_ensures;

    let home = entries_map(mem)[address];
    lemma_map_has_entry(mem, address);
    let i = choose|i: int| 0 <= i < mem.len() && mem[i].0 == address && mem[i].1 == home;
    let goes = |e: EntryView| entry_returns(e, count, later);
    let waits = |e: EntryView| entry_waits(e, count);
    assert(goes(mem[i]));
    mem.lemma_filter_contains(goes, i);
    let f = mem.filter(goes);
    let k = choose|k: int| 0 <= k < f.len() && f[k] == mem[i];
    assert(restore_plan(mem, count, later)[k] == restore_command(mem[i]));
    let kept = restore_kept(mem, count);
    assert forall|x: int| 0 <= x < kept.len() implies kept[x].0 != address by {
        assert(waits(kept[x]));
        assert(kept.contains(kept[x]));
        mem.lemma_filter_contains_rev(waits, kept[x]);
        let y = choose|y: int| 0 <= y < mem.len() && mem[y] == kept[x];
        if kept[x].0 == address {
            lemma_sorted_unique(mem, i, y);
        }
    }
}

/// Evacuation leaves nothing unreachable: every window on a workspace
/// whose monitor slot is gone gets a move to the desk's workspace on slot
/// 0, and its home workspace is remembered for when the slot returns.
pub proof fn law_stranded_windows_are_evacuated(
    mem: Seq<EntryView>,
    home: int,
    target: int,
    cs: Seq<ClientView>,
    j: int,
)
    requires
        sorted_keys(mem),
        0 <= j < cs.len(),
        cs[j].workspace == home,
    ensures
        evacuate(mem, home, target, cs).1.contains(
            CommandView::MoveWindowSilent { address: cs[j].address, workspace: target },
        ),
        entries_map(evacuate(mem, home, target, cs).0).contains_key(cs[j].address),
        entries_map(evacuate(mem, home, target, cs).0)[cs[j].address] == home,
        sorted_keys(evacuate(mem, home, target, cs).0),
    decreases cs.len(),
{
    lemma_evacuate_sorted(mem, home, target, cs);
    let prior = evacuate(mem, home, target, cs.drop_last());
    let c = cs.last();
    if j == cs.len() - 1 {
        lemma_evacuate_sorted(mem, home, target, cs.drop_last());
        lemma_insert_sorted(prior.0, c.address, home);
        assert(evacuate(mem, home, target, cs).1.last() == CommandView::MoveWindowSilent {
            address: c.address,
            workspace: target,
        });
        assert(cs[j] == c);
    } else {
        assert(cs.drop_last()[j] == cs[j]);
        law_stranded_windows_are_evacuated(mem, home, target, cs.drop_last(), j);
        let cmd = CommandView::MoveWindowSilent { address: cs[j].address, workspace: target };
        let k = choose|k: int| 0 <= k < prior.1.len() && prior.1[k] == cmd;
        if c.workspace == home {
            lemma_insert_sorted(prior.0, c.address, home);
            assert(evacuate(mem, home, target, cs).1[k] == cmd);
        }
    }
}

proof fn lemma_evacuate_sorted(mem: Seq<EntryView>, home: int, target: int, cs: Seq<ClientView>)
    requires
        sorted_keys(mem),
    ensures
        sorted_keys(evacuate(mem, home, target, cs).0),
    decreases cs.len(),
{
    if cs.len() > 0 {
        lemma_evacuate_sorted(mem, home, target, cs.drop_last());
        let prior = evacuate(mem, home, target, cs.drop_last());
        lemma_insert_sorted(prior.0, cs.last().address, home);
    }
}

// ---------------------------------------------------------------------
// Events
// ---------------------------------------------------------------------

/// What the daemon does about a compositor event.
#[derive(Debug, Clone, Copy, PartialEq, Eq, Structural)]
pub enum Reaction {
    /// A monitor came or went: re-weld (re-pin, repatriate, evacuate,
    /// restore, re-apply the current desk).
    Reweld,
    /// A config reload wiped the runtime workspace rules: re-assert them.
    Repin,
    /// The active workspace changed somewhere: track a desk switch made
    /// behind the daemon's back ([`Daemon::observe_workspaces`]).
    TrackDesk,
    /// Occupancy may have changed: re-render the waybar strip.
    RefreshBar,
    /// Nothing to do.
    Nothing,
}

/// The daemon's reaction to a compositor event.
pub fn reaction_to(event: Event) -> (r: Reaction)
    ensures
        r == match event {
            Event::MonitorAdded | Event::MonitorRemoved => Reaction::Reweld,
            Event::ConfigReloaded => Reaction::Repin,
            Event::WorkspaceChanged => Reaction::TrackDesk,
            Event::WindowsChanged => Reaction::RefreshBar,
            Event::Other => Reaction::Nothing,
        },
{
    match event {
        Event::MonitorAdded | Event::MonitorRemoved => Reaction::Reweld,
        Event::ConfigReloaded => Reaction::Repin,
        Event::WorkspaceChanged => Reaction::TrackDesk,
        Event::WindowsChanged => Reaction::RefreshBar,
        Event::Other => Reaction::Nothing,
    }
}

/// Workspaces outside the desk mapping (special workspaces such as the
/// scratchpad, and foreign ids) are never touched by a re-weld.
pub proof fn law_foreign_workspaces_untouched(
    mem: Seq<EntryView>,
    w: WorkspaceView,
    ms: Seq<MonitorView>,
    cs: Seq<ClientView>,
)
    requires
        desk_number_of(w.id) is None,
    ensures
        ({
            let plan = workspace_plan(mem, w, ms, cs);
            plan.0 == mem && plan.1.len() == 0
        }),
{
}

/// Moves are pinned to the window's address: the first command moves
/// that window onto the target desk's workspace on the focused monitor's
/// slot, and a follow ends by focusing that same window.
pub proof fn law_moves_are_pinned_to_the_window(
    d: nat,
    follow: bool,
    ms: Seq<MonitorView>,
    address: Seq<char>,
)
    ensures
        move_plan(d, follow, ms, address)[0] == (CommandView::MoveWindowSilent {
            address: address,
            workspace: workspace_of(
                d as int,
                match first_focused(ms) {
                    Some(i) => i as int,
                    None => 0,
                },
            ),
        }),
        follow ==> move_plan(d, follow, ms, address).last() == (CommandView::FocusWindow {
            address: address,
        }),
        !follow ==> move_plan(d, follow, ms, address).len() == 1,
{
}

proof fn lemma_evacuate_keeps_keys(mem: Seq<EntryView>, home: int, target: int, cs: Seq<ClientView>, k: Seq<char>)
    requires
        sorted_keys(mem),
        entries_map(mem).contains_key(k),
    ensures
        entries_map(evacuate(mem, home, target, cs).0).contains_key(k),
    decreases cs.len(),
{
    if cs.len() > 0 {
        lemma_evacuate_keeps_keys(mem, home, target, cs.drop_last(), k);
        lemma_evacuate_sorted(mem, home, target, cs.drop_last());
        let prior = evacuate(mem, home, target, cs.drop_last());
        lemma_insert_sorted(prior.0, cs.last().address, home);
    }
}

proof fn lemma_workspace_plan_facts(
    mem: Seq<EntryView>,
    w: WorkspaceView,
    ms: Seq<MonitorView>,
    cs: Seq<ClientView>,
    k: Seq<char>,
)
    requires
        sorted_keys(mem),
    ensures
        sorted_keys(workspace_plan(mem, w, ms, cs).0),
        entries_map(mem).contains_key(k) ==> entries_map(workspace_plan(mem, w, ms, cs).0).contains_key(k),
{
    match (desk_number_of(w.id), monitor_slot_of(w.id)) {
        (Some(d), Some(slot)) => {
            if slot >= ms.len() {
                lemma_evacuate_sorted(mem, w.id, workspace_of(d as int, 0), cs);
                if entries_map(mem).contains_key(k) {
                    lemma_evacuate_keeps_keys(mem, w.id, workspace_of(d as int, 0), cs, k);
                }
            }
        },
        _ => {},
    }
}

proof fn lemma_evacuation_facts(
    mem: Seq<EntryView>,
    wss: Seq<WorkspaceView>,
    ms: Seq<MonitorView>,
    cs: Seq<ClientView>,
    k: Seq<char>,
)
    requires
        sorted_keys(mem),
    ensures
        sorted_keys(evacuation(mem, wss, ms, cs).0),
        entries_map(mem).contains_key(k) ==> entries_map(evacuation(mem, wss, ms, cs).0).contains_key(k),
    decreases wss.len(),
{
    if wss.len() > 0 {
        lemma_evacuation_facts(mem, wss.drop_last(), ms, cs, k);
        let prior = evacuation(mem, wss.drop_last(), ms, cs);
        lemma_workspace_plan_facts(prior.0, wss.last(), ms, cs, k);
    }
}

/// A re-weld leaves nothing unreachable: every window on a desk workspace
/// whose monitor slot is gone is moved to that desk's workspace on slot 0,
/// and its address is remembered for when the slot returns.
pub proof fn law_reweld_leaves_nothing_unreachable(
    mem: Seq<EntryView>,
    wss: Seq<WorkspaceView>,
    ms: Seq<MonitorView>,
    cs: Seq<ClientView>,
    i: int,
    j: int,
)
    requires
        sorted_keys(mem),
        0 <= i < wss.len(),
        desk_number_of(wss[i].id) is Some,
        monitor_slot_of(wss[i].id)->0 >= ms.len(),
        0 <= j < cs.len(),
        cs[j].workspace == wss[i].id,
    ensures
        evacuation(mem, wss, ms, cs).1.contains(
            CommandView::MoveWindowSilent {
                address: cs[j].address,
                workspace: workspace_of(desk_number_of(wss[i].id)->0 as int, 0),
            },
        ),
        entries_map(evacuation(mem, wss, ms, cs).0).contains_key(cs[j].address),
    decreases wss.len(),
{
    let cmd = CommandView::MoveWindowSilent {
        address: cs[j].address,
        workspace: workspace_of(desk_number_of(wss[i].id)->0 as int, 0),
    };
    let t = wss.drop_last();
    let prior = evacuation(mem, t, ms, cs);
    lemma_evacuation_facts(mem, t, ms, cs, cs[j].address);
    if i == wss.len() - 1 {
        let d = desk_number_of(wss[i].id)->0;
        law_stranded_windows_are_evacuated(prior.0, wss[i].id, workspace_of(d as int, 0), cs, j);
        let step = workspace_plan(prior.0, wss.last(), ms, cs);
        let k = choose|k: int| 0 <= k < step.1.len() && step.1[k] == cmd;
        assert(evacuation(mem, wss, ms, cs).1[prior.1.len() + k] == cmd);
    } else {
        assert(t[i] == wss[i]);
        law_reweld_leaves_nothing_unreachable(mem, t, ms, cs, i, j);
        let k = choose|k: int| 0 <= k < prior.1.len() && prior.1[k] == cmd;
        assert(evacuation(mem, wss, ms, cs).1[k] == cmd);
        lemma_workspace_plan_facts(prior.0, wss.last(), ms, cs, cs[j].address);
    }
}

/// Sleep and wake (an undock followed by a redock) put a window back: a
/// window evacuated from workspace `home` when its monitor slot vanished
/// is sent back to `home` by the restore pass once the slot is present
/// again, provided it still sits where evacuation left it.
pub proof fn law_evacuated_window_returns_home(
    mem: Seq<EntryView>,
    home: int,
    cs: Seq<ClientView>,
    j: int,
    count: nat,
    later: Seq<ClientView>,
)
    requires
        sorted_keys(mem),
        desk_number_of(home) is Some,
        0 <= j < cs.len(),
        cs[j].workspace == home,
        monitor_slot_of(home)->0 < count,
        client_at(later, cs[j].address, workspace_of(desk_number_of(home)->0 as int, 0)),
    ensures
        ({
            let remembered = evacuate(
                mem,
                home,
                workspace_of(desk_number_of(home)->0 as int, 0),
                cs,
            ).0;
            restore_plan(remembered, count, later).contains(
                CommandView::MoveWindowSilent { address: cs[j].address, workspace: home },
            )
        }),
{
    let target = workspace_of(desk_number_of(home)->0 as int, 0);
    law_stranded_windows_are_evacuated(mem, home, target, cs, j);
    let remembered = evacuate(mem, home, target, cs).0;
    law_remembered_window_returns_home(remembered, cs[j].address, count, later);
}

/// Every reply the daemon gives is one line: the replies it decides from
/// the request alone, the `ok` that follows a switch or move it carried
/// out, and the answer when no window has focus. (Error replies are the
/// subject of `law_error_reply_is_one_line`.)
pub proof fn law_replies_are_one_line(current: DeskId, last: Option<DeskId>, line: Seq<char>)
    requires
        current.wf(),
        last matches Some(d) ==> d.wf(),
    ensures
        line_decision(current, last, line) matches DecisionView::Reply(reply) ==> single_line(
            reply,
        ),
        single_line("ok"@),
        single_line("ok (no active window)"@),
{
    reveal_strlit("ok (already there)");
    reveal_strlit("ok (no last desk yet)");
    reveal_strlit("ok");
    reveal_strlit("ok (no active window)");
    reveal_strlit("err: ");
    assert(single_line("ok (already there)"@));
    assert(single_line("ok (no last desk yet)"@));
    assert(single_line("ok"@));
    assert(single_line("ok (no active window)"@));
    assert(single_line("err: "@));
    match request_of_line(line) {
        Some(r) => {
            match r {
                Request::Status(format) => {
                    law_status_is_one_line(current, last, format);
                },
                Request::Subscribe(_) => {
                    let t = "invalid request: "@ + request_line(r);
                    lemma_escape_breaks_single_line(t);
                    lemma_single_line_concat("err: "@, escape_breaks(t));
                },
                _ => {},
            }
        },
        None => {
            let t = "invalid request: "@ + line;
            lemma_escape_breaks_single_line(t);
            lemma_single_line_concat("err: "@, escape_breaks(t));
        },
    }
}

/// The reply to any failed request is one line, whatever the error
/// carries (a compositor's rejection text among them); and an error whose
/// rendering holds no line break is answered with that rendering as it is.
pub proof fn law_error_reply_is_one_line(e: Error)
    ensures
        single_line(error_reply_text(e)),
        (forall|i: int|
            0 <= i < error_text(e).len() ==> #[trigger] error_text(e)[i] != '\n' && error_text(
                e,
            )[i] != '\r') ==> error_reply_text(e) == "err: "@ + error_text(e),
{
    reveal_strlit("err: ");
    assert(single_line("err: "@));
    lemma_escape_breaks_single_line(error_text(e));
    lemma_single_line_concat("err: "@, escape_breaks(error_text(e)));
    if forall|i: int|
        0 <= i < error_text(e).len() ==> #[trigger] error_text(e)[i] != '\n' && error_text(e)[i]
            != '\r' {
        lemma_escape_breaks_plain(error_text(e));
    }
}

/// Whether a reply carries the error marker `err: ` at its start.
pub open spec fn marked_as_error(reply: Seq<char>) -> bool {
    reply.len() >= 5 && reply.take(5) == "err: "@
}

proof fn lemma_marked_prefix(rest: Seq<char>)
    ensures
        marked_as_error("err: "@ + rest),
{
    reveal_strlit("err: ");
    assert(("err: "@ + rest).take(5) =~= "err: "@);
}

proof fn lemma_unmarked(reply: Seq<char>)
    requires
        reply.len() > 0,
        reply[0] != 'e',
    ensures
        !marked_as_error(reply),
{
    reveal_strlit("err: ");
    if marked_as_error(reply) {
        assert(reply.take(5)[0] == reply[0]);
    }
}

/// A reply carries the error marker exactly when the request failed. A
/// reply decided from the line alone is marked exactly when the line is no
/// request the daemon serves (it does not parse, or it is a subscription,
/// which the request path refuses); the reply to any failure is marked; the
/// `ok` after a switch or move the daemon carried out, and the answer to a
/// move with no focused window, are not.
pub proof fn law_error_marker_means_failure(
    current: DeskId,
    last: Option<DeskId>,
    line: Seq<char>,
    e: Error,
)
    requires
        current.wf(),
        last matches Some(d) ==> d.wf(),
    ensures
        line_decision(current, last, line) matches DecisionView::Reply(reply) ==> (marked_as_error(
            reply,
        ) <==> (request_of_line(line) is None || request_of_line(line) matches Some(
            Request::Subscribe(_),
        ))),
        marked_as_error(error_reply_text(e)),
        !marked_as_error("ok"@),
        !marked_as_error("ok (no active window)"@),
{
    reveal_strlit("ok (already there)");
    reveal_strlit("ok (no last desk yet)");
    reveal_strlit("ok");
    reveal_strlit("ok (no active window)");
    reveal_strlit("desk: ");
    reveal_strlit("{\"desk\":");
    lemma_marked_prefix(escape_breaks(error_text(e)));
    lemma_unmarked("ok"@);
    lemma_unmarked("ok (no active window)"@);
    match request_of_line(line) {
        Some(r) => {
            match r {
                Request::Switch(d) => {
                    lemma_unmarked("ok (already there)"@);
                },
                Request::Step { .. } => {
                    lemma_unmarked("ok (already there)"@);
                },
                Request::Last => {
                    lemma_unmarked("ok (already there)"@);
                    lemma_unmarked("ok (no last desk yet)"@);
                },
                Request::Status(format) => {
                    let t = status_text(current, last, format);
                    match format {
                        StatusFormat::Text => {
                            assert(t[0] == "desk: "@[0]);
                        },
                        StatusFormat::Json => {
                            assert(t[0] == "{\"desk\":"@[0]);
                        },
                    }
                    lemma_unmarked(t);
                },
                Request::Subscribe(_) => {
                    lemma_marked_prefix(escape_breaks("invalid request: "@ + request_line(r)));
                },
                _ => {},
            }
        },
        None => {
            lemma_marked_prefix(escape_breaks("invalid request: "@ + line));
        },
    }
}

/// A step goes one desk in its own direction: `nextdesk` to the desk one
/// above, `prevdesk` to the one below. At the ends a clamping step stays
/// put (answered as already there) and a cycling step wraps to the other
/// end.
pub proof fn law_steps_go_one_desk(
    current: DeskId,
    last: Option<DeskId>,
    direction: Direction,
    wrap: Wrap,
)
    requires
        current.wf(),
    ensures
        ({
            let c = current.value();
            let t: nat = match direction {
                Direction::Next => if c < DESK_COUNT {
                    c + 1
                } else {
                    match wrap {
                        Wrap::Clamp => DESK_COUNT as nat,
                        Wrap::Cycle => 1,
                    }
                },
                Direction::Prev => if c > 1 {
                    (c - 1) as nat
                } else {
                    match wrap {
                        Wrap::Clamp => 1,
                        Wrap::Cycle => DESK_COUNT as nat,
                    }
                },
            };
            match request_decision(current, last, Request::Step { direction, wrap }) {
                DecisionView::Switch(x) => x.value() == t && t != c,
                DecisionView::Reply(reply) => t == c && reply == "ok (already there)"@,
                DecisionView::Move { .. } => false,
            }
        }),
{
    let c = current.value();
    let t = match direction {
        Direction::Next => next_number(c, wrap),
        Direction::Prev => prev_number(c, wrap),
    };
    lemma_from_value(t);
    if t == c {
        lemma_from_value(c);
        lemma_value_injective(current, DeskId::from_value(t));
    }
}

/// A move request decides a move of the active window to the requested
/// desk in the requested mode: `movetodesk` follows the window,
/// `movetodesksilent` stays. The same holds of the request's line.
pub proof fn law_moves_keep_their_mode(
    current: DeskId,
    last: Option<DeskId>,
    desk: DeskId,
    mode: MoveMode,
)
    requires
        desk.wf(),
    ensures
        ({
            let r = Request::Move { desk, mode };
            &&& request_decision(current, last, r) == DecisionView::Move { desk, mode }
            &&& line_decision(current, last, request_line(r)) == DecisionView::Move { desk, mode }
        }),
{
    law_request_round_trips(Request::Move { desk, mode });
}

/// Pinning makes one rule per desk per monitor: the rule for desk `d` on
/// monitor slot `m` pins `d`'s workspace on that slot to the monitor in
/// that slot, and (within the mapped range of monitors) every rule pins a
/// desk workspace to the monitor of the slot its id encodes.
pub proof fn law_pins_follow_the_mapping(ms: Seq<MonitorView>)
    ensures
        pin_plan(ms).len() == DESK_COUNT * ms.len(),
        forall|d: int, m: int|
            1 <= d <= DESK_COUNT && 0 <= m < ms.len() ==> pin_plan(ms).contains(
                CommandView::PinWorkspace { workspace: workspace_of(d, m), monitor: ms[m].name },
            ),
        ms.len() <= MAX_MONITORS ==> forall|k: int|
            0 <= k < pin_plan(ms).len() ==> match #[trigger] pin_plan(ms)[k] {
                CommandView::PinWorkspace { workspace, monitor } => (monitor_slot_of(workspace) matches Some(
                    s,
                ) && s < ms.len() && monitor == ms[s as int].name && desk_number_of(workspace) is Some),
                _ => false,
            },
{
    let plan = pin_plan(ms);
    assert forall|d: int, m: int|
        1 <= d <= DESK_COUNT && 0 <= m < ms.len() implies plan.contains(
        CommandView::PinWorkspace { workspace: workspace_of(d, m), monitor: ms[m].name },
    ) by {
        let k = 10 * m + d - 1;
        assert(k % 10 == d - 1 && k / 10 == m) by (nonlinear_arith)
            requires
                k == 10 * m + d - 1,
                1 <= d <= 10,
                0 <= m,
        ;
        assert(0 <= k < ms.len() * 10) by (nonlinear_arith)
            requires
                k == 10 * m + d - 1,
                1 <= d <= 10,
                0 <= m < ms.len(),
        ;
        assert(plan[k] == CommandView::PinWorkspace {
            workspace: workspace_of(d, m),
            monitor: ms[m].name,
        });
    }
    if ms.len() <= MAX_MONITORS {
        assert forall|k: int| 0 <= k < plan.len() implies match #[trigger] plan[k] {
            CommandView::PinWorkspace { workspace, monitor } => (monitor_slot_of(workspace) matches Some(
                s,
            ) && s < ms.len() && monitor == ms[s as int].name && desk_number_of(workspace) is Some),
            _ => false,
        } by {
            let d = k % 10 + 1;
            let m = k / 10;
            assert(0 <= m < ms.len() && 1 <= d <= 10) by (nonlinear_arith)
                requires
                    0 <= k < ms.len() * 10,
                    d == k % 10 + 1,
                    m == k / 10,
            ;
            law_mapping_round_trips(d as nat, m as nat);
        }
    }
}

/// A workspace event is taken for a desk switch made behind the daemon's
/// back only in a settled topology: the monitors present, name by name in
/// slot order, are exactly those of the last weld; then every monitor must
/// show one desk other than the current one, and that desk is recorded.
/// Any other event records nothing.
pub proof fn law_tracking_needs_the_welded_topology(
    welded: Seq<Seq<char>>,
    current: DeskId,
    ms: Seq<MonitorView>,
    d: nat,
)
    ensures
        tracked_switch(welded, current, ms) matches Some(t) ==> {
            &&& ms.len() == welded.len()
            &&& forall|i: int| 0 <= i < ms.len() ==> #[trigger] ms[i].name == welded[i]
            &&& ms.len() > 0
            &&& t != current.value()
            &&& forall|i: int|
                0 <= i < ms.len() ==> #[trigger] ms[i].active_workspace == workspace_of(t as int, i)
        },
        ms.len() != welded.len() ==> tracked_switch(welded, current, ms) is None,
        ({
            &&& ms.len() == welded.len()
            &&& forall|i: int| 0 <= i < ms.len() ==> #[trigger] ms[i].name == welded[i]
            &&& ms.len() > 0
            &&& 1 <= d <= DESK_COUNT
            &&& d != current.value()
            &&& forall|i: int|
                0 <= i < ms.len() ==> #[trigger] ms[i].active_workspace == workspace_of(d as int, i)
        }) ==> tracked_switch(welded, current, ms) == Some(d),
{
    let names = names_of(ms);
    if tracked_switch(welded, current, ms) is Some {
        assert(names == welded);
        assert forall|i: int| 0 <= i < ms.len() implies #[trigger] ms[i].name == welded[i] by {
            assert(names[i] == ms[i].name);
        }
    }
    if ms.len() != welded.len() {
        assert(names.len() != welded.len());
    }
    if ms.len() == welded.len() && (forall|i: int| 0 <= i < ms.len() ==> #[trigger] ms[i].name
        == welded[i]) && ms.len() > 0 && 1 <= d <= DESK_COUNT && d != current.value() && (forall|
        i: int,
    | 0 <= i < ms.len() ==> #[trigger] ms[i].active_workspace == workspace_of(d as int, i)) {
        assert(names =~= welded);
        law_mapping_round_trips(d, 0);
        assert(ms[0].active_workspace == workspace_of(d as int, 0));
        assert(shown_everywhere(ms) == Some(d));
    }
}

/// Whether a command moving workspace `workspace` to monitor `monitor`
/// is a repatriation the workspaces call for: the workspace is a desk
/// workspace, the monitor is the one in the slot its id encodes, and some
/// listed workspace with that id sits elsewhere.
spec fn repatriation_called_for(
    workspace: int,
    monitor: Seq<char>,
    wss: Seq<WorkspaceView>,
    ms: Seq<MonitorView>,
) -> bool {
    &&& desk_number_of(workspace) is Some
    &&& monitor_slot_of(workspace) matches Some(s) && s < ms.len() && monitor == ms[s as int].name
    &&& exists|i: int| 0 <= i < wss.len() && wss[i].id == workspace && wss[i].monitor != Some(monitor)
}

/// Whether workspace `w` is a desk workspace whose owning monitor is
/// present but which sits on another monitor.
spec fn misplaced(w: WorkspaceView, ms: Seq<MonitorView>) -> bool {
    &&& desk_number_of(w.id) is Some
    &&& monitor_slot_of(w.id) matches Some(s) && s < ms.len() && w.monitor != Some(ms[s as int].name)
}

proof fn lemma_evacuate_moves_windows(mem: Seq<EntryView>, home: int, target: int, cs: Seq<ClientView>)
    ensures
        forall|k: int|
            0 <= k < evacuate(mem, home, target, cs).1.len() ==> #[trigger] evacuate(
                mem,
                home,
                target,
                cs,
            ).1[k] is MoveWindowSilent,
    decreases cs.len(),
{
    if cs.len() > 0 {
        lemma_evacuate_moves_windows(mem, home, target, cs.drop_last());
    }
}

proof fn lemma_switches_focus(d: nat, ms: Seq<MonitorView>, f: bool)
    ensures
        forall|k: int|
            0 <= k < switches_where(d, ms, f).len() ==> #[trigger] switches_where(d, ms, f)[k] is FocusWorkspace,
    decreases ms.len(),
{
    if ms.len() > 0 {
        lemma_switches_focus(d, ms.drop_last(), f);
    }
}

proof fn lemma_evacuation_repatriates(
    mem: Seq<EntryView>,
    wss: Seq<WorkspaceView>,
    ms: Seq<MonitorView>,
    cs: Seq<ClientView>,
)
    ensures
        forall|k: int|
            0 <= k < evacuation(mem, wss, ms, cs).1.len() ==> match #[trigger] evacuation(
                mem,
                wss,
                ms,
                cs,
            ).1[k] {
                CommandView::MoveWorkspaceToMonitor { workspace, monitor } =>
                    repatriation_called_for(workspace, monitor, wss, ms),
                _ => true,
            },
        forall|i: int|
            0 <= i < wss.len() && #[trigger] misplaced(wss[i], ms) ==> evacuation(
                mem,
                wss,
                ms,
                cs,
            ).1.contains(
                CommandView::MoveWorkspaceToMonitor {
                    workspace: wss[i].id,
                    monitor: ms[monitor_slot_of(wss[i].id)->0 as int].name,
                },
            ),
    decreases wss.len(),
{
    if wss.len() > 0 {
        let t = wss.drop_last();
        let w = wss.last();
        lemma_evacuation_repatriates(mem, t, ms, cs);
        let prior = evacuation(mem, t, ms, cs);
        let step = workspace_plan(prior.0, w, ms, cs);
        let e = evacuation(mem, wss, ms, cs).1;
        assert(e == prior.1 + step.1);
        match (desk_number_of(w.id), monitor_slot_of(w.id)) {
            (Some(dn), Some(slot)) => {
                if slot >= ms.len() {
                    lemma_evacuate_moves_windows(prior.0, w.id, workspace_of(dn as int, 0), cs);
                }
            },
            _ => {},
        }
        assert forall|k: int| 0 <= k < e.len() implies match #[trigger] e[k] {
            CommandView::MoveWorkspaceToMonitor { workspace, monitor } =>
                repatriation_called_for(workspace, monitor, wss, ms),
            _ => true,
        } by {
            if k < prior.1.len() {
                assert(e[k] == prior.1[k]);
                match prior.1[k] {
                    CommandView::MoveWorkspaceToMonitor { workspace, monitor } => {
                        assert(repatriation_called_for(workspace, monitor, t, ms));
                        let i = choose|i: int|
                            0 <= i < t.len() && t[i].id == workspace && t[i].monitor != Some(
                                monitor,
                            );
                        assert(wss[i] == t[i]);
                    },
                    _ => {},
                }
            } else {
                assert(e[k] == step.1[k - prior.1.len()]);
                match e[k] {
                    CommandView::MoveWorkspaceToMonitor { workspace, monitor } => {
                        assert(wss[wss.len() - 1] == w);
                    },
                    _ => {},
                }
            }
        }
        assert forall|i: int| 0 <= i < wss.len() && #[trigger] misplaced(wss[i], ms) implies e.contains(
            CommandView::MoveWorkspaceToMonitor {
                workspace: wss[i].id,
                monitor: ms[monitor_slot_of(wss[i].id)->0 as int].name,
            },
        ) by {
            let c = CommandView::MoveWorkspaceToMonitor {
                workspace: wss[i].id,
                monitor: ms[monitor_slot_of(wss[i].id)->0 as int].name,
            };
            if i < wss.len() - 1 {
                assert(t[i] == wss[i]);
                assert(misplaced(t[i], ms));
                let k = choose|k: int| 0 <= k < prior.1.len() && prior.1[k] == c;
                assert(e[k] == c);
            } else {
                assert(wss[i] == w);
                assert(step.1 == seq![c]);
                assert(e[prior.1.len() as int] == c);
            }
        }
    }
}

/// A re-weld moves workspaces between monitors only to repatriate them: it
/// moves a desk workspace to the monitor in the slot its id encodes, and
/// only when that workspace sits elsewhere; every desk workspace on the
/// wrong monitor whose owner is present is moved to that owner; and a desk
/// workspace already on its owner is not moved at all. (The restores and
/// the switch that follow move windows and focus, never workspaces.)
pub proof fn law_reweld_repatriates_to_owners(
    mem: Seq<EntryView>,
    wss: Seq<WorkspaceView>,
    ms: Seq<MonitorView>,
    cs: Seq<ClientView>,
    d: nat,
)
    ensures
        ({
            let evac = evacuation(mem, wss, ms, cs);
            let plan = evac.1 + restore_plan(evac.0, ms.len(), cs) + switch_plan(d, ms);
            &&& forall|k: int|
                0 <= k < plan.len() ==> match #[trigger] plan[k] {
                    CommandView::MoveWorkspaceToMonitor { workspace, monitor } => {
                        &&& desk_number_of(workspace) is Some
                        &&& monitor_slot_of(workspace) matches Some(s) && s < ms.len() && monitor
                            == ms[s as int].name
                        &&& exists|i: int|
                            0 <= i < wss.len() && wss[i].id == workspace && wss[i].monitor != Some(
                                monitor,
                            )
                    },
                    _ => true,
                }
            &&& forall|i: int|
                0 <= i < wss.len() && desk_number_of(#[trigger] wss[i].id) is Some && (monitor_slot_of(
                    wss[i].id,
                ) matches Some(s) && s < ms.len() && wss[i].monitor != Some(ms[s as int].name))
                    ==> plan.contains(
                    CommandView::MoveWorkspaceToMonitor {
                        workspace: wss[i].id,
                        monitor: ms[monitor_slot_of(wss[i].id)->0 as int].name,
                    },
                )
            &&& forall|i: int, k: int|
                0 <= i < wss.len() && 0 <= k < plan.len() && desk_number_of(#[trigger] wss[i].id)
                    is Some && (monitor_slot_of(wss[i].id) matches Some(s) && s < ms.len() && (forall|
                    j: int,
                | 0 <= j < wss.len() && wss[j].id == wss[i].id ==> wss[j].monitor == Some(
                    ms[s as int].name,
                ))) && #[trigger] plan[k] is MoveWorkspaceToMonitor ==> plan[k]->MoveWorkspaceToMonitor_workspace
                    != wss[i].id
        }),
{
    let evac = evacuation(mem, wss, ms, cs);
    let r = restore_plan(evac.0, ms.len(), cs);
    let sw = switch_plan(d, ms);
    let plan = evac.1 + r + sw;
    lemma_evacuation_repatriates(mem, wss, ms, cs);
    lemma_switches_focus(d, ms, false);
    lemma_switches_focus(d, ms, true);
    let u = switches_where(d, ms, false);
    assert forall|k: int| 0 <= k < plan.len() implies match #[trigger] plan[k] {
        CommandView::MoveWorkspaceToMonitor { workspace, monitor } => {
            &&& desk_number_of(workspace) is Some
            &&& monitor_slot_of(workspace) matches Some(s) && s < ms.len() && monitor
                == ms[s as int].name
            &&& exists|i: int|
                0 <= i < wss.len() && wss[i].id == workspace && wss[i].monitor != Some(monitor)
        },
        _ => true,
    } by {
        if k < evac.1.len() {
            assert(plan[k] == evac.1[k]);
        } else if k < evac.1.len() + r.len() {
            assert(plan[k] == r[k - evac.1.len()]);
        } else {
            let j = k - evac.1.len() - r.len();
            assert(plan[k] == sw[j]);
            if j < u.len() {
                assert(sw[j] == u[j]);
            } else {
                assert(sw[j] == switches_where(d, ms, true)[j - u.len()]);
            }
        }
    }
    assert forall|i: int|
        0 <= i < wss.len() && desk_number_of(#[trigger] wss[i].id) is Some && (monitor_slot_of(
            wss[i].id,
        ) matches Some(s) && s < ms.len() && wss[i].monitor != Some(ms[s as int].name)) implies plan.contains(
        CommandView::MoveWorkspaceToMonitor {
            workspace: wss[i].id,
            monitor: ms[monitor_slot_of(wss[i].id)->0 as int].name,
        },
    ) by {
        assert(misplaced(wss[i], ms));
        let c = CommandView::MoveWorkspaceToMonitor {
            workspace: wss[i].id,
            monitor: ms[monitor_slot_of(wss[i].id)->0 as int].name,
        };
        let k = choose|k: int| 0 <= k < evac.1.len() && evac.1[k] == c;
        assert(plan[k] == c);
    }
    assert forall|i: int, k: int|
        0 <= i < wss.len() && 0 <= k < plan.len() && desk_number_of(#[trigger] wss[i].id) is Some
            && (monitor_slot_of(wss[i].id) matches Some(s) && s < ms.len() && (forall|j: int|
            0 <= j < wss.len() && wss[j].id == wss[i].id ==> wss[j].monitor == Some(
                ms[s as int].name,
            ))) && #[trigger] plan[k] is MoveWorkspaceToMonitor implies plan[k]->MoveWorkspaceToMonitor_workspace
        != wss[i].id by {
        match plan[k] {
            CommandView::MoveWorkspaceToMonitor { workspace, monitor } => {
                if workspace == wss[i].id {
                    let j = choose|j: int|
                        0 <= j < wss.len() && wss[j].id == workspace && wss[j].monitor != Some(
                            monitor,
                        );
                    assert(wss[j].monitor == Some(ms[monitor_slot_of(wss[i].id)->0 as int].name));
                }
            },
            _ => {},
        }
    }
}

} // verus!
