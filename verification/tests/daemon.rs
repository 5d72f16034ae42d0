use hyprdesk::daemon::{
    control_socket_path, desk_shown_everywhere, error_reply, move_commands, no_window_reply,
    occupied_desks,
    pinning_commands, reaction_to, render_status, restore_commands, switch_commands, Daemon,
    Decision, Reaction,
};
use hyprdesk::error::Error;
use hyprdesk::hypr::{self, Command, Event};
use hyprdesk::memory::WindowMemory;
use hyprdesk::model::DeskId;
use hyprdesk::protocol::{MoveMode, StatusFormat};

fn client(address: &str, workspace: i64) -> hypr::Client {
    hypr::Client {
        address: address.to_string(),
        workspace: hypr::WorkspaceRef { id: workspace },
    }
}

fn displaced(entries: &[(&str, i64)]) -> WindowMemory {
    let mut memory = WindowMemory::new();
    for (address, home) in entries {
        memory.insert((*address).to_string(), *home);
    }
    memory
}

fn monitor(id: i64, name: &str, focused: bool, active_workspace: i64) -> hypr::Monitor {
    hypr::Monitor {
        id,
        name: name.to_string(),
        focused,
        disabled: false,
        active_workspace: hypr::WorkspaceRef {
            id: active_workspace,
        },
    }
}

fn desk(id: u8) -> DeskId {
    DeskId::new(id).expect("valid desk id in test")
}

fn move_silent(address: &str, workspace: i64) -> Command {
    Command::MoveWindowSilent {
        address: address.to_string(),
        workspace,
    }
}

#[test]
fn status_replies_fit_on_one_line_in_both_formats() {
    // One reply line per request is the control-protocol invariant;
    // a second line would be left unread in the client's socket.
    for format in [StatusFormat::Text, StatusFormat::Json] {
        for last in [None, Some(desk(1))] {
            let reply = render_status(desk(5), last, format);
            assert!(!reply.contains('\n'), "multi-line reply: {reply}");
        }
    }
}

#[test]
fn status_reports_the_current_and_last_desk() {
    assert_eq!(
        render_status(desk(5), Some(desk(2)), StatusFormat::Text),
        "desk: 5, last: 2"
    );
    assert_eq!(
        render_status(desk(5), None, StatusFormat::Text),
        "desk: 5, last: none"
    );
    assert_eq!(
        render_status(desk(5), Some(desk(2)), StatusFormat::Json),
        r#"{"desk":5,"last":2}"#
    );
    assert_eq!(
        render_status(desk(5), None, StatusFormat::Json),
        r#"{"desk":5,"last":null}"#
    );
}

#[test]
fn window_waits_while_its_home_monitor_is_missing() {
    // Home ws 12 lives on monitor slot 1; only one monitor is present.
    let mut memory = displaced(&[("0xa", 12)]);
    let commands = restore_commands(&mut memory, 1, &[client("0xa", 2)]);
    assert!(commands.is_empty());
    assert_eq!(memory, displaced(&[("0xa", 12)]));
}

#[test]
fn window_goes_home_when_its_monitor_returns() {
    // Evacuation left it on ws 2 (desk 2's primary); slot 1 is back.
    let mut memory = displaced(&[("0xa", 12)]);
    let commands = restore_commands(&mut memory, 2, &[client("0xa", 2)]);
    assert_eq!(commands, vec![move_silent("0xa", 12)]);
    assert!(memory.is_empty());
}

#[test]
fn closed_or_replaced_windows_are_left_alone_and_forgotten() {
    // 0xa was re-placed onto another desk while displaced; 0xb closed.
    let mut memory = displaced(&[("0xa", 12), ("0xb", 15)]);
    let commands = restore_commands(&mut memory, 2, &[client("0xa", 7)]);
    assert!(commands.is_empty());
    assert!(memory.is_empty());
}

#[test]
fn follow_move_pins_the_window_and_ends_focused_on_it() {
    // Focused on the external (slot 1): the window lands on desk 5's
    // external workspace; the switch runs the focused monitor last;
    // focus is pinned back to the moved window.
    let monitors = [monitor(0, "eDP-1", false, 1), monitor(1, "DP-2", true, 11)];
    let commands = move_commands(desk(5), MoveMode::Follow, &monitors, "0xa");
    assert_eq!(
        commands,
        vec![
            move_silent("0xa", 15),
            Command::FocusWorkspace(5),
            Command::FocusWorkspace(15),
            Command::FocusWindow {
                address: "0xa".to_string()
            },
        ]
    );
}

#[test]
fn silent_move_pins_the_window_and_switches_nothing() {
    let monitors = [monitor(0, "eDP-1", true, 1), monitor(1, "DP-2", false, 11)];
    let commands = move_commands(desk(5), MoveMode::Silent, &monitors, "0xa");
    assert_eq!(commands, vec![move_silent("0xa", 5)]);
}

#[test]
fn single_monitor_follow_move_still_switches_and_refocuses() {
    let monitors = [monitor(0, "eDP-1", true, 1)];
    let commands = move_commands(desk(3), MoveMode::Follow, &monitors, "0xb");
    assert_eq!(
        commands,
        vec![
            move_silent("0xb", 3),
            Command::FocusWorkspace(3),
            Command::FocusWindow {
                address: "0xb".to_string()
            },
        ]
    );
}

#[test]
fn a_desk_shown_on_every_monitor_is_recognized() {
    let monitors = [monitor(0, "eDP-1", true, 2), monitor(1, "DP-2", false, 12)];
    assert_eq!(desk_shown_everywhere(&monitors), Some(desk(2)));
    assert_eq!(
        desk_shown_everywhere(&[monitor(0, "eDP-1", true, 5)]),
        Some(desk(5))
    );
}

#[test]
fn mixed_desk_states_are_not_a_switch() {
    // Mid-hotplug juggling: one monitor moved, the other not yet.
    let mixed = [monitor(0, "eDP-1", true, 8), monitor(1, "DP-2", false, 12)];
    assert_eq!(desk_shown_everywhere(&mixed), None);
    // A workspace shown on the wrong slot is not a desk state either.
    let misplaced = [monitor(0, "eDP-1", true, 12)];
    assert_eq!(desk_shown_everywhere(&misplaced), None);
    // Special workspaces and an empty monitor list resolve to nothing.
    let special = [monitor(0, "eDP-1", true, -98)];
    assert_eq!(desk_shown_everywhere(&special), None);
    assert_eq!(desk_shown_everywhere(&[]), None);
}

#[test]
fn restores_are_deterministic_and_batched_together() {
    let mut memory = displaced(&[("0xb", 15), ("0xa", 12)]);
    let commands = restore_commands(&mut memory, 2, &[client("0xa", 2), client("0xb", 5)]);
    assert_eq!(
        commands,
        vec![move_silent("0xa", 12), move_silent("0xb", 15)]
    );
    assert!(memory.is_empty());
}

// ---------------------------------------------------------------------
// Further cases
// ---------------------------------------------------------------------

fn workspace(id: i64, monitor: Option<&str>, windows: u32) -> hypr::Workspace {
    hypr::Workspace {
        id,
        monitor: monitor.map(|m| m.to_string()),
        windows,
    }
}

fn reply_of(decision: Decision) -> String {
    match decision {
        Decision::Reply(reply) => reply,
        other => panic!("expected a reply, got {other:?}"),
    }
}

#[test]
fn switch_runs_the_focused_monitor_last() {
    let monitors = [
        monitor(0, "eDP-1", false, 1),
        monitor(1, "DP-2", true, 11),
        monitor(2, "HDMI-A-1", false, 21),
    ];
    assert_eq!(
        switch_commands(desk(4), &monitors),
        vec![
            Command::FocusWorkspace(4),
            Command::FocusWorkspace(24),
            Command::FocusWorkspace(14),
        ]
    );
    assert!(switch_commands(desk(4), &[]).is_empty());
}

#[test]
fn every_monitor_is_switched_even_when_several_claim_focus() {
    let monitors = [
        monitor(0, "eDP-1", true, 1),
        monitor(1, "DP-2", false, 11),
        monitor(2, "HDMI-A-1", true, 21),
    ];
    assert_eq!(
        switch_commands(desk(2), &monitors),
        vec![
            Command::FocusWorkspace(12),
            Command::FocusWorkspace(2),
            Command::FocusWorkspace(22),
        ]
    );
    let unfocused = [monitor(0, "eDP-1", false, 1), monitor(1, "DP-2", false, 11)];
    assert_eq!(
        switch_commands(desk(3), &unfocused),
        vec![Command::FocusWorkspace(3), Command::FocusWorkspace(13)]
    );
}

#[test]
fn error_replies_escape_line_breaks() {
    assert_eq!(
        error_reply(&Error::Rejected("bad\nworse\r\n".to_string())),
        "err: hyprland rejected a command: bad\\nworse\\r\\n"
    );
    assert_eq!(
        error_reply(&Error::Io("broken pipe".to_string())),
        "err: socket i/o failed: broken pipe"
    );
    let daemon = Daemon::new(Some(desk(1)));
    assert_eq!(reply_of(daemon.decide("bogus\nline")), "err: invalid request: bogus\\nline");
}

#[test]
fn pinning_covers_every_desk_on_every_monitor() {
    let monitors = [monitor(0, "eDP-1", true, 1), monitor(1, "DP-2", false, 11)];
    let commands = pinning_commands(&monitors);
    assert_eq!(commands.len(), 20);
    assert_eq!(
        commands[0],
        Command::PinWorkspace { workspace: 1, monitor: "eDP-1".to_string() }
    );
    assert_eq!(
        commands[19],
        Command::PinWorkspace { workspace: 20, monitor: "DP-2".to_string() }
    );
    assert_eq!(
        commands[13],
        Command::PinWorkspace { workspace: 14, monitor: "DP-2".to_string() }
    );
}

#[test]
fn occupied_desks_aggregate_across_monitors() {
    let workspaces = [
        workspace(12, Some("DP-2"), 3),
        workspace(2, Some("eDP-1"), 1),
        workspace(5, Some("eDP-1"), 0),
        workspace(-98, None, 4),
        workspace(81, None, 2),
        workspace(30, Some("HDMI-A-1"), 1),
    ];
    let occupied: Vec<u8> = occupied_desks(&workspaces).iter().map(|d| d.id()).collect();
    assert_eq!(occupied, vec![2, 10]);
}

#[test]
fn requests_become_decisions() {
    let mut daemon = Daemon::new(Some(desk(3)));
    assert_eq!(reply_of(daemon.decide("vdesk 3")), "ok (already there)");
    assert!(matches!(daemon.decide("vdesk 4"), Decision::Switch(d) if d == desk(4)));
    assert_eq!(reply_of(daemon.decide("lastdesk")), "ok (no last desk yet)");
    assert_eq!(reply_of(daemon.decide("status")), "desk: 3, last: none");
    assert_eq!(reply_of(daemon.decide("subscribe")), "err: invalid request: subscribe");
    assert_eq!(reply_of(daemon.decide("vdesk 0")), "err: invalid request: vdesk 0");
    assert!(matches!(
        daemon.decide("movetodesksilent 2"),
        Decision::Move { desk: d, mode: MoveMode::Silent } if d == desk(2)
    ));
    assert_eq!(daemon.commit_switch(desk(4)), "ok");
    assert_eq!(reply_of(daemon.decide("status json")), r#"{"desk":4,"last":3}"#);
    assert!(matches!(daemon.decide("lastdesk"), Decision::Switch(d) if d == desk(3)));
    assert!(matches!(daemon.decide("prevdesk"), Decision::Switch(d) if d == desk(3)));
    assert!(matches!(daemon.decide("nextdesk"), Decision::Switch(d) if d == desk(5)));
    let (reply, switched) = daemon.commit_move(desk(4), MoveMode::Follow);
    assert_eq!((reply.as_str(), switched), ("ok", false));
    let (_, switched) = daemon.commit_move(desk(9), MoveMode::Silent);
    assert!(!switched);
    let (_, switched) = daemon.commit_move(desk(9), MoveMode::Follow);
    assert!(switched);
    assert_eq!(daemon.current, desk(9));
    assert_eq!(daemon.last, Some(desk(4)));
}

#[test]
fn a_fresh_daemon_starts_on_desk_one_without_inference() {
    let daemon = Daemon::new(None);
    assert_eq!(daemon.current, desk(1));
    assert_eq!(daemon.last, None);
    assert!(daemon.displaced.is_empty());
}

#[test]
fn workspace_echoes_are_tracked_only_in_a_settled_topology() {
    let monitors = [monitor(0, "eDP-1", true, 2), monitor(1, "DP-2", false, 12)];
    let mut daemon = Daemon::new(Some(desk(8)));
    // Nothing welded yet: the topology does not match.
    assert!(!daemon.observe_workspaces(&monitors));
    assert_eq!(daemon.current, desk(8));
    daemon.finish_reweld(&monitors);
    assert!(daemon.observe_workspaces(&monitors));
    assert_eq!(daemon.current, desk(2));
    assert_eq!(daemon.last, Some(desk(8)));
    // Echo of the desk already current: no switch.
    assert!(!daemon.observe_workspaces(&monitors));
    // Juggling: one monitor on another desk.
    let mixed = [monitor(0, "eDP-1", true, 3), monitor(1, "DP-2", false, 12)];
    assert!(!daemon.observe_workspaces(&mixed));
    assert_eq!(daemon.current, desk(2));
}

#[test]
fn reweld_evacuates_stranded_windows_and_remembers_them() {
    // Undocked: only the laptop panel remains; desk 2's external
    // workspace 12 still holds a window.
    let monitors = [monitor(0, "eDP-1", true, 2)];
    let workspaces = [
        workspace(2, Some("eDP-1"), 1),
        workspace(12, Some("DP-2"), 1),
        workspace(3, Some("DP-2"), 1),
    ];
    let clients = [client("0xa", 12), client("0xb", 2)];
    let mut daemon = Daemon::new(Some(desk(2)));
    let commands = daemon.plan_reweld(&monitors, &workspaces, &clients);
    assert_eq!(
        commands,
        vec![
            move_silent("0xa", 2),
            Command::MoveWorkspaceToMonitor { workspace: 3, monitor: "eDP-1".to_string() },
            Command::FocusWorkspace(2),
        ]
    );
    assert_eq!(daemon.displaced, displaced(&[("0xa", 12)]));
    // Docked again: the window, still on workspace 2, goes home.
    let docked = [monitor(0, "eDP-1", true, 2), monitor(1, "DP-2", false, 12)];
    let clients = [client("0xa", 2), client("0xb", 2)];
    let workspaces = [workspace(2, Some("eDP-1"), 2)];
    let commands = daemon.plan_reweld(&docked, &workspaces, &clients);
    assert_eq!(
        commands,
        vec![move_silent("0xa", 12), Command::FocusWorkspace(12), Command::FocusWorkspace(2)]
    );
    assert!(daemon.displaced.is_empty());
}

#[test]
fn waybar_lines_are_streamed_only_when_changed() {
    let mut daemon = Daemon::new(None);
    assert_eq!(daemon.waybar_update("a".to_string()), Some("a".to_string()));
    assert_eq!(daemon.waybar_update("a".to_string()), None);
    assert_eq!(daemon.waybar_update("b".to_string()), Some("b".to_string()));
}

#[test]
fn events_map_to_reactions() {
    assert_eq!(reaction_to(Event::MonitorAdded), Reaction::Reweld);
    assert_eq!(reaction_to(Event::MonitorRemoved), Reaction::Reweld);
    assert_eq!(reaction_to(Event::ConfigReloaded), Reaction::Repin);
    assert_eq!(reaction_to(Event::WorkspaceChanged), Reaction::TrackDesk);
    assert_eq!(reaction_to(Event::WindowsChanged), Reaction::RefreshBar);
    assert_eq!(reaction_to(Event::Other), Reaction::Nothing);
}

#[test]
fn the_control_socket_is_namespaced_by_instance() {
    assert_eq!(
        control_socket_path("/run/user/1000", "sig_123"),
        "/run/user/1000/hyprdesk/sig_123.sock"
    );
}

#[test]
fn window_memory_keeps_addresses_in_order() {
    let memory = displaced(&[("0xc", 13), ("0xa", 12), ("0xb", 15), ("0xa", 14)]);
    assert_eq!(memory.len(), 3);
    assert_eq!(memory.get("0xa"), Some(14));
    assert_eq!(memory.get("0xd"), None);
    let (address, home) = memory.entry(0);
    assert_eq!((address.as_str(), home), ("0xa", 14));
    let (address, _) = memory.entry(2);
    assert_eq!(address, "0xc");
}

#[test]
fn every_decided_reply_is_one_line() {
    let mut daemon = Daemon::new(Some(desk(2)));
    daemon.commit_switch(desk(6));
    for line in [
        "vdesk 6", "lastdesk", "status", "status json", "subscribe", "waybar", "bogus words here",
        "", "vdesk 99",
    ] {
        if let Decision::Reply(reply) = daemon.decide(line) {
            assert!(!reply.contains('\n'), "reply: {reply:?}");
        }
    }
}

#[test]
fn special_workspaces_are_left_alone_by_a_reweld() {
    let monitors = [monitor(0, "eDP-1", true, 1)];
    let workspaces = [workspace(-98, None, 2), workspace(95, Some("DP-9"), 1)];
    let clients = [client("0xa", -98), client("0xb", 95)];
    let mut daemon = Daemon::new(Some(desk(1)));
    let commands = daemon.plan_reweld(&monitors, &workspaces, &clients);
    assert_eq!(commands, vec![Command::FocusWorkspace(1)]);
    assert!(daemon.displaced.is_empty());
}

#[test]
fn replies_are_marked_as_errors_exactly_when_a_request_fails() {
    let daemon = Daemon::new(Some(desk(3)));
    let reply = reply_of(daemon.decide("bogus"));
    assert_eq!(reply, "err: invalid request: bogus");
    assert_eq!(daemon.current, desk(3));
    assert_eq!(daemon.last, None);
    assert!(reply_of(daemon.decide("waybar")).starts_with("err: "));
    for line in ["vdesk 3", "lastdesk", "status", "status json"] {
        let reply = reply_of(daemon.decide(line));
        assert!(!reply.starts_with("err: "), "reply: {reply:?}");
    }
    assert!(error_reply(&Error::BadRequest("x".to_string())).starts_with("err: "));
    assert!(!no_window_reply().starts_with("err: "));
}

#[test]
fn window_memory_reports_its_addresses_in_ascending_order() {
    let memory = displaced(&[("0xc", 3), ("0xa", 1), ("0xb", 2)]);
    memory.addresses_ascend();
    let addresses: Vec<&str> = (0..memory.len()).map(|i| memory.entry(i).0.as_str()).collect();
    assert_eq!(addresses, vec!["0xa", "0xb", "0xc"]);
}
