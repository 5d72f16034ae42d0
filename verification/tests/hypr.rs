use hyprdesk::error::Error;
use hyprdesk::hypr::{
    eval_reply, eval_request, join_path, lua_quote, monitors, parse_event, socket_path, Command,
    Event, Monitor, WorkspaceRef,
};

#[test]
fn commands_render_to_the_verified_lua_forms() {
    assert_eq!(
        Command::FocusWorkspace(15).to_lua(),
        "hl.dispatch(hl.dsp.focus({ workspace = \"15\" }))"
    );
    assert_eq!(
        Command::FocusWindow {
            address: "0xa".to_string()
        }
        .to_lua(),
        "hl.dispatch(hl.dsp.focus({ window = \"address:0xa\" }))"
    );
    assert_eq!(
        Command::MoveWindowSilent {
            address: "0xa".to_string(),
            workspace: 12
        }
        .to_lua(),
        "hl.dispatch(hl.dsp.window.move({ window = \"address:0xa\", \
         workspace = \"12\", follow = false }))"
    );
    assert_eq!(
        Command::MoveWorkspaceToMonitor {
            workspace: 12,
            monitor: "HDMI-A-1".to_string()
        }
        .to_lua(),
        "hl.dispatch(hl.dsp.workspace.move({ workspace = \"12\", monitor = \"HDMI-A-1\" }))"
    );
    assert_eq!(
        Command::PinWorkspace {
            workspace: 21,
            monitor: "eDP-1".to_string()
        }
        .to_lua(),
        "hl.workspace_rule({ workspace = 21, monitor = \"eDP-1\" })"
    );
}

#[test]
fn lua_quote_escapes_metacharacters() {
    assert_eq!(lua_quote("plain"), "\"plain\"");
    assert_eq!(lua_quote("a\"b\\c"), "\"a\\\"b\\\\c\"");
    assert_eq!(lua_quote("a\nb"), "\"a\\nb\"");
}

// ---------------------------------------------------------------------
// Further cases
// ---------------------------------------------------------------------

fn monitor(id: i64, name: &str, focused: bool, disabled: bool) -> Monitor {
    Monitor {
        id,
        name: name.to_string(),
        focused,
        disabled,
        active_workspace: WorkspaceRef { id: 1 },
    }
}

#[test]
fn negative_and_large_workspace_ids_render_in_decimal() {
    assert_eq!(
        Command::FocusWorkspace(-98).to_lua(),
        "hl.dispatch(hl.dsp.focus({ workspace = \"-98\" }))"
    );
    assert_eq!(
        Command::FocusWorkspace(i64::MIN).to_lua(),
        "hl.dispatch(hl.dsp.focus({ workspace = \"-9223372036854775808\" }))"
    );
    assert_eq!(
        Command::PinWorkspace { workspace: 0, monitor: "x\"y".to_string() }.to_lua(),
        "hl.workspace_rule({ workspace = 0, monitor = \"x\\\"y\" })"
    );
}

#[test]
fn eval_batches_statements_into_one_chunk() {
    assert_eq!(eval_request(&[]), None);
    let commands = [
        Command::FocusWorkspace(1),
        Command::FocusWindow { address: "0xb".to_string() },
    ];
    assert_eq!(
        eval_request(&commands),
        Some(
            "eval hl.dispatch(hl.dsp.focus({ workspace = \"1\" })); \
             hl.dispatch(hl.dsp.focus({ window = \"address:0xb\" }))"
                .to_string()
        )
    );
}

#[test]
fn eval_replies_other_than_ok_are_rejections() {
    assert_eq!(eval_reply("ok"), Ok(()));
    assert_eq!(eval_reply("  ok\n"), Ok(()));
    assert_eq!(
        eval_reply(" [string]:1: bad argument\n"),
        Err(Error::Rejected("[string]:1: bad argument".to_string()))
    );
    assert_eq!(eval_reply(""), Err(Error::Rejected(String::new())));
}

#[test]
fn event_lines_are_classified_by_name() {
    assert_eq!(parse_event("monitoraddedv2>>1,DP-2,desc"), Event::MonitorAdded);
    assert_eq!(parse_event("monitoradded>>DP-2"), Event::Other);
    assert_eq!(parse_event("monitorremoved>>DP-2"), Event::MonitorRemoved);
    assert_eq!(parse_event("configreloaded>>"), Event::ConfigReloaded);
    assert_eq!(parse_event("configreloaded"), Event::ConfigReloaded);
    assert_eq!(parse_event("workspacev2>>3,3"), Event::WorkspaceChanged);
    assert_eq!(parse_event("openwindow>>a,1,kitty,t"), Event::WindowsChanged);
    assert_eq!(parse_event("closewindow>>a"), Event::WindowsChanged);
    assert_eq!(parse_event("movewindowv2>>a,2,2"), Event::WindowsChanged);
    assert_eq!(parse_event("movewindow>>a,2"), Event::Other);
    assert_eq!(parse_event("workspacev2>x"), Event::Other);
    assert_eq!(parse_event(""), Event::Other);
}

#[test]
fn monitors_are_enabled_ones_sorted_stably_by_id() {
    let reported = vec![
        monitor(2, "HDMI-A-1", false, false),
        monitor(0, "eDP-1", true, false),
        monitor(1, "DP-2", false, true),
        monitor(2, "DP-3", false, false),
    ];
    let names: Vec<String> = monitors(reported).into_iter().map(|m| m.name).collect();
    assert_eq!(names, vec!["eDP-1", "HDMI-A-1", "DP-3"]);
}

#[test]
fn socket_paths_join_like_paths() {
    assert_eq!(
        socket_path("/run/user/1000", "abc", ".socket.sock"),
        "/run/user/1000/hypr/abc/.socket.sock"
    );
    assert_eq!(
        socket_path("/run/user/1000/", "abc", ".socket2.sock"),
        "/run/user/1000/hypr/abc/.socket2.sock"
    );
    assert_eq!(join_path("", "x"), "x");
    assert_eq!(join_path("/a", "/b"), "/b");
}
