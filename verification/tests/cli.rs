use hyprdesk::cli::{parse_args, Invocation, Outcome};
use hyprdesk::error::Error;
use hyprdesk::model::{DeskId, Wrap};
use hyprdesk::protocol::{Direction, MoveMode, Request, StatusFormat, StreamFormat};

fn args(words: &[&str]) -> Vec<String> {
    words.iter().map(|w| w.to_string()).collect()
}

fn desk(id: u8) -> DeskId {
    DeskId::new(id).expect("valid desk id in test")
}

#[test]
fn subcommands_map_to_requests() {
    assert_eq!(parse_args(&args(&["daemon"])), Invocation::RunDaemon);
    assert_eq!(parse_args(&args(&["vdesk", "3"])), Invocation::Send(Request::Switch(desk(3))));
    assert_eq!(
        parse_args(&args(&["movetodesk", "10"])),
        Invocation::Send(Request::Move { desk: desk(10), mode: MoveMode::Follow })
    );
    assert_eq!(
        parse_args(&args(&["movetodesksilent", "1"])),
        Invocation::Send(Request::Move { desk: desk(1), mode: MoveMode::Silent })
    );
    assert_eq!(
        parse_args(&args(&["nextdesk", "--cycle"])),
        Invocation::Send(Request::Step { direction: Direction::Next, wrap: Wrap::Cycle })
    );
    assert_eq!(
        parse_args(&args(&["prevdesk"])),
        Invocation::Send(Request::Step { direction: Direction::Prev, wrap: Wrap::Clamp })
    );
    assert_eq!(parse_args(&args(&["lastdesk"])), Invocation::Send(Request::Last));
    assert_eq!(
        parse_args(&args(&["status", "--json"])),
        Invocation::Send(Request::Status(StatusFormat::Json))
    );
    assert_eq!(
        parse_args(&args(&["status"])),
        Invocation::Send(Request::Status(StatusFormat::Text))
    );
    assert_eq!(
        parse_args(&args(&["subscribe"])),
        Invocation::Send(Request::Subscribe(StreamFormat::DeskId))
    );
    assert_eq!(
        parse_args(&args(&["waybar"])),
        Invocation::Send(Request::Subscribe(StreamFormat::Waybar))
    );
}

#[test]
fn bad_command_lines_show_usage() {
    for words in [
        &[][..],
        &["daemon", "now"][..],
        &["vdesk"][..],
        &["vdesk", "11"][..],
        &["vdesk", "3", "4"][..],
        &["nextdesk", "cycle"][..],
        &["status", "json"][..],
        &["lastdesk", "1"][..],
        &["bogus"][..],
    ] {
        assert_eq!(parse_args(&args(words)), Invocation::Usage, "args: {words:?}");
    }
}

#[test]
fn error_replies_are_daemon_errors() {
    assert_eq!(Outcome::of_reply("ok\n"), ("ok".to_string(), Outcome::Success));
    assert_eq!(
        Outcome::of_reply("err: invalid request: x\n"),
        ("err: invalid request: x".to_string(), Outcome::DaemonError)
    );
    assert_eq!(Outcome::of_reply("err"), ("err".to_string(), Outcome::Success));
    assert_eq!(Outcome::of_reply(""), (String::new(), Outcome::Success));
}

#[test]
fn errors_render_for_humans() {
    assert_eq!(
        Error::MissingEnv("XDG_RUNTIME_DIR".to_string()).to_string(),
        "XDG_RUNTIME_DIR is not set (not inside a Hyprland session?)"
    );
    assert_eq!(Error::Io("broken pipe".to_string()).to_string(), "socket i/o failed: broken pipe");
    assert_eq!(
        Error::BadReply { query: "monitors".to_string(), source: "EOF".to_string() }.to_string(),
        "unparsable reply to j/monitors: EOF"
    );
    assert_eq!(
        Error::Rejected("nope".to_string()).to_string(),
        "hyprland rejected a command: nope"
    );
    assert_eq!(
        Error::DaemonUnreachable { path: "/x.sock".to_string(), source: "refused".to_string() }
            .to_string(),
        "cannot reach hyprdesk daemon at /x.sock (refused); is `hyprdesk daemon` running?"
    );
    assert_eq!(
        Error::AlreadyRunning("/x.sock".to_string()).to_string(),
        "another hyprdesk daemon is already running on /x.sock"
    );
}

#[test]
fn rendered_requests_typed_as_arguments_are_sent_back() {
    let requests = [
        Request::Switch(desk(1)),
        Request::Switch(desk(10)),
        Request::Move { desk: desk(4), mode: MoveMode::Follow },
        Request::Move { desk: desk(7), mode: MoveMode::Silent },
        Request::Step { direction: Direction::Next, wrap: Wrap::Clamp },
        Request::Step { direction: Direction::Next, wrap: Wrap::Cycle },
        Request::Step { direction: Direction::Prev, wrap: Wrap::Clamp },
        Request::Step { direction: Direction::Prev, wrap: Wrap::Cycle },
        Request::Last,
        Request::Status(StatusFormat::Text),
        Request::Status(StatusFormat::Json),
        Request::Subscribe(StreamFormat::DeskId),
        Request::Subscribe(StreamFormat::Waybar),
    ];
    for request in requests {
        let words: Vec<String> = request
            .to_string()
            .split(' ')
            .map(|w| match w {
                "cycle" => "--cycle".to_string(),
                "json" => "--json".to_string(),
                other => other.to_string(),
            })
            .collect();
        assert_eq!(parse_args(&words), Invocation::Send(request), "words: {words:?}");
    }
}
