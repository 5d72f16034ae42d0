use hyprdesk::error::Error;
use hyprdesk::model::{DeskId, Wrap};
use hyprdesk::protocol::{Direction, MoveMode, Request, StatusFormat, StreamFormat};

fn desk(id: u8) -> DeskId {
    DeskId::new(id).expect("valid desk id in test")
}

#[test]
fn every_request_round_trips() {
    let all = [
        Request::Switch(desk(3)),
        Request::Move {
            desk: desk(10),
            mode: MoveMode::Follow,
        },
        Request::Move {
            desk: desk(1),
            mode: MoveMode::Silent,
        },
        Request::Step {
            direction: Direction::Next,
            wrap: Wrap::Clamp,
        },
        Request::Step {
            direction: Direction::Next,
            wrap: Wrap::Cycle,
        },
        Request::Step {
            direction: Direction::Prev,
            wrap: Wrap::Clamp,
        },
        Request::Step {
            direction: Direction::Prev,
            wrap: Wrap::Cycle,
        },
        Request::Last,
        Request::Status(StatusFormat::Text),
        Request::Status(StatusFormat::Json),
        Request::Subscribe(StreamFormat::DeskId),
        Request::Subscribe(StreamFormat::Waybar),
    ];
    for request in all {
        let line = request.to_string();
        assert_eq!(line.parse::<Request>().ok(), Some(request), "line: {line}");
    }
}

#[test]
fn malformed_lines_are_rejected() {
    for line in [
        "",
        "bogus",
        "vdesk",
        "vdesk 0",
        "vdesk 11",
        "vdesk x",
        "vdesk 3 3",
        "nextdesk sideways",
        "status yaml",
        "lastdesk 2",
        "subscribe now",
        "waybar json",
    ] {
        assert!(line.parse::<Request>().is_err(), "line: {line:?}");
    }
}

// ---------------------------------------------------------------------
// Further cases
// ---------------------------------------------------------------------

#[test]
fn requests_render_to_their_protocol_lines() {
    assert_eq!(Request::Switch(desk(3)).to_string(), "vdesk 3");
    assert_eq!(
        Request::Move { desk: desk(10), mode: MoveMode::Follow }.to_string(),
        "movetodesk 10"
    );
    assert_eq!(
        Request::Move { desk: desk(1), mode: MoveMode::Silent }.to_string(),
        "movetodesksilent 1"
    );
    assert_eq!(
        Request::Step { direction: Direction::Prev, wrap: Wrap::Cycle }.to_string(),
        "prevdesk cycle"
    );
    assert_eq!(Request::Status(StatusFormat::Json).to_string(), "status json");
    assert_eq!(Request::Subscribe(StreamFormat::Waybar).to_string(), "waybar");
}

#[test]
fn whitespace_between_words_is_flexible() {
    assert_eq!(
        "  vdesk\t4  ".parse::<Request>().ok(),
        Some(Request::Switch(desk(4)))
    );
    assert_eq!(
        "nextdesk \u{3000}cycle".parse::<Request>().ok(),
        Some(Request::Step { direction: Direction::Next, wrap: Wrap::Cycle })
    );
    assert_eq!("vdesk +2".parse::<Request>().ok(), Some(Request::Switch(desk(2))));
}

#[test]
fn a_bad_line_is_named_in_the_error() {
    match Request::parse_line("vdesk 12") {
        Err(Error::BadRequest(line)) => assert_eq!(line, "vdesk 12"),
        other => panic!("unexpected: {other:?}"),
    }
    assert_eq!(
        Request::parse_line("bogus").unwrap_err().to_string(),
        "invalid request: bogus"
    );
}
