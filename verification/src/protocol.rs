//! Wire protocol between the CLI client and the daemon.
//!
//! One UTF-8 text line per request; the daemon answers with a single line
//! ("ok..." or "err: ...") except for [`Request::Subscribe`], which holds
//! the connection open and streams one line per update in the requested
//! [`StreamFormat`]. `Request` is the single source of truth: the client
//! renders with [`Request::to_string`], the daemon parses with
//! [`Request::parse_line`], and the two are proved to round-trip.

use crate::error::Error;
use crate::model::{
    desk_text, lemma_desk_text, lemma_from_value, lemma_value_injective,
    DeskId, Wrap,
};
use crate::text::{
    chars_eq_str, chars_of, lemma_single_line_concat, lemma_words_pair, lemma_words_single, no_ws,
    single_line, split_words,
    string_of_chars, views_of, words,
};
use vstd::prelude::*;
use vstd::string::*;

verus! {

/// Whether moving a window to a desk also switches every monitor there.
#[derive(Clone, Copy, Debug, PartialEq, Eq, Structural)]
pub enum MoveMode {
    Follow,
    Silent,
}

#[derive(Clone, Copy, Debug, PartialEq, Eq, Structural)]
pub enum Direction {
    Next,
    Prev,
}

#[derive(Clone, Copy, Debug, PartialEq, Eq, Structural)]
pub enum StatusFormat {
    Text,
    Json,
}

/// What a held-open subscription streams, one line per update.
#[derive(Clone, Copy, Debug, PartialEq, Eq, Structural)]
pub enum StreamFormat {
    /// The active desk id.
    DeskId,
    /// A waybar custom-module JSON object (see the `waybar` module).
    Waybar,
}

#[derive(Clone, Copy, Debug, PartialEq, Eq, Structural)]
pub enum Request {
    /// Switch every monitor to the desk.
    Switch(DeskId),
    /// Move the active window to the desk.
    Move { desk: DeskId, mode: MoveMode },
    /// Step to the neighboring desk.
    Step { direction: Direction, wrap: Wrap },
    /// Back-and-forth to the previously active desk.
    Last,
    /// Report current and last desk.
    Status(StatusFormat),
    /// Stream desk changes until the client disconnects.
    Subscribe(StreamFormat),
}

// ---------------------------------------------------------------------
// Specification
// ---------------------------------------------------------------------

impl Request {
    /// Every desk the request names is a valid desk.
    pub open spec fn wf(self) -> bool {
        match self {
            Request::Switch(d) => d.wf(),
            Request::Move { desk, .. } => desk.wf(),
            _ => true,
        }
    }
}

/// The line a request renders to.
pub open spec fn request_line(r: Request) -> Seq<char> {
    match r {
        Request::Switch(d) => "vdesk "@ + desk_text(d),
        Request::Move { desk, mode: MoveMode::Follow } => "movetodesk "@ + desk_text(desk),
        Request::Move { desk, mode: MoveMode::Silent } => "movetodesksilent "@ + desk_text(desk),
        Request::Step { direction, wrap } => {
            let name = match direction {
                Direction::Next => "nextdesk"@,
                Direction::Prev => "prevdesk"@,
            };
            match wrap {
                Wrap::Clamp => name,
                Wrap::Cycle => name + " cycle"@,
            }
        },
        Request::Last => "lastdesk"@,
        Request::Status(StatusFormat::Text) => "status"@,
        Request::Status(StatusFormat::Json) => "status json"@,
        Request::Subscribe(StreamFormat::DeskId) => "subscribe"@,
        Request::Subscribe(StreamFormat::Waybar) => "waybar"@,
    }
}

/// The desk a request argument names, if any.
pub open spec fn desk_arg(arg: Option<Seq<char>>) -> Option<DeskId> {
    match arg {
        Some(a) => DeskId::of_text(a),
        None => None,
    }
}

/// The wrap mode of a step request's argument: absent means clamp,
/// `cycle` means wrap around, anything else is malformed.
pub open spec fn wrap_arg(arg: Option<Seq<char>>) -> Option<Wrap> {
    match arg {
        None => Some(Wrap::Clamp),
        Some(a) => if a == "cycle"@ {
            Some(Wrap::Cycle)
        } else {
            None
        },
    }
}

/// The request that a command word and an optional argument denote.
pub open spec fn request_of_command(cmd: Seq<char>, arg: Option<Seq<char>>) -> Option<Request> {
    if cmd == "vdesk"@ {
        match desk_arg(arg) {
            Some(d) => Some(Request::Switch(d)),
            None => None,
        }
    } else if cmd == "movetodesk"@ {
        match desk_arg(arg) {
            Some(d) => Some(Request::Move { desk: d, mode: MoveMode::Follow }),
            None => None,
        }
    } else if cmd == "movetodesksilent"@ {
        match desk_arg(arg) {
            Some(d) => Some(Request::Move { desk: d, mode: MoveMode::Silent }),
            None => None,
        }
    } else if cmd == "nextdesk"@ {
        match wrap_arg(arg) {
            Some(w) => Some(Request::Step { direction: Direction::Next, wrap: w }),
            None => None,
        }
    } else if cmd == "prevdesk"@ {
        match wrap_arg(arg) {
            Some(w) => Some(Request::Step { direction: Direction::Prev, wrap: w }),
            None => None,
        }
    } else if cmd == "lastdesk"@ {
        if arg is None {
            Some(Request::Last)
        } else {
            None
        }
    } else if cmd == "status"@ {
        match arg {
            None => Some(Request::Status(StatusFormat::Text)),
            Some(a) => if a == "json"@ {
                Some(Request::Status(StatusFormat::Json))
            } else {
                None
            },
        }
    } else if cmd == "subscribe"@ {
        if arg is None {
            Some(Request::Subscribe(StreamFormat::DeskId))
        } else {
            None
        }
    } else if cmd == "waybar"@ {
        if arg is None {
            Some(Request::Subscribe(StreamFormat::Waybar))
        } else {
            None
        }
    } else {
        None
    }
}

/// The request a line denotes: its whitespace-separated words must be a
/// command and at most one argument.
pub open spec fn request_of_line(line: Seq<char>) -> Option<Request> {
    let w = words(line);
    if w.len() == 0 || w.len() > 2 {
        None
    } else {
        request_of_command(w[0], if w.len() == 2 { Some(w[1]) } else { None })
    }
}

// ---------------------------------------------------------------------
// Implementation
// ---------------------------------------------------------------------

fn parse_desk_arg(arg: Option<&Vec<char>>) -> (r: Option<DeskId>)
    ensures
        r == desk_arg(
            match arg {
                Some(a) => Some(a@),
                None => None,
            },
        ),
{
    match arg {
        None => None,
        Some(a) => {
            let text = string_of_chars(a);
            match DeskId::from_text(text.as_str()) {
                Ok(d) => {
                    proof {
                        let v = d.value();
                        lemma_from_value(v);
                        lemma_value_injective(d, DeskId::from_value(v));
                    }
                    Some(d)
                },
                Err(_) => None,
            }
        },
    }
}

fn parse_wrap_arg(arg: Option<&Vec<char>>) -> (r: Option<Wrap>)
    ensures
        r == wrap_arg(
            match arg {
                Some(a) => Some(a@),
                None => None,
            },
        ),
{
    match arg {
        None => Some(Wrap::Clamp),
        Some(a) => if chars_eq_str(a, "cycle") {
            Some(Wrap::Cycle)
        } else {
            None
        },
    }
}

impl Request {
    /// Parses one request line. Any line that is not exactly one of the
    /// protocol's forms is refused with [`Error::BadRequest`] carrying the
    /// line.
    pub fn parse_line(line: &str) -> (r: Result<Request, Error>)
        ensures
            match r {
                Ok(req) => request_of_line(line@) == Some(req),
                Err(e) => request_of_line(line@) is None && (e matches Error::BadRequest(l)
                    && l@ == line@),
            },
    {
        let chars = chars_of(line);
        let ws = split_words(&chars);
        proof {
            assert(views_of(ws@).len() == ws@.len());
        }
        if ws.len() == 0 || ws.len() > 2 {
            return Err(Error::BadRequest(line.to_owned()));
        }
        let cmd = &ws[0];
        let arg: Option<&Vec<char>> = if ws.len() == 2 {
            Some(&ws[1])
        } else {
            None
        };
        let ghost sarg: Option<Seq<char>> = match arg {
            Some(a) => Some(a@),
            None => None,
        };
        proof {
            assert(views_of(ws@)[0] == cmd@);
            if ws.len() == 2 {
                assert(views_of(ws@)[1] == ws@[1]@);
            }
            assert(request_of_line(line@) == request_of_command(cmd@, sarg));
        }
        let parsed: Option<Request> = if chars_eq_str(cmd, "vdesk") {
            match parse_desk_arg(arg) {
                Some(d) => Some(Request::Switch(d)),
                None => None,
            }
        } else if chars_eq_str(cmd, "movetodesk") {
            match parse_desk_arg(arg) {
                Some(d) => Some(Request::Move { desk: d, mode: MoveMode::Follow }),
                None => None,
            }
        } else if chars_eq_str(cmd, "movetodesksilent") {
            match parse_desk_arg(arg) {
                Some(d) => Some(Request::Move { desk: d, mode: MoveMode::Silent }),
                None => None,
            }
        } else if chars_eq_str(cmd, "nextdesk") {
            match parse_wrap_arg(arg) {
                Some(w) => Some(Request::Step { direction: Direction::Next, wrap: w }),
                None => None,
            }
        } else if chars_eq_str(cmd, "prevdesk") {
            match parse_wrap_arg(arg) {
                Some(w) => Some(Request::Step { direction: Direction::Prev, wrap: w }),
                None => None,
            }
        } else if chars_eq_str(cmd, "lastdesk") {
            if arg.is_none() {
                Some(Request::Last)
            } else {
                None
            }
        } else if chars_eq_str(cmd, "status") {
            match arg {
                None => Some(Request::Status(StatusFormat::Text)),
                Some(a) => if chars_eq_str(a, "json") {
                    Some(Request::Status(StatusFormat::Json))
                } else {
                    None
                },
            }
        } else if chars_eq_str(cmd, "subscribe") {
            if arg.is_none() {
                Some(Request::Subscribe(StreamFormat::DeskId))
            } else {
                None
            }
        } else if chars_eq_str(cmd, "waybar") {
            if arg.is_none() {
                Some(Request::Subscribe(StreamFormat::Waybar))
            } else {
                None
            }
        } else {
            None
        };
        match parsed {
            Some(req) => Ok(req),
            None => Err(Error::BadRequest(line.to_owned())),
        }
    }

    /// Renders the request as its protocol line.
    pub fn to_string(&self) -> (r: String)
        ensures
            r@ == request_line(*self),
    {
        match self {
            Request::Switch(desk) => {
                let mut s = String::from_str("vdesk ");
                s.append(desk.to_string().as_str());
                s
            },
            Request::Move { desk, mode: MoveMode::Follow } => {
                let mut s = String::from_str("movetodesk ");
                s.append(desk.to_string().as_str());
                s
            },
            Request::Move { desk, mode: MoveMode::Silent } => {
                let mut s = String::from_str("movetodesksilent ");
                s.append(desk.to_string().as_str());
                s
            },
            Request::Step { direction, wrap } => {
                let mut s = match direction {
                    Direction::Next => String::from_str("nextdesk"),
                    Direction::Prev => String::from_str("prevdesk"),
                };
                match wrap {
                    Wrap::Clamp => {},
                    Wrap::Cycle => s.append(" cycle"),
                }
                s
            },
            Request::Last => String::from_str("lastdesk"),
            Request::Status(StatusFormat::Text) => String::from_str("status"),
            Request::Status(StatusFormat::Json) => String::from_str("status json"),
            Request::Subscribe(StreamFormat::DeskId) => String::from_str("subscribe"),
            Request::Subscribe(StreamFormat::Waybar) => String::from_str("waybar"),
        }
    }
}

impl std::str::FromStr for Request {
    type Err = Error;

    fn from_str(line: &str) -> (r: Result<Self, Self::Err>)
        ensures
            match r {
                Ok(req) => request_of_line(line@) == Some(req),
                Err(e) => request_of_line(line@) is None && (e matches Error::BadRequest(l)
                    && l@ == line@),
            },
    {
        Request::parse_line(line)
    }
}

// ---------------------------------------------------------------------
// Laws
// ---------------------------------------------------------------------

/// A desk's text is one non-empty word that reads back as the desk.
pub proof fn lemma_desk_word(d: DeskId)
    requires
        d.wf(),
    ensures
        desk_text(d).len() > 0,
        no_ws(desk_text(d)),
        DeskId::of_text(desk_text(d)) == Some(d),
{
    lemma_desk_text(d.value());
    lemma_from_value(d.value());
    lemma_value_injective(d, DeskId::from_value(d.value()));
}

/// Every request renders to a line that parses back to the same request:
/// the client's rendering and the daemon's parser cannot drift apart.
pub proof fn law_request_round_trips(r: Request)
    requires
        r.wf(),
    ensures
        request_of_line(request_line(r)) == Some(r),
{
    reveal_strlit("vdesk");
    reveal_strlit("vdesk ");
    reveal_strlit("movetodesk");
    reveal_strlit("movetodesk ");
    reveal_strlit("movetodesksilent");
    reveal_strlit("movetodesksilent ");
    reveal_strlit("nextdesk");
    reveal_strlit("prevdesk");
    reveal_strlit(" cycle");
    reveal_strlit("cycle");
    reveal_strlit("lastdesk");
    reveal_strlit("status");
    reveal_strlit("status json");
    reveal_strlit("json");
    reveal_strlit("subscribe");
    reveal_strlit("waybar");
    match r {
        Request::Switch(d) => {
            lemma_desk_word(d);
            assert("vdesk "@ =~= "vdesk"@ + seq![' ']);
            lemma_words_pair("vdesk"@, desk_text(d));
        },
        Request::Move { desk, mode: MoveMode::Follow } => {
            lemma_desk_word(desk);
            assert("movetodesk "@ =~= "movetodesk"@ + seq![' ']);
            lemma_words_pair("movetodesk"@, desk_text(desk));
            assert("movetodesk"@ != "vdesk"@);
        },
        Request::Move { desk, mode: MoveMode::Silent } => {
            lemma_desk_word(desk);
            assert("movetodesksilent "@ =~= "movetodesksilent"@ + seq![' ']);
            lemma_words_pair("movetodesksilent"@, desk_text(desk));
            assert("movetodesksilent"@ != "vdesk"@);
            assert("movetodesksilent"@ != "movetodesk"@);
        },
        Request::Step { direction, wrap } => {
            let name = match direction {
                Direction::Next => "nextdesk"@,
                Direction::Prev => "prevdesk"@,
            };
            assert(name != "vdesk"@);
            assert(name != "movetodesk"@);
            assert(name != "movetodesksilent"@);
            assert("prevdesk"@ != "nextdesk"@) by {
                assert("prevdesk"@[0] != "nextdesk"@[0]);
            }
            match wrap {
                Wrap::Clamp => {
                    lemma_words_single(name);
                },
                Wrap::Cycle => {
                    assert(" cycle"@ =~= seq![' '] + "cycle"@);
                    assert(name + " cycle"@ =~= name + seq![' '] + "cycle"@);
                    lemma_words_pair(name, "cycle"@);
                },
            }
        },
        Request::Last => {
            lemma_words_single("lastdesk"@);
            assert("lastdesk"@ != "nextdesk"@) by {
                assert("lastdesk"@[0] != "nextdesk"@[0]);
            }
            assert("lastdesk"@ != "prevdesk"@) by {
                assert("lastdesk"@[0] != "prevdesk"@[0]);
            }
        },
        Request::Status(StatusFormat::Text) => {
            lemma_words_single("status"@);
        },
        Request::Status(StatusFormat::Json) => {
            assert("status json"@ =~= "status"@ + seq![' '] + "json"@);
            lemma_words_pair("status"@, "json"@);
        },
        Request::Subscribe(StreamFormat::DeskId) => {
            lemma_words_single("subscribe"@);
        },
        Request::Subscribe(StreamFormat::Waybar) => {
            lemma_words_single("waybar"@);
            assert("waybar"@ != "status"@) by {
                assert("waybar"@[0] != "status"@[0]);
            }
            assert("waybar"@ != "vdesk"@) by {
                assert("waybar"@[0] != "vdesk"@[0]);
            }
        },
    }
}

/// A rendered request is one non-empty line: the protocol sends one line
/// per request.
pub proof fn law_request_line_is_one_line(r: Request)
    requires
        r.wf(),
    ensures
        request_line(r).len() > 0,
        single_line(request_line(r)),
{
    reveal_strlit("vdesk ");
    reveal_strlit("movetodesk ");
    reveal_strlit("movetodesksilent ");
    reveal_strlit("nextdesk");
    reveal_strlit("prevdesk");
    reveal_strlit(" cycle");
    reveal_strlit("lastdesk");
    reveal_strlit("status");
    reveal_strlit("status json");
    reveal_strlit("subscribe");
    reveal_strlit("waybar");
    match r {
        Request::Switch(d) => {
            lemma_desk_word(d);
            assert(single_line(desk_text(d)));
            assert(single_line("vdesk "@));
            lemma_single_line_concat("vdesk "@, desk_text(d));
        },
        Request::Move { desk, mode: MoveMode::Follow } => {
            lemma_desk_word(desk);
            assert(single_line(desk_text(desk)));
            assert(single_line("movetodesk "@));
            lemma_single_line_concat("movetodesk "@, desk_text(desk));
        },
        Request::Move { desk, mode: MoveMode::Silent } => {
            lemma_desk_word(desk);
            assert(single_line(desk_text(desk)));
            assert(single_line("movetodesksilent "@));
            lemma_single_line_concat("movetodesksilent "@, desk_text(desk));
        },
        Request::Step { direction, wrap } => {
            assert(single_line("nextdesk"@));
            assert(single_line("prevdesk"@));
            assert(single_line(" cycle"@));
            lemma_single_line_concat("nextdesk"@, " cycle"@);
            lemma_single_line_concat("prevdesk"@, " cycle"@);
        },
        Request::Last => {
            assert(single_line("lastdesk"@));
        },
        Request::Status(_) => {
            assert(single_line("status"@));
            assert(single_line("status json"@));
        },
        Request::Subscribe(_) => {
            assert(single_line("subscribe"@));
            assert(single_line("waybar"@));
        },
    }
}

} // verus!
