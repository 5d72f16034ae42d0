//! The command line: what an invocation asks of this process, and how a
//! daemon reply turns into the client's outcome.

use crate::model::{
    desk_text, lemma_desk_text, lemma_from_value, lemma_value_injective, DeskId, Wrap,
};
use crate::protocol::{
    desk_arg, lemma_desk_word, request_line, Direction, MoveMode, Request, StatusFormat,
    StreamFormat,
};
use crate::text::{
    chars_eq_str, chars_of, lemma_words_pair, lemma_words_single, string_of_chars, trim_end,
    trim_end_chars, words,
};
use vstd::prelude::*;
use vstd::string::*;

verus! {

/// What the command line asks of this process.
#[derive(Debug, Clone, Copy, PartialEq, Eq, Structural)]
pub enum Invocation {
    /// Run the resident daemon.
    RunDaemon,
    /// Send one request to the daemon.
    Send(Request),
    /// The arguments are not a valid invocation: show the usage text.
    Usage,
}

/// The wrap mode of a step subcommand's argument: absent means clamp,
/// `--cycle` means wrap around.
pub open spec fn wrap_flag(arg: Option<Seq<char>>) -> Option<Wrap> {
    match arg {
        None => Some(Wrap::Clamp),
        Some(a) => if a == "--cycle"@ {
            Some(Wrap::Cycle)
        } else {
            None
        },
    }
}

/// The request a subcommand and its optional argument denote.
pub open spec fn request_of_args(cmd: Seq<char>, arg: Option<Seq<char>>) -> Option<Request> {
    if cmd == "vdesk"@ {
        match desk_arg(arg) {
            Some(d) => Some(Request::Switch(d)),
            None => None,
        }
    } else if cmd == "movetodesk"@ {
        match desk_arg(arg) {
            Some(d) => Some(Request::Move { desk: d, mode: MoveMode::Follow }),
            None => None,
        }
    } else if cmd == "movetodesksilent"@ {
        match desk_arg(arg) {
            Some(d) => Some(Request::Move { desk: d, mode: MoveMode::Silent }),
            None => None,
        }
    } else if cmd == "nextdesk"@ {
        match wrap_flag(arg) {
            Some(w) => Some(Request::Step { direction: Direction::Next, wrap: w }),
            None => None,
        }
    } else if cmd == "prevdesk"@ {
        match wrap_flag(arg) {
            Some(w) => Some(Request::Step { direction: Direction::Prev, wrap: w }),
            None => None,
        }
    } else if cmd == "lastdesk"@ && arg is None {
        Some(Request::Last)
    } else if cmd == "status"@ && arg is None {
        Some(Request::Status(StatusFormat::Text))
    } else if cmd == "status"@ && arg == Some("--json"@) {
        Some(Request::Status(StatusFormat::Json))
    } else if cmd == "subscribe"@ && arg is None {
        Some(Request::Subscribe(StreamFormat::DeskId))
    } else if cmd == "waybar"@ && arg is None {
        Some(Request::Subscribe(StreamFormat::Waybar))
    } else {
        None
    }
}

/// What a list of arguments (after the program name) asks for: a
/// subcommand and at most one argument.
pub open spec fn invocation_of(args: Seq<Seq<char>>) -> Invocation {
    if args.len() > 2 {
        Invocation::Usage
    } else {
        let cmd = if args.len() > 0 {
            args[0]
        } else {
            Seq::<char>::empty()
        };
        let arg = if args.len() > 1 {
            Some(args[1])
        } else {
            None
        };
        if cmd == "daemon"@ && arg is None {
            Invocation::RunDaemon
        } else {
            match request_of_args(cmd, arg) {
                Some(r) => Invocation::Send(r),
                None => Invocation::Usage,
            }
        }
    }
}

/// The views of a list of arguments.
pub open spec fn arg_views(args: Seq<String>) -> Seq<Seq<char>> {
    args.map_values(|a: String| a@)
}

fn desk_of(arg: Option<&String>) -> (r: Option<DeskId>)
    ensures
        r == desk_arg(
            match arg {
                Some(a) => Some(a@),
                None => None,
            },
        ),
{
    match arg {
        None => None,
        Some(a) => match DeskId::from_text(a.as_str()) {
            Ok(d) => {
                proof {
                    use_type_invariant(&d);
                    lemma_from_value(d.value());
                    lemma_value_injective(d, DeskId::from_value(d.value()));
                }
                Some(d)
            },
            Err(_) => None,
        },
    }
}

fn wrap_of(arg: Option<&String>) -> (r: Option<Wrap>)
    ensures
        r == wrap_flag(
            match arg {
                Some(a) => Some(a@),
                None => None,
            },
        ),
{
    match arg {
        None => Some(Wrap::Clamp),
        Some(a) => {
            let chars = chars_of(a.as_str());
            if chars_eq_str(&chars, "--cycle") {
                Some(Wrap::Cycle)
            } else {
                None
            }
        },
    }
}

fn is_word(s: &String, word: &str) -> (r: bool)
    ensures
        r == (s@ == word@),
{
    let chars = chars_of(s.as_str());
    chars_eq_str(&chars, word)
}

/// Reads the command line.
pub fn parse_args(args: &[String]) -> (r: Invocation)
    ensures
        r == invocation_of(arg_views(args@)),
{
    let ghost av = arg_views(args@);
    if args.len() > 2 {
        return Invocation::Usage;
    }
    let empty = String::new();
    let command: &String = if args.len() > 0 {
        &args[0]
    } else {
        &empty
    };
    let argument: Option<&String> = if args.len() > 1 {
        Some(&args[1])
    } else {
        None
    };
    proof {
        if args.len() > 0 {
            assert(av[0] == args@[0]@);
        }
        if args.len() > 1 {
            assert(av[1] == args@[1]@);
        }
    }
    if is_word(command, "daemon") && argument.is_none() {
        return Invocation::RunDaemon;
    }
    let request: Option<Request> = if is_word(command, "vdesk") {
        match desk_of(argument) {
            Some(d) => Some(Request::Switch(d)),
            None => None,
        }
    } else if is_word(command, "movetodesk") {
        match desk_of(argument) {
            Some(d) => Some(Request::Move { desk: d, mode: MoveMode::Follow }),
            None => None,
        }
    } else if is_word(command, "movetodesksilent") {
        match desk_of(argument) {
            Some(d) => Some(Request::Move { desk: d, mode: MoveMode::Silent }),
            None => None,
        }
    } else if is_word(command, "nextdesk") {
        match wrap_of(argument) {
            Some(w) => Some(Request::Step { direction: Direction::Next, wrap: w }),
            None => None,
        }
    } else if is_word(command, "prevdesk") {
        match wrap_of(argument) {
            Some(w) => Some(Request::Step { direction: Direction::Prev, wrap: w }),
            None => None,
        }
    } else if is_word(command, "lastdesk") && argument.is_none() {
        Some(Request::Last)
    } else if is_word(command, "status") && argument.is_none() {
        Some(Request::Status(StatusFormat::Text))
    } else if is_word(command, "status") && argument.is_some() && is_word(
        argument.unwrap(),
        "--json",
    ) {
        Some(Request::Status(StatusFormat::Json))
    } else if is_word(command, "subscribe") && argument.is_none() {
        Some(Request::Subscribe(StreamFormat::DeskId))
    } else if is_word(command, "waybar") && argument.is_none() {
        Some(Request::Subscribe(StreamFormat::Waybar))
    } else {
        None
    };
    match request {
        Some(r) => Invocation::Send(r),
        None => Invocation::Usage,
    }
}

/// Outcome of a served request, for the caller to turn into an exit code.
#[derive(Clone, Copy, Debug, PartialEq, Eq, Structural)]
pub enum Outcome {
    Success,
    /// The daemon answered with an `err: ` reply.
    DaemonError,
}

/// Whether a reply line (without its trailing whitespace) reports an
/// error.
pub open spec fn is_error_reply(line: Seq<char>) -> bool {
    line.len() >= 4 && line.take(4) == "err:"@
}

impl Outcome {
    /// The line to show for a daemon reply (the reply without trailing
    /// whitespace) and the outcome it reports.
    pub fn of_reply(reply: &str) -> (r: (String, Outcome))
        ensures
            r.0@ == trim_end(reply@),
            r.1 == if is_error_reply(trim_end(reply@)) {
                Outcome::DaemonError
            } else {
                Outcome::Success
            },
    {
        let chars = chars_of(reply);
        let line = trim_end_chars(&chars);
        let mut prefix: Vec<char> = Vec::new();
        let mut i: usize = 0;
        while i < line.len() && i < 4
            invariant
                i <= line@.len(),
                i <= 4,
                prefix@ =~= line@.take(i as int),
            decreases 4 - i,
        {
            prefix.push(line[i]);
            i = i + 1;
            assert(prefix@ =~= line@.take(i as int));
        }
        let error = line.len() >= 4 && chars_eq_str(&prefix, "err:");
        proof {
            reveal_strlit("err:");
        }
        let outcome = if error {
            Outcome::DaemonError
        } else {
            Outcome::Success
        };
        (string_of_chars(&line), outcome)
    }
}

// ---------------------------------------------------------------------
// Laws
// ---------------------------------------------------------------------

/// A word of a request line as the command line spells it: the `cycle`
/// and `json` arguments are the options `--cycle` and `--json`.
pub open spec fn as_option(w: Seq<char>) -> Seq<char> {
    if w == "cycle"@ {
        "--cycle"@
    } else if w == "json"@ {
        "--json"@
    } else {
        w
    }
}

/// The command-line words for a request: the words of its request line,
/// with the wrap and format arguments spelled as options.
pub open spec fn request_args(r: Request) -> Seq<Seq<char>> {
    words(request_line(r)).map_values(|w: Seq<char>| as_option(w))
}

/// Typing a request's words on the command line, with `--cycle` and
/// `--json` as options, sends exactly that request: the subcommands and
/// the wire protocol name the same requests.
pub proof fn law_command_line_round_trips(r: Request)
    requires
        r.wf(),
    ensures
        invocation_of(request_args(r)) == Invocation::Send(r),
{
    reveal_strlit("vdesk");
    reveal_strlit("vdesk ");
    reveal_strlit("movetodesk");
    reveal_strlit("movetodesk ");
    reveal_strlit("movetodesksilent");
    reveal_strlit("movetodesksilent ");
    reveal_strlit("nextdesk");
    reveal_strlit("prevdesk");
    reveal_strlit(" cycle");
    reveal_strlit("cycle");
    reveal_strlit("--cycle");
    reveal_strlit("lastdesk");
    reveal_strlit("status");
    reveal_strlit("status json");
    reveal_strlit("json");
    reveal_strlit("--json");
    reveal_strlit("subscribe");
    reveal_strlit("waybar");
    reveal_strlit("daemon");
    match r {
        Request::Switch(d) => {
            lemma_desk_word(d);
            lemma_desk_text(d.value());
            assert("vdesk "@ =~= "vdesk"@ + seq![' ']);
            lemma_words_pair("vdesk"@, desk_text(d));
            assert(request_args(r) =~= seq!["vdesk"@, desk_text(d)]);
        },
        Request::Move { desk, mode: MoveMode::Follow } => {
            lemma_desk_word(desk);
            lemma_desk_text(desk.value());
            assert("movetodesk "@ =~= "movetodesk"@ + seq![' ']);
            lemma_words_pair("movetodesk"@, desk_text(desk));
            assert(request_args(r) =~= seq!["movetodesk"@, desk_text(desk)]);
        },
        Request::Move { desk, mode: MoveMode::Silent } => {
            lemma_desk_word(desk);
            lemma_desk_text(desk.value());
            assert("movetodesksilent "@ =~= "movetodesksilent"@ + seq![' ']);
            lemma_words_pair("movetodesksilent"@, desk_text(desk));
            assert(request_args(r) =~= seq!["movetodesksilent"@, desk_text(desk)]);
        },
        Request::Step { direction, wrap } => {
            let name = match direction {
                Direction::Next => "nextdesk"@,
                Direction::Prev => "prevdesk"@,
            };
            assert("prevdesk"@ != "nextdesk"@) by {
                assert("prevdesk"@[0] != "nextdesk"@[0]);
            }
            match wrap {
                Wrap::Clamp => {
                    lemma_words_single(name);
                    assert(request_args(r) =~= seq![name]);
                },
                Wrap::Cycle => {
                    assert(" cycle"@ =~= seq![' '] + "cycle"@);
                    assert(name + " cycle"@ =~= name + seq![' '] + "cycle"@);
                    lemma_words_pair(name, "cycle"@);
                    assert(request_args(r) =~= seq![name, "--cycle"@]);
                },
            }
        },
        Request::Last => {
            lemma_words_single("lastdesk"@);
            assert(request_args(r) =~= seq!["lastdesk"@]);
            assert("lastdesk"@ != "nextdesk"@) by {
                assert("lastdesk"@[0] != "nextdesk"@[0]);
            }
            assert("lastdesk"@ != "prevdesk"@) by {
                assert("lastdesk"@[0] != "prevdesk"@[0]);
            }
        },
        Request::Status(StatusFormat::Text) => {
            lemma_words_single("status"@);
            assert(request_args(r) =~= seq!["status"@]);
            assert("status"@ != "daemon"@) by {
                assert("status"@[0] != "daemon"@[0]);
            }
        },
        Request::Status(StatusFormat::Json) => {
            assert("status json"@ =~= "status"@ + seq![' '] + "json"@);
            lemma_words_pair("status"@, "json"@);
            assert(request_args(r) =~= seq!["status"@, "--json"@]);
        },
        Request::Subscribe(StreamFormat::DeskId) => {
            lemma_words_single("subscribe"@);
            assert(request_args(r) =~= seq!["subscribe"@]);
        },
        Request::Subscribe(StreamFormat::Waybar) => {
            lemma_words_single("waybar"@);
            assert(request_args(r) =~= seq!["waybar"@]);
            assert("waybar"@ != "status"@) by {
                assert("waybar"@[0] != "status"@[0]);
            }
            assert("waybar"@ != "daemon"@) by {
                assert("waybar"@[0] != "daemon"@[0]);
            }
        },
    }
}

} // verus!
