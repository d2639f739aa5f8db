//! What the process was asked to do.

use vstd::prelude::*;

use crate::bt::TransportKind;
use crate::text;

verus! {

broadcast use vstd::seq::group_seq_axioms;

pub const DEFAULT_CONFIG: &'static str = "config.toml";

pub const HELP: &'static str = "usage: km-hub [--config <path>] [--transport log|l2cap|le]
       km-hub macro capture|add [--config <path>]

--config     config file (default: ./config.toml, see config.example.toml)
--transport  'log' prints HID frames instead of sending (default),
             'l2cap' streams over classic Bluetooth HID sockets,
             'le' serves HID over GATT as a Bluetooth LE peripheral

macro capture  print the name of the next key combo you press
macro add      capture a combo and write a [[macro]] entry into the config";

/// Run the hub, or one of the `macro` tools.
#[derive(Debug, Clone, PartialEq, Eq)]
pub enum Invocation {
    Run { config: String, transport: TransportKind },
    /// `km-hub macro …` is a separate tool sharing the binary; it takes its
    /// own flags, so it is handed everything that follows (plus a --config
    /// given before it, so both orders work).
    Macro(Vec<String>),
    Help,
}

/// Why the arguments make no sense.
#[derive(Debug, Clone, PartialEq, Eq)]
pub enum ArgError {
    ConfigNeedsPath,
    /// `--transport` is followed by this, or by nothing.
    BadTransport(Option<String>),
    Unknown(String),
}

/// What arguments come to.
pub enum Asked {
    Run { config: Seq<char>, transport: TransportKind },
    Macro(Seq<Seq<char>>),
    Help,
    ConfigNeedsPath,
    BadTransport(Option<Seq<char>>),
    Unknown(Seq<char>),
}

/// The content of a parse.
pub open spec fn asked_view(r: Result<Invocation, ArgError>) -> Asked {
    match r {
        Ok(Invocation::Run { config, transport }) => Asked::Run { config: config@, transport },
        Ok(Invocation::Macro(rest)) => Asked::Macro(text::texts(rest@)),
        Ok(Invocation::Help) => Asked::Help,
        Err(ArgError::ConfigNeedsPath) => Asked::ConfigNeedsPath,
        Err(ArgError::BadTransport(got)) => Asked::BadTransport(text::opt_text(got)),
        Err(ArgError::Unknown(arg)) => Asked::Unknown(arg@),
    }
}

/// The transport a word names.
pub open spec fn transport_named(word: Seq<char>) -> Option<TransportKind> {
    if word == "log"@ {
        Some(TransportKind::Log)
    } else if word == "l2cap"@ {
        Some(TransportKind::L2cap)
    } else if word == "le"@ {
        Some(TransportKind::Le)
    } else {
        None
    }
}

/// What the arguments left to read come to, after a config path and a
/// transport were read.
pub open spec fn asked(
    args: Seq<Seq<char>>,
    config: Seq<char>,
    transport: TransportKind,
) -> Asked
    decreases args.len(),
{
    if args.len() == 0 {
        Asked::Run { config, transport }
    } else if args[0] == "--config"@ {
        if args.len() > 1 {
            asked(args.skip(2), args[1], transport)
        } else {
            Asked::ConfigNeedsPath
        }
    } else if args[0] == "--transport"@ {
        if args.len() > 1 {
            match transport_named(args[1]) {
                Some(kind) => asked(args.skip(2), config, kind),
                None => Asked::BadTransport(Some(args[1])),
            }
        } else {
            Asked::BadTransport(None)
        }
    } else if args[0] == "macro"@ {
        Asked::Macro(seq!["--config"@, config] + args.skip(1))
    } else if args[0] == "--help"@ || args[0] == "-h"@ {
        Asked::Help
    } else {
        Asked::Unknown(args[0])
    }
}

fn parse_transport(word: &str) -> (r: Option<TransportKind>)
    ensures
        r == transport_named(word@),
{
    if text::str_eq(word, "log") {
        Some(TransportKind::Log)
    } else if text::str_eq(word, "l2cap") {
        Some(TransportKind::L2cap)
    } else if text::str_eq(word, "le") {
        Some(TransportKind::Le)
    } else {
        None
    }
}

/// Read the arguments that follow the program's name.
pub fn parse_args(args: &[String]) -> (r: Result<Invocation, ArgError>)
    ensures
        asked_view(r) == asked(text::texts(args@), DEFAULT_CONFIG@, TransportKind::Log),
{
    let ghost all = text::texts(args@);
    let mut config = DEFAULT_CONFIG.to_owned();
    let mut transport = TransportKind::Log;
    let mut i: usize = 0;
    assert(all.skip(0) =~= all);
    while i < args.len()
        invariant
            i <= args@.len(),
            all == text::texts(args@),
            asked(all.skip(i as int), config@, transport) == asked(
                all,
                DEFAULT_CONFIG@,
                TransportKind::Log,
            ),
        decreases args@.len() - i,
    {
        let ghost rest = all.skip(i as int);
        let arg = args[i].as_str();
        assert(rest[0] == arg@);
        assert(rest.skip(1) =~= all.skip(i + 1));
        if text::str_eq(arg, "--config") {
            if i + 1 >= args.len() {
                return Err(ArgError::ConfigNeedsPath);
            }
            assert(rest.skip(2) =~= all.skip(i + 2));
            assert(rest[1] == args@[i + 1]@);
            config = args[i + 1].clone();
            i = i + 2;
        } else if text::str_eq(arg, "--transport") {
            if i + 1 >= args.len() {
                return Err(ArgError::BadTransport(None));
            }
            assert(rest.skip(2) =~= all.skip(i + 2));
            assert(rest[1] == args@[i + 1]@);
            match parse_transport(args[i + 1].as_str()) {
                Some(kind) => {
                    transport = kind;
                },
                None => {
                    return Err(ArgError::BadTransport(Some(args[i + 1].clone())));
                },
            }
            i = i + 2;
        } else if text::str_eq(arg, "macro") {
            let mut out: Vec<String> = Vec::new();
            out.push("--config".to_owned());
            out.push(config);
            let mut j: usize = i + 1;
            let ghost head = seq!["--config"@, config@];
            assert(text::texts(out@) =~= head + all.subrange(i + 1, j as int));
            while j < args.len()
                invariant
                    i + 1 <= j <= args@.len(),
                    all == text::texts(args@),
                    text::texts(out@) == head + all.subrange(i + 1, j as int),
                decreases args@.len() - j,
            {
                let ghost before = text::texts(out@);
                let next = args[j].clone();
                let ghost view = next@;
                out.push(next);
                assert(text::texts(out@) =~= before.push(view));
                assert(all.subrange(i + 1, j + 1) =~= all.subrange(i + 1, j as int).push(view));
                assert(before.push(view) =~= head + all.subrange(i + 1, j + 1));
                j = j + 1;
            }
            assert(all.subrange(i + 1, j as int) =~= rest.skip(1));
            return Ok(Invocation::Macro(out));
        } else if text::str_eq(arg, "--help") || text::str_eq(arg, "-h") {
            return Ok(Invocation::Help);
        } else {
            return Err(ArgError::Unknown(arg.to_owned()));
        }
    }
    Ok(Invocation::Run { config, transport })
}

/// A config path given before `macro` reaches the macro tool as its first
/// argument, and nothing after `macro` is read here.
pub proof fn law_macro_gets_the_rest(config: Seq<char>, rest: Seq<Seq<char>>)
    ensures
        asked(
            seq!["--config"@, config, "macro"@] + rest,
            DEFAULT_CONFIG@,
            TransportKind::Log,
        ) == Asked::Macro(seq!["--config"@, config] + rest),
{
    let args = seq!["--config"@, config, "macro"@] + rest;
    reveal_strlit("--config");
    reveal_strlit("--transport");
    reveal_strlit("macro");
    assert("macro"@.len() == 5 && "--config"@.len() == 8 && "--transport"@.len() == 11);
    assert(args.skip(2) =~= seq!["macro"@] + rest);
    assert((seq!["macro"@] + rest).skip(1) =~= rest);
    assert(asked(seq!["macro"@] + rest, config, TransportKind::Log) == Asked::Macro(
        seq!["--config"@, config] + rest,
    ));
}

/// The transports by name, and that nothing else names one.
pub proof fn law_transport_names(word: Seq<char>)
    ensures
        transport_named("log"@) == Some(TransportKind::Log),
        transport_named("l2cap"@) == Some(TransportKind::L2cap),
        transport_named("le"@) == Some(TransportKind::Le),
        transport_named(word) is Some ==> word == "log"@ || word == "l2cap"@ || word == "le"@,
        DEFAULT_CONFIG@ == "config.toml"@,
{
    reveal_strlit("log");
    reveal_strlit("l2cap");
    reveal_strlit("le");
    assert("log"@.len() == 3 && "l2cap"@.len() == 5 && "le"@.len() == 2);
}

/// Arguments are read from the front: each option changes what it names and
/// nothing else, a path or transport that is missing or unknown is an error,
/// and `macro`, help or anything unknown ends the reading.
pub proof fn law_arguments(
    config: Seq<char>,
    transport: TransportKind,
    word: Seq<char>,
    rest: Seq<Seq<char>>,
)
    ensures
        asked(Seq::empty(), config, transport) == (Asked::Run { config, transport }),
        asked(seq!["--config"@, word] + rest, config, transport) == asked(rest, word, transport),
        asked(seq!["--config"@], config, transport) == Asked::ConfigNeedsPath,
        transport_named(word) is Some ==> asked(
            seq!["--transport"@, word] + rest,
            config,
            transport,
        ) == asked(rest, config, transport_named(word)->0),
        transport_named(word) is None ==> asked(
            seq!["--transport"@, word] + rest,
            config,
            transport,
        ) == Asked::BadTransport(Some(word)),
        asked(seq!["--transport"@], config, transport) == Asked::BadTransport(None),
        asked(seq!["macro"@] + rest, config, transport) == Asked::Macro(
            seq!["--config"@, config] + rest,
        ),
        asked(seq!["--help"@] + rest, config, transport) == Asked::Help,
        asked(seq!["-h"@] + rest, config, transport) == Asked::Help,
        word != "--config"@ && word != "--transport"@ && word != "macro"@ && word != "--help"@
            && word != "-h"@ ==> asked(seq![word] + rest, config, transport) == Asked::Unknown(word),
{
    reveal_strlit("--config");
    reveal_strlit("--transport");
    reveal_strlit("macro");
    reveal_strlit("--help");
    reveal_strlit("-h");
    assert("macro"@.len() == 5 && "--config"@.len() == 8 && "--transport"@.len() == 11);
    assert("--help"@.len() == 6 && "-h"@.len() == 2);
    assert((seq!["--config"@, word] + rest).skip(2) =~= rest);
    assert((seq!["--transport"@, word] + rest).skip(2) =~= rest);
    assert((seq!["macro"@] + rest).skip(1) =~= rest);
    assert((seq!["--config"@, word] + rest)[0] == "--config"@);
    assert((seq!["--transport"@, word] + rest)[0] == "--transport"@);
    assert((seq!["macro"@] + rest)[0] == "macro"@);
    assert((seq!["--help"@] + rest)[0] == "--help"@);
    assert((seq!["-h"@] + rest)[0] == "-h"@);
    assert((seq![word] + rest)[0] == word);
}

} // verus!
