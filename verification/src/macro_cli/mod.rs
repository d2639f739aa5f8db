//! `km-hub macro …`: the small local tool that turns a keypress into the
//! `keys = "…"` string a `[[macro]]` needs, and optionally writes the entry.
//!
//!   km-hub macro capture            print the name of the next combo pressed
//!   km-hub macro add [--config P]   capture a combo, prompt for the command,
//!                                   append (or replace) a [[macro]] in the config
//!
//! Where the keys are read from: km-hub grabs the physical keyboards
//! exclusively, so while the daemon runs nobody else sees them. What *is*
//! visible then is the daemon's own uinput keyboard (`km-hub virtual
//! keyboard`), which carries everything forwarded to the local slot. So: if a
//! virtual keyboard exists we listen there (the local slot must be active);
//! otherwise we read the physical keyboards directly, without grabbing.
//! Combos the daemon already claims — switch combos, existing macros — are
//! swallowed before they reach the virtual device and can never be captured
//! while it runs; that is correct, they are taken.

use vstd::prelude::*;

use crate::input::keys;
use crate::input::keys::{KeyCombo, Mods};
use crate::text;

pub mod dialog;
pub mod document;

verus! {

broadcast use vstd::seq::group_seq_axioms;

// ---------------------------------------------------------------------------
// The command line
// ---------------------------------------------------------------------------

pub const DEFAULT_CONFIG: &'static str = "config.toml";

pub const USAGE: &'static str = "usage: km-hub macro capture
       km-hub macro add [--config <path>]

capture   wait for one key combo and print its name, e.g. ctrl+alt+kp1
add       capture a combo, ask for a name, the command and a timeout, then
          append a [[macro]] entry to the config (default: ./config.toml).
          A combo that is already bound can be replaced in place.

Run this on the hub. If km-hub is running, its virtual keyboard is read, so
the LOCAL slot (Ctrl+Alt+F1) must be active; combos km-hub already claims are
swallowed before we see them. If km-hub is stopped, the physical keyboards are
read directly. Config changes take effect after km-hub restarts.
";

/// What the tool was asked to do.
#[derive(Debug, Clone, PartialEq, Eq)]
pub enum Tool {
    Help,
    Capture,
    /// Add a macro to this config file.
    Add(String),
}

/// Why the arguments make no sense.
#[derive(Debug, Clone, PartialEq, Eq)]
pub enum ToolError {
    ConfigNeedsPath,
    Unknown(String),
    NoCommand,
}

/// What arguments come to.
pub enum ToolView {
    Help,
    Capture,
    Add(Seq<char>),
    ConfigNeedsPath,
    Unknown(Seq<char>),
    NoCommand,
}

/// The content of a parse.
pub open spec fn tool_view(r: Result<Tool, ToolError>) -> ToolView {
    match r {
        Ok(Tool::Help) => ToolView::Help,
        Ok(Tool::Capture) => ToolView::Capture,
        Ok(Tool::Add(config)) => ToolView::Add(config@),
        Err(ToolError::ConfigNeedsPath) => ToolView::ConfigNeedsPath,
        Err(ToolError::Unknown(arg)) => ToolView::Unknown(arg@),
        Err(ToolError::NoCommand) => ToolView::NoCommand,
    }
}

/// What the arguments left to read come to, after a config path and a command
/// (`true` for add) were read.
pub open spec fn tool_asked(
    args: Seq<Seq<char>>,
    config: Seq<char>,
    command: Option<bool>,
) -> ToolView
    decreases args.len(),
{
    if args.len() == 0 {
        match command {
            Some(true) => ToolView::Add(config),
            Some(false) => ToolView::Capture,
            None => ToolView::NoCommand,
        }
    } else if args[0] == "--config"@ {
        if args.len() > 1 {
            tool_asked(args.skip(2), args[1], command)
        } else {
            ToolView::ConfigNeedsPath
        }
    } else if args[0] == "--help"@ || args[0] == "-h"@ {
        ToolView::Help
    } else if args[0] == "capture"@ && command is None {
        tool_asked(args.skip(1), config, Some(false))
    } else if args[0] == "add"@ && command is None {
        tool_asked(args.skip(1), config, Some(true))
    } else {
        ToolView::Unknown(args[0])
    }
}

/// Read the tool's arguments.
pub fn parse_args(args: &[String]) -> (r: Result<Tool, ToolError>)
    ensures
        tool_view(r) == tool_asked(text::texts(args@), DEFAULT_CONFIG@, None),
{
    let ghost all = text::texts(args@);
    let mut config = DEFAULT_CONFIG.to_owned();
    let mut command: Option<bool> = None;
    let mut i: usize = 0;
    assert(all.skip(0) =~= all);
    while i < args.len()
        invariant
            i <= args@.len(),
            all == text::texts(args@),
            tool_asked(all.skip(i as int), config@, command) == tool_asked(
                all,
                DEFAULT_CONFIG@,
                None,
            ),
        decreases args@.len() - i,
    {
        let ghost rest = all.skip(i as int);
        let arg = args[i].as_str();
        assert(rest[0] == arg@);
        assert(rest.skip(1) =~= all.skip(i + 1));
        if text::str_eq(arg, "--config") {
            if i + 1 >= args.len() {
                return Err(ToolError::ConfigNeedsPath);
            }
            assert(rest.skip(2) =~= all.skip(i + 2));
            assert(rest[1] == args@[i + 1]@);
            config = args[i + 1].clone();
            i = i + 2;
        } else if text::str_eq(arg, "--help") || text::str_eq(arg, "-h") {
            return Ok(Tool::Help);
        } else if text::str_eq(arg, "capture") && command.is_none() {
            command = Some(false);
            i = i + 1;
        } else if text::str_eq(arg, "add") && command.is_none() {
            command = Some(true);
            i = i + 1;
        } else {
            return Err(ToolError::Unknown(arg.to_owned()));
        }
    }
    match command {
        Some(true) => Ok(Tool::Add(config)),
        Some(false) => Ok(Tool::Capture),
        None => Err(ToolError::NoCommand),
    }
}

impl ToolError {
    pub fn message(&self) -> (r: String)
        ensures
            r@ == match *self {
                ToolError::ConfigNeedsPath => "--config needs a path"@,
                ToolError::Unknown(arg) => "unknown argument '"@ + arg@
                    + "' (see km-hub macro --help)"@,
                ToolError::NoCommand => "usage: km-hub macro capture|add [--config <path>]"@,
            },
    {
        match self {
            ToolError::ConfigNeedsPath => "--config needs a path".to_owned(),
            ToolError::Unknown(arg) => {
                let mut out = "unknown argument '".to_owned();
                out.append(arg.as_str());
                out.append("' (see km-hub macro --help)");
                out
            },
            ToolError::NoCommand => "usage: km-hub macro capture|add [--config <path>]".to_owned(),
        }
    }
}

// ---------------------------------------------------------------------------
// Capturing a combo
// ---------------------------------------------------------------------------

/// Waits for one combo: the first press of a non-modifier key completes it
/// with the modifiers held at that moment; then everything has to be released,
/// so the tail of the combo cannot leak into whatever runs next.
///
/// Only presses that were seen count as held: whatever was down at the start
/// (the Enter that launched the tool) is somebody else's business.
#[derive(Debug)]
pub struct Capture {
    held: Vec<u16>,
    combo: Option<KeyCombo>,
}

/// The state of a [`Capture`].
#[verifier::ext_equal]
pub struct CaptureView {
    pub held: Set<u16>,
    pub combo: Option<KeyCombo>,
}

impl View for Capture {
    type V = CaptureView;

    closed spec fn view(&self) -> CaptureView {
        CaptureView { held: self.held@.to_set(), combo: self.combo }
    }
}

impl CaptureView {
    /// After a key event, and the combo if it is complete.
    pub open spec fn stepped(self, key: u16, value: i32) -> (CaptureView, Option<KeyCombo>) {
        let after = if value == 1 {
            let held = self.held.insert(key);
            CaptureView {
                held,
                combo: if self.combo is None && keys::modifier_of_key(key) is None {
                    Some(KeyCombo { mods: keys::mods_in(held), key })
                } else {
                    self.combo
                },
            }
        } else if value == 0 {
            CaptureView { held: self.held.remove(key), ..self }
        } else {
            self
        };
        (
            after,
            if after.held == Set::<u16>::empty() {
                after.combo
            } else {
                None
            },
        )
    }
}

impl Capture {
    pub fn new() -> (r: Self)
        ensures
            r@ == (CaptureView { held: Set::empty(), combo: None }),
    {
        let r = Capture { held: Vec::new(), combo: None };
        assert(r@.held =~= Set::empty());
        r
    }

    /// A key event: `value` is 1 for a press, 0 for a release, 2 for a repeat.
    pub fn on_key(&mut self, key: u16, value: i32) -> (r: Option<KeyCombo>)
        ensures
            (final(self)@, r) == old(self)@.stepped(key, value),
    {
        let ghost before = self@;
        if value == 1 {
            proof {
                keys::lemma_push_set(self.held@, key);
            }
            self.held.push(key);
            if self.combo.is_none() && keys::modifier_of(key).is_none() {
                self.combo = Some(KeyCombo { mods: Mods::from_held(self.held.as_slice()), key });
            }
            assert(self@ =~= before.stepped(key, value).0);
        } else if value == 0 {
            self.release(key);
        }
        if self.held.len() == 0 {
            assert(self@.held =~= Set::empty());
            self.combo
        } else {
            assert(self@.held.contains(self.held@[0]));
            None
        }
    }

    fn release(&mut self, key: u16)
        ensures
            final(self)@ == (CaptureView { held: old(self)@.held.remove(key), ..old(self)@ }),
    {
        let ghost all = self.held@;
        let mut kept: Vec<u16> = Vec::new();
        let mut i: usize = 0;
        assert(kept@.to_set() =~= all.take(0).to_set().remove(key));
        while i < self.held.len()
            invariant
                i <= self.held@.len(),
                all == self.held@,
                kept@.to_set() == all.take(i as int).to_set().remove(key),
            decreases self.held@.len() - i,
        {
            let k: u16 = self.held[i];
            proof {
                assert(all.take(i + 1) =~= all.take(i as int).push(k));
                keys::lemma_push_set(all.take(i as int), k);
                keys::lemma_push_set(kept@, k);
            }
            if k != key {
                kept.push(k);
            }
            assert(kept@.to_set() =~= all.take(i + 1).to_set().remove(key));
            i = i + 1;
        }
        assert(all.take(i as int) =~= all);
        self.held = kept;
    }
}

/// The combo is decided by the first press of a key that is no modifier;
/// nothing that happens later changes it.
pub proof fn law_first_key_decides(c: CaptureView, key: u16, value: i32)
    requires
        c.combo is Some,
    ensures
        c.stepped(key, value).0.combo == c.combo,
        c.stepped(key, value).1 is Some ==> c.stepped(key, value).1 == c.combo,
{
}

/// A combo is handed out only once every key is up, and never with a modifier
/// as its key.
pub proof fn law_capture_ends_with_all_keys_up(c: CaptureView, key: u16, value: i32)
    requires
        c.combo matches Some(combo) ==> keys::modifier_of_key(combo.key) is None,
    ensures
        c.stepped(key, value).1 matches Some(combo) ==> c.stepped(key, value).0.held == Set::<
            u16,
        >::empty() && keys::modifier_of_key(combo.key) is None,
{
}

/// Arguments are read from the front: one command at most, a config path any
/// number of times, the last of them counting; help or anything unknown ends
/// the reading.
pub proof fn law_tool_arguments(
    config: Seq<char>,
    command: Option<bool>,
    word: Seq<char>,
    rest: Seq<Seq<char>>,
)
    ensures
        tool_asked(Seq::empty(), config, Some(true)) == ToolView::Add(config),
        tool_asked(Seq::empty(), config, Some(false)) == ToolView::Capture,
        tool_asked(Seq::empty(), config, None) == ToolView::NoCommand,
        tool_asked(seq!["--config"@, word] + rest, config, command) == tool_asked(
            rest,
            word,
            command,
        ),
        tool_asked(seq!["--config"@], config, command) == ToolView::ConfigNeedsPath,
        tool_asked(seq!["--help"@] + rest, config, command) == ToolView::Help,
        tool_asked(seq!["-h"@] + rest, config, command) == ToolView::Help,
        tool_asked(seq!["capture"@] + rest, config, None) == tool_asked(rest, config, Some(false)),
        tool_asked(seq!["add"@] + rest, config, None) == tool_asked(rest, config, Some(true)),
        command is Some ==> tool_asked(seq!["capture"@] + rest, config, command)
            == ToolView::Unknown("capture"@),
        command is Some ==> tool_asked(seq!["add"@] + rest, config, command) == ToolView::Unknown(
            "add"@,
        ),
        word != "--config"@ && word != "--help"@ && word != "-h"@ && word != "capture"@ && word
            != "add"@ ==> tool_asked(seq![word] + rest, config, command) == ToolView::Unknown(word),
        DEFAULT_CONFIG@ == "config.toml"@,
{
    reveal_strlit("--config");
    reveal_strlit("--help");
    reveal_strlit("-h");
    reveal_strlit("capture");
    reveal_strlit("add");
    assert("--config"@.len() == 8 && "--help"@.len() == 6 && "-h"@.len() == 2);
    assert("capture"@.len() == 7 && "add"@.len() == 3);
    assert((seq!["--config"@, word] + rest).skip(2) =~= rest);
    assert((seq!["capture"@] + rest).skip(1) =~= rest);
    assert((seq!["add"@] + rest).skip(1) =~= rest);
    assert((seq!["--config"@, word] + rest)[0] == "--config"@);
    assert((seq!["capture"@] + rest)[0] == "capture"@);
    assert((seq!["add"@] + rest)[0] == "add"@);
    assert((seq!["--help"@] + rest)[0] == "--help"@);
    assert((seq!["-h"@] + rest)[0] == "-h"@);
    assert((seq![word] + rest)[0] == word);
}

/// A press counts as held until its release; the first key pressed that is no
/// modifier makes the combo, with the modifiers held then; repeats count for
/// nothing.
pub proof fn law_capturing(c: CaptureView, key: u16)
    ensures
        c.stepped(key, 1).0.held == c.held.insert(key),
        c.stepped(key, 1).1 is None,
        c.combo is None && keys::modifier_of_key(key) is None ==> c.stepped(key, 1).0.combo == Some(
            KeyCombo { mods: keys::mods_in(c.held.insert(key)), key },
        ),
        c.combo is Some || keys::modifier_of_key(key) is Some ==> c.stepped(key, 1).0.combo
            == c.combo,
        c.stepped(key, 0).0.held == c.held.remove(key),
        c.stepped(key, 0).0.combo == c.combo,
        (forall|k: u16| c.held.contains(k) ==> k == key) ==> c.stepped(key, 0).1 == c.combo,
        (exists|k: u16| c.held.contains(k) && k != key) ==> c.stepped(key, 0).1 is None,
        c.stepped(key, 2).0 == c,
{
    assert(c.held.insert(key).contains(key));
    if forall|k: u16| c.held.contains(k) ==> k == key {
        assert(c.held.remove(key) =~= Set::<u16>::empty());
    }
    if exists|k: u16| c.held.contains(k) && k != key {
        let k = choose|k: u16| c.held.contains(k) && k != key;
        assert(c.held.remove(key).contains(k));
    }
}

} // verus!
