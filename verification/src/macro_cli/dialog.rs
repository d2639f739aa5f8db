//! The questions of `km-hub macro add`: a combo, then a name, the command, how
//! to run it and a timeout.

use toml_edit::DocumentMut;
use vstd::prelude::*;

use crate::config::{CommandView, HookCommand};
use crate::input::keys::KeyCombo;
use crate::macro_cli::document;
use crate::macro_cli::document::{
    existing_macro, upsert_macro, MacroEntry, MacroEntryView, MacroError,
    DEFAULT_TIMEOUT_SECS, MACRO,
};
use crate::text;

verus! {

broadcast use vstd::seq::group_seq_axioms;

/// What is asked next.
#[derive(Debug, Clone, Copy, PartialEq, Eq, Structural)]
pub enum Stage {
    /// Capture a combo.
    Combo,
    /// The combo is already bound: replace that macro?
    Replace,
    Name,
    Command,
    /// Run it through a shell?
    Shell,
    /// Exec'd directly, split on whitespace: is that right?
    Split,
    Timeout,
    /// Everything is known.
    Done,
}

/// What to tell about an answer.
#[derive(Debug, Clone, PartialEq, Eq)]
pub enum Note {
    /// Nothing.
    Fine,
    /// The combo belongs to slot switching: try another.
    Reserved,
    /// The combo is bound by the macro of this label.
    Taken(String),
    /// The combo is chosen; `bare` without a modifier, so that key alone will
    /// run the macro and never reach any target.
    Chosen { bare: bool },
    /// The bound macro stays: press another combo.
    Kept,
    /// The command cannot be empty.
    EmptyCommand,
    /// The question is asked again.
    Again,
    /// Arguments containing spaces are to be edited by hand.
    EditByHand,
    /// A whole number of seconds from 1 to 300 is wanted.
    BadTimeout,
}

/// The content of a [`Note`].
pub enum NoteView {
    Fine,
    Reserved,
    Taken(Seq<char>),
    Chosen { bare: bool },
    Kept,
    EmptyCommand,
    Again,
    EditByHand,
    BadTimeout,
}

impl View for Note {
    type V = NoteView;

    open spec fn view(&self) -> NoteView {
        match self {
            Note::Fine => NoteView::Fine,
            Note::Reserved => NoteView::Reserved,
            Note::Taken(label) => NoteView::Taken(label@),
            Note::Chosen { bare } => NoteView::Chosen { bare: *bare },
            Note::Kept => NoteView::Kept,
            Note::EmptyCommand => NoteView::EmptyCommand,
            Note::Again => NoteView::Again,
            Note::EditByHand => NoteView::EditByHand,
            Note::BadTimeout => NoteView::BadTimeout,
        }
    }
}

/// The longest timeout that can be asked for.
pub const MAX_TIMEOUT_SECS: u64 = 300;

/// What was asked and answered so far.
pub struct Dialog {
    doc: DocumentMut,
    stage: Stage,
    combo: Option<KeyCombo>,
    replace: bool,
    name: Option<String>,
    line: String,
    command: Option<HookCommand>,
    timeout_secs: u64,
}

/// The state of a [`Dialog`].
#[verifier::ext_equal]
pub struct DialogView {
    pub doc: DocumentMut,
    pub stage: Stage,
    pub combo: Option<KeyCombo>,
    /// The macro bound to the combo is to be replaced.
    pub replace: bool,
    pub name: Option<Seq<char>>,
    /// The command line as it was typed.
    pub line: Seq<char>,
    pub command: Option<CommandView>,
    pub timeout_secs: u64,
}

impl View for Dialog {
    type V = DialogView;

    closed spec fn view(&self) -> DialogView {
        DialogView {
            doc: self.doc,
            stage: self.stage,
            combo: self.combo,
            replace: self.replace,
            name: text::opt_text(self.name),
            line: self.line@,
            command: match self.command {
                Some(c) => Some(c@),
                None => None,
            },
            timeout_secs: self.timeout_secs,
        }
    }
}

/// `y` or `yes`, in any case.
pub open spec fn says_yes(answer: Seq<char>) -> bool {
    text::same_ignoring_case(answer, "y"@) || text::same_ignoring_case(answer, "yes"@)
}

/// `n` or `no`, in any case.
pub open spec fn says_no(answer: Seq<char>) -> bool {
    text::same_ignoring_case(answer, "n"@) || text::same_ignoring_case(answer, "no"@)
}

/// Nothing, `y` or `yes`.
pub open spec fn agrees(answer: Seq<char>) -> bool {
    answer.len() == 0 || says_yes(answer)
}

fn is_yes(answer: &str) -> (r: bool)
    ensures
        r == says_yes(answer@),
{
    text::eq_ignore_case(answer, "y") || text::eq_ignore_case(answer, "yes")
}

fn is_no(answer: &str) -> (r: bool)
    ensures
        r == says_no(answer@),
{
    text::eq_ignore_case(answer, "n") || text::eq_ignore_case(answer, "no")
}

fn is_nothing(answer: &str) -> (r: bool)
    ensures
        r == (answer@.len() == 0),
{
    text::chars_of(answer).len() == 0
}

/// The timeout an answer asks for: the default for no answer, otherwise a
/// number from 1 to 300.
pub open spec fn timeout_asked(answer: Seq<char>) -> Option<u64> {
    if answer.len() == 0 {
        Some(DEFAULT_TIMEOUT_SECS)
    } else {
        match text::parsed_u64(answer) {
            Some(secs) => if 1 <= secs <= MAX_TIMEOUT_SECS {
                Some(secs)
            } else {
                None
            },
            None => None,
        }
    }
}

impl DialogView {
    /// What is known at each stage.
    pub open spec fn wf(self) -> bool {
        &&& self.stage != Stage::Combo ==> self.combo is Some
        &&& self.combo matches Some(c) ==> !c.reserved()
        &&& self.stage == Stage::Shell ==> !text::is_blank(self.line)
        &&& (self.stage == Stage::Split || self.stage == Stage::Timeout || self.stage
            == Stage::Done) ==> (self.command matches Some(c) && c.runnable())
        &&& 1 <= self.timeout_secs <= MAX_TIMEOUT_SECS
        &&& self.stage != Stage::Combo && self.stage != Stage::Replace && !self.replace ==> (
        self.combo matches Some(c) && document::first_bound(
            document::tables_at(self.doc, MACRO@),
            c,
        ) is None)
    }

    /// After a combo was captured.
    pub open spec fn after_combo(self, combo: KeyCombo) -> (DialogView, NoteView) {
        let tables = document::tables_at(self.doc, MACRO@);
        if combo.reserved() {
            (self, NoteView::Reserved)
        } else {
            match document::first_bound(tables, combo) {
                Some(i) => (
                    DialogView { stage: Stage::Replace, combo: Some(combo), ..self },
                    NoteView::Taken(
                        match document::field_text(tables[i], document::NAME@) {
                            Some(name) => name,
                            None => combo.spelling(),
                        },
                    ),
                ),
                None => (
                    DialogView {
                        stage: Stage::Name,
                        combo: Some(combo),
                        replace: false,
                        ..self
                    },
                    NoteView::Chosen { bare: !combo.mods.ctrl && !combo.mods.alt
                        && !combo.mods.shift && !combo.mods.sup },
                ),
            }
        }
    }

    /// After a question was answered; `answer` without blanks around it.
    pub open spec fn after_answer(self, answer: Seq<char>) -> (DialogView, NoteView) {
        match self.stage {
            Stage::Combo => (self, NoteView::Fine),
            Stage::Done => (self, NoteView::Fine),
            Stage::Replace => if says_yes(answer) {
                (
                    DialogView { stage: Stage::Name, replace: true, ..self },
                    NoteView::Chosen { bare: self.combo matches Some(c) && !c.mods.ctrl
                        && !c.mods.alt && !c.mods.shift && !c.mods.sup },
                )
            } else {
                (DialogView { stage: Stage::Combo, ..self }, NoteView::Kept)
            },
            Stage::Name => (
                DialogView {
                    stage: Stage::Command,
                    name: if answer.len() == 0 {
                        None
                    } else {
                        Some(answer)
                    },
                    ..self
                },
                NoteView::Fine,
            ),
            Stage::Command => if answer.len() == 0 {
                (self, NoteView::EmptyCommand)
            } else {
                (DialogView { stage: Stage::Shell, line: answer, ..self }, NoteView::Fine)
            },
            Stage::Shell => if agrees(answer) {
                (
                    DialogView {
                        stage: Stage::Timeout,
                        command: Some(CommandView::Shell(self.line)),
                        ..self
                    },
                    NoteView::Fine,
                )
            } else if says_no(answer) {
                (
                    DialogView {
                        stage: Stage::Split,
                        command: Some(CommandView::Argv(text::words(self.line))),
                        ..self
                    },
                    NoteView::Fine,
                )
            } else {
                (self, NoteView::Again)
            },
            Stage::Split => (
                DialogView { stage: Stage::Timeout, ..self },
                if agrees(answer) {
                    NoteView::Fine
                } else {
                    NoteView::EditByHand
                },
            ),
            Stage::Timeout => match timeout_asked(answer) {
                Some(secs) => (
                    DialogView { stage: Stage::Done, timeout_secs: secs, ..self },
                    NoteView::Fine,
                ),
                None => (self, NoteView::BadTimeout),
            },
        }
    }

    /// The macro that was described.
    pub open spec fn entry(self) -> MacroEntryView {
        MacroEntryView {
            combo: self.combo->0,
            name: self.name,
            command: self.command->0,
            timeout_secs: self.timeout_secs,
        }
    }
}

/// The outcome of a dialog.
#[derive(Debug, Clone, PartialEq, Eq)]
pub struct Edited {
    /// The config file with the macro in it.
    pub text: String,
    /// The macro as it stands there.
    pub entry: String,
    /// It replaces another.
    pub replaced: bool,
}

impl Dialog {
    /// Start on the text of a config file; the message where it is no TOML.
    pub fn new(config: &str) -> (r: Result<Self, String>)
        ensures
            match document::toml_parsed(config@) {
                Ok(doc) => r matches Ok(d) && d@ == (DialogView {
                    doc,
                    stage: Stage::Combo,
                    combo: None,
                    replace: false,
                    name: None,
                    line: Seq::empty(),
                    command: None,
                    timeout_secs: DEFAULT_TIMEOUT_SECS,
                }) && d@.wf(),
                Err(message) => r matches Err(m) && m@ == message,
            },
    {
        match document::parse_document(config) {
            Ok(doc) => {
                let line = String::new();
                assert(line@ =~= Seq::empty());
                Ok(
                    Dialog {
                        doc,
                        stage: Stage::Combo,
                        combo: None,
                        replace: false,
                        name: None,
                        line,
                        command: None,
                        timeout_secs: DEFAULT_TIMEOUT_SECS,
                    },
                )
            },
            Err(message) => Err(message),
        }
    }

    /// What is asked next.
    pub fn stage(&self) -> (r: Stage)
        ensures
            r == self@.stage,
    {
        self.stage
    }

    /// The combo, to show in questions.
    pub fn combo(&self) -> (r: Option<KeyCombo>)
        ensures
            r == self@.combo,
    {
        self.combo
    }

    /// The command, to show in questions.
    pub fn command(&self) -> (r: Option<&HookCommand>)
        ensures
            r matches Some(c) ==> self@.command == Some(c@),
            r is None ==> self@.command is None,
    {
        match &self.command {
            Some(c) => Some(c),
            None => None,
        }
    }

    /// A combo was captured.
    pub fn on_combo(&mut self, combo: KeyCombo) -> (r: Note)
        requires
            old(self)@.wf(),
            old(self)@.stage == Stage::Combo,
        ensures
            (final(self)@, r@) == old(self)@.after_combo(combo),
            final(self)@.wf(),
    {
        let ghost before = self@;
        if combo.is_reserved() {
            return Note::Reserved;
        }
        match existing_macro(&self.doc, combo) {
            Some(label) => {
                self.combo = Some(combo);
                self.stage = Stage::Replace;
                Note::Taken(label)
            },
            None => {
                self.combo = Some(combo);
                self.replace = false;
                self.stage = Stage::Name;
                Note::Chosen { bare: combo.mods.is_empty() }
            },
        }
    }

    /// A question was answered with this line.
    pub fn on_answer(&mut self, line: &str) -> (r: Note)
        requires
            old(self)@.wf(),
            old(self)@.stage != Stage::Combo,
            old(self)@.stage != Stage::Done,
        ensures
            (final(self)@, r@) == old(self)@.after_answer(text::trim(line@)),
            final(self)@.wf(),
    {
        let ghost before = self@;
        let answer = text::trimmed(line);
        match self.stage {
            Stage::Combo => Note::Fine,
            Stage::Done => Note::Fine,
            Stage::Replace => {
                if is_yes(answer.as_str()) {
                    self.replace = true;
                    self.stage = Stage::Name;
                    let bare = match self.combo {
                        Some(c) => c.mods.is_empty(),
                        None => false,
                    };
                    Note::Chosen { bare }
                } else {
                    self.stage = Stage::Combo;
                    Note::Kept
                }
            },
            Stage::Name => {
                self.name = if is_nothing(answer.as_str()) {
                    None
                } else {
                    Some(answer)
                };
                self.stage = Stage::Command;
                Note::Fine
            },
            Stage::Command => {
                if is_nothing(answer.as_str()) {
                    return Note::EmptyCommand;
                }
                proof {
                    text::lemma_trim_is_not_blank(line@);
                }
                self.line = answer;
                self.stage = Stage::Shell;
                Note::Fine
            },
            Stage::Shell => {
                if is_nothing(answer.as_str()) || is_yes(answer.as_str()) {
                    self.command = Some(HookCommand::Shell(self.line.clone()));
                    self.stage = Stage::Timeout;
                    Note::Fine
                } else if is_no(answer.as_str()) {
                    let argv = text::split_words(self.line.as_str());
                    proof {
                        text::lemma_words_of_text(self.line@);
                    }
                    self.command = Some(HookCommand::Argv(argv));
                    self.stage = Stage::Split;
                    Note::Fine
                } else {
                    Note::Again
                }
            },
            Stage::Split => {
                self.stage = Stage::Timeout;
                if is_nothing(answer.as_str()) || is_yes(answer.as_str()) {
                    Note::Fine
                } else {
                    Note::EditByHand
                }
            },
            Stage::Timeout => {
                if is_nothing(answer.as_str()) {
                    self.timeout_secs = DEFAULT_TIMEOUT_SECS;
                    self.stage = Stage::Done;
                    return Note::Fine;
                }
                match text::parse_u64(answer.as_str()) {
                    Some(secs) => if 1 <= secs && secs <= MAX_TIMEOUT_SECS {
                        self.timeout_secs = secs;
                        self.stage = Stage::Done;
                        Note::Fine
                    } else {
                        Note::BadTimeout
                    },
                    None => Note::BadTimeout,
                }
            },
        }
    }

    /// Put the macro into the config. Only a `macro` key that is no array of
    /// tables is in the way.
    pub fn finish(self) -> (r: Result<Edited, MacroError>)
        requires
            self@.wf(),
            self@.stage == Stage::Done,
        ensures
            r is Ok <==> (!document::entry_kinds(self@.doc).contains_key(MACRO@)
                || document::entry_kinds(self@.doc)[MACRO@]),
            r is Err ==> r == Err::<Edited, MacroError>(MacroError::NotTables),
            r matches Ok(edited) ==> {
                &&& edited.replaced == self@.replace
                &&& exists|doc: DocumentMut| #[trigger]
                    document::document_text(doc) == edited.text@ && document::macro_written(
                        self@.doc,
                        doc,
                        self@.entry(),
                        self@.replace,
                    )
                &&& exists|doc: DocumentMut| #[trigger]
                    document::document_text(doc) == edited.entry@ && document::tables_at(
                        doc,
                        MACRO@,
                    ) == seq![document::filled(document::no_fields(), self@.entry())]
                        && document::entry_kinds(doc) == document::no_entries().insert(MACRO@, true)
            },
    {
        let ghost before = self@;
        let mut doc = self.doc;
        match (self.combo, self.command) {
            (Some(combo), Some(command)) => {
                let entry = MacroEntry {
                    combo,
                    name: self.name,
                    command,
                    timeout_secs: self.timeout_secs,
                };
                assert(entry@ == before.entry());
                proof {
                    document::law_one_macro_is_written(
                        document::macros_of(before.doc),
                        entry@,
                        before.replace,
                    );
                }
                match upsert_macro(&mut doc, &entry, self.replace) {
                    Ok(()) => {},
                    Err(e) => {
                        return Err(e);
                    },
                }
                let text = document::document_to_string(&doc);
                let shown = document::render_entry(&entry);
                Ok(Edited { text, entry: shown, replaced: self.replace })
            },
            _ => Err(MacroError::NotTables),
        }
    }
}

/// A dialog that is done describes a macro that the config accepts: with a
/// combo that is not reserved, something to run, and a timeout in range.
pub proof fn law_described_macros_are_valid(d: DialogView)
    requires
        d.wf(),
        d.stage == Stage::Done,
    ensures
        !d.entry().combo.reserved(),
        d.entry().command.runnable(),
        1 <= d.entry().timeout_secs <= MAX_TIMEOUT_SECS,
{
}

/// A macro that is bound already is never written over unless that was agreed
/// to.
pub proof fn law_replacing_is_agreed_to(d: DialogView)
    requires
        d.wf(),
        d.stage == Stage::Done,
        document::first_bound(document::tables_at(d.doc, MACRO@), d.entry().combo) is Some,
    ensures
        d.replace,
{
}

/// Yes and no, in any case; nothing counts as agreement where yes is the
/// default.
#[verifier::rlimit(30)]
pub proof fn law_yes_and_no(answer: Seq<char>)
    ensures
        says_yes("y"@) && says_yes("Y"@) && says_yes("yes"@) && says_yes("YES"@),
        says_no("n"@) && says_no("N"@) && says_no("no"@) && says_no("NO"@),
        !(says_yes(answer) && says_no(answer)),
        agrees(Seq::empty()),
        agrees(answer) <==> answer.len() == 0 || says_yes(answer),
        answer.len() == 0 ==> !says_yes(answer) && !says_no(answer),
        says_yes(answer) ==> answer.len() == 1 || answer.len() == 3,
        says_no(answer) ==> answer.len() == 1 || answer.len() == 2,
{
    reveal_strlit("y");
    reveal_strlit("Y");
    reveal_strlit("yes");
    reveal_strlit("YES");
    reveal_strlit("n");
    reveal_strlit("N");
    reveal_strlit("no");
    reveal_strlit("NO");
    text::law_text_case("y"@, "y"@);
    text::law_text_case("Y"@, "y"@);
    text::law_text_case("yes"@, "yes"@);
    text::law_text_case("YES"@, "yes"@);
    text::law_text_case("n"@, "n"@);
    text::law_text_case("N"@, "n"@);
    text::law_text_case("no"@, "no"@);
    text::law_text_case("NO"@, "no"@);
    text::law_text_case(answer, "y"@);
    text::law_text_case(answer, "yes"@);
    text::law_text_case(answer, "n"@);
    text::law_text_case(answer, "no"@);
    if says_yes(answer) && says_no(answer) {
        assert(text::ascii_lower(answer[0]) == 'y');
        assert(text::ascii_lower(answer[0]) == 'n');
    }
}

/// A timeout is ten seconds where none is given, else a number from 1 to 300.
pub proof fn law_timeouts_asked(answer: Seq<char>)
    ensures
        answer.len() == 0 ==> timeout_asked(answer) == Some(10u64),
        answer.len() > 0 && text::parsed_u64(answer) is Some && 1 <= text::parsed_u64(answer)->0
            <= 300 ==> timeout_asked(answer) == text::parsed_u64(answer),
        answer.len() > 0 && (text::parsed_u64(answer) is None || text::parsed_u64(answer)->0 == 0
            || text::parsed_u64(answer)->0 > 300) ==> timeout_asked(answer) is None,
        MAX_TIMEOUT_SECS == 300,
        DEFAULT_TIMEOUT_SECS == 10,
{
}

/// A combo that switches slots is turned down; one that is bound is asked
/// about; any other is taken, with a word where no modifier guards it.
pub proof fn law_combos_offered(d: DialogView, combo: KeyCombo)
    ensures
        ({
            let (after, note) = d.after_combo(combo);
            let bound = document::first_bound(document::tables_at(d.doc, MACRO@), combo);
            &&& combo.reserved() ==> after == d && note == NoteView::Reserved
            &&& !combo.reserved() && bound is Some ==> after.stage == Stage::Replace && after.combo
                == Some(combo) && note is Taken
            &&& !combo.reserved() && bound is None ==> after.stage == Stage::Name && after.combo
                == Some(combo) && !after.replace && note == (NoteView::Chosen {
                bare: !(combo.mods.ctrl || combo.mods.alt || combo.mods.shift || combo.mods.sup),
            })
            &&& after.doc == d.doc && after.name == d.name && after.line == d.line && after.command
                == d.command && after.timeout_secs == d.timeout_secs
        }),
{
}

/// Each answer settles what was asked and nothing else, and leads to the next
/// question; one that does not do is asked for again.
#[verifier::rlimit(30)]
pub proof fn law_answers(d: DialogView, answer: Seq<char>)
    ensures
        ({
            let (after, note) = d.after_answer(answer);
            &&& d.stage == Stage::Replace && says_yes(answer) ==> after == (DialogView {
                stage: Stage::Name,
                replace: true,
                ..d
            })
            &&& d.stage == Stage::Replace && !says_yes(answer) ==> after == (DialogView {
                stage: Stage::Combo,
                ..d
            }) && note == NoteView::Kept
            &&& d.stage == Stage::Name && answer.len() > 0 ==> after == (DialogView {
                stage: Stage::Command,
                name: Some(answer),
                ..d
            })
            &&& d.stage == Stage::Name && answer.len() == 0 ==> after == (DialogView {
                stage: Stage::Command,
                name: None,
                ..d
            })
            &&& d.stage == Stage::Command && answer.len() > 0 ==> after == (DialogView {
                stage: Stage::Shell,
                line: answer,
                ..d
            })
            &&& d.stage == Stage::Command && answer.len() == 0 ==> after == d && note
                == NoteView::EmptyCommand
            &&& d.stage == Stage::Shell && agrees(answer) ==> after == (DialogView {
                stage: Stage::Timeout,
                command: Some(CommandView::Shell(d.line)),
                ..d
            })
            &&& d.stage == Stage::Shell && says_no(answer) ==> after == (DialogView {
                stage: Stage::Split,
                command: Some(CommandView::Argv(text::words(d.line))),
                ..d
            })
            &&& d.stage == Stage::Shell && !agrees(answer) && !says_no(answer) ==> after == d
                && note == NoteView::Again
            &&& d.stage == Stage::Split ==> after == (DialogView { stage: Stage::Timeout, ..d })
            &&& d.stage == Stage::Split && !agrees(answer) ==> note == NoteView::EditByHand
            &&& d.stage == Stage::Timeout && timeout_asked(answer) is Some ==> after == (DialogView {
                stage: Stage::Done,
                timeout_secs: timeout_asked(answer)->0,
                ..d
            })
            &&& d.stage == Stage::Timeout && timeout_asked(answer) is None ==> after == d && note
                == NoteView::BadTimeout
            &&& d.stage == Stage::Combo || d.stage == Stage::Done ==> after == d
        }),
{
    law_yes_and_no(answer);
}

/// The macro described is made of the answers.
pub proof fn law_entry_is_the_answers(d: DialogView)
    requires
        d.combo is Some,
        d.command is Some,
    ensures
        Some(d.entry().combo) == d.combo,
        d.entry().name == d.name,
        Some(d.entry().command) == d.command,
        d.entry().timeout_secs == d.timeout_secs,
{
}

} // verus!
