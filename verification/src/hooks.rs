//! Slot hooks and macros: user commands run when a slot is activated with
//! Ctrl+Alt+Shift+F<n> or when a macro combo is pressed.
//!
//! km-hub knows nothing about what a hook does — it spawns the command and
//! forgets about it. That keeps the hub generic: pointing a hook at `curl`,
//! `hass-cli` or a shell script is the user's business, not the tool's.
//!
//! Same contract as the lighting task: a hook can neither delay nor block a
//! switch. Events are handed over without waiting, every command runs in its
//! own task under a timeout, and every failure is a log line and nothing more.

use vstd::prelude::*;

use crate::config::{CommandView, Hook, HookCommand};
use crate::text;

verus! {

broadcast use {vstd::seq::group_seq_axioms, vstd::string::group_string_axioms};

/// Ceiling on concurrently running hooks. Reached only if commands hang while
/// slots are switched repeatedly; skipping beats forking without bound on a Pi.
pub const MAX_IN_FLIGHT: usize = 16;

/// What asks for commands to run.
#[derive(Debug, Clone, Copy, PartialEq, Eq, Structural)]
pub enum HookEvent {
    /// A slot's hook combo was pressed, whether or not it also changed the
    /// active target.
    Slot(u8),
    /// The macro at this index of the configured list was pressed.
    Macro(usize),
}

/// Which commands an event starts, by position in the list they come from.
pub struct Selection {
    /// To be spawned, in order.
    pub run: Vec<usize>,
    /// Left out: too many are still running.
    pub skipped: Vec<usize>,
}

/// The hooks of a slot, by position.
pub open spec fn hooks_for(hooks: Seq<Hook>, slot: u8) -> Seq<int>
    decreases hooks.len(),
{
    if hooks.len() == 0 {
        Seq::empty()
    } else {
        let before = hooks_for(hooks.drop_last(), slot);
        if hooks.last().slot == slot {
            before.push(hooks.len() - 1)
        } else {
            before
        }
    }
}

/// How many of `wanted` may start while `running` are.
pub open spec fn room(running: int, wanted: int) -> int {
    if running >= MAX_IN_FLIGHT {
        0
    } else if wanted <= MAX_IN_FLIGHT - running {
        wanted
    } else {
        MAX_IN_FLIGHT - running
    }
}

/// The positions as numbers.
pub open spec fn positions(list: Seq<usize>) -> Seq<int> {
    Seq::new(list.len(), |i: int| list[i] as int)
}

/// The hooks to start for an activated slot while `running` commands are: its
/// hooks in order as far as there is room, the rest skipped.
pub fn select_hooks(hooks: &[Hook], slot: u8, running: usize) -> (r: Selection)
    ensures
        ({
            let wanted = hooks_for(hooks@, slot);
            let n = room(running as int, wanted.len() as int);
            &&& positions(r.run@) == wanted.take(n)
            &&& positions(r.skipped@) == wanted.skip(n)
        }),
{
    let mut run: Vec<usize> = Vec::new();
    let mut skipped: Vec<usize> = Vec::new();
    let mut i: usize = 0;
    assert(positions(run@) =~= Seq::empty());
    assert(positions(skipped@) =~= Seq::empty());
    while i < hooks.len()
        invariant
            i <= hooks@.len(),
            ({
                let wanted = hooks_for(hooks@.take(i as int), slot);
                let n = room(running as int, wanted.len() as int);
                &&& 0 <= n <= wanted.len()
                &&& positions(run@) == wanted.take(n)
                &&& positions(skipped@) == wanted.skip(n)
            }),
        decreases hooks@.len() - i,
    {
        let ghost before = hooks_for(hooks@.take(i as int), slot);
        let ghost after = hooks_for(hooks@.take(i + 1), slot);
        let ghost n = room(running as int, before.len() as int);
        assert(hooks@.take(i + 1).drop_last() =~= hooks@.take(i as int));
        if hooks[i].slot == slot {
            assert(after == before.push(i as int));
            let ghost ran = run@;
            let ghost left = skipped@;
            assert(run@.len() == n) by {
                assert(positions(run@).len() == n);
            }
            if running < MAX_IN_FLIGHT && run.len() < MAX_IN_FLIGHT - running {
                run.push(i);
                assert(n == before.len());
                assert(positions(run@) =~= positions(ran).push(i as int));
                assert(after.take(n + 1) =~= before.take(n).push(i as int));
                assert(after.skip(n + 1) =~= before.skip(n));
            } else {
                skipped.push(i);
                assert(positions(skipped@) =~= positions(left).push(i as int));
                assert(after.take(n) =~= before.take(n));
                assert(after.skip(n) =~= before.skip(n).push(i as int));
            }
        } else {
            assert(after == before);
        }
        i = i + 1;
    }
    assert(hooks@.take(i as int) =~= hooks@);
    Selection { run, skipped }
}

/// Whether a pressed macro is started: it exists, and there is room.
pub fn select_macro(count: usize, index: usize, running: usize) -> (r: bool)
    ensures
        r == (index < count && room(running as int, 1) == 1),
{
    index < count && running < MAX_IN_FLIGHT
}

/// Only the activated slot's hooks run, each at most once, and never more than
/// the ceiling at a time.
pub proof fn law_selection_is_bounded(hooks: Seq<Hook>, slot: u8, running: int)
    requires
        running >= 0,
    ensures
        ({
            let wanted = hooks_for(hooks, slot);
            let n = room(running, wanted.len() as int);
            &&& 0 <= n <= wanted.len()
            &&& running <= MAX_IN_FLIGHT ==> running + n <= MAX_IN_FLIGHT
            &&& running + wanted.len() <= MAX_IN_FLIGHT ==> n == wanted.len()
            &&& forall|i: int|
                0 <= i < wanted.len() ==> 0 <= #[trigger] wanted[i] < hooks.len()
                    && hooks[wanted[i]].slot == slot
            &&& forall|i: int, j: int|
                0 <= i < j < wanted.len() ==> #[trigger] wanted[i] < #[trigger] wanted[j]
        }),
{
    lemma_hooks_for(hooks, slot);
}

/// Every hook of the slot is wanted.
pub proof fn law_every_hook_of_the_slot_is_wanted(hooks: Seq<Hook>, slot: u8, i: int)
    requires
        0 <= i < hooks.len(),
        hooks[i].slot == slot,
    ensures
        hooks_for(hooks, slot).contains(i),
    decreases hooks.len(),
{
    let before = hooks_for(hooks.drop_last(), slot);
    let all = hooks_for(hooks, slot);
    if i == hooks.len() - 1 {
        assert(all[before.len() as int] == i);
    } else {
        law_every_hook_of_the_slot_is_wanted(hooks.drop_last(), slot, i);
        let j = choose|j: int| 0 <= j < before.len() && before[j] == i;
        assert(all[j] == i);
    }
}

proof fn lemma_hooks_for(hooks: Seq<Hook>, slot: u8)
    ensures
        forall|i: int|
            0 <= i < hooks_for(hooks, slot).len() ==> 0 <= #[trigger] hooks_for(hooks, slot)[i]
                < hooks.len() && hooks[hooks_for(hooks, slot)[i]].slot == slot,
        forall|i: int, j: int|
            0 <= i < j < hooks_for(hooks, slot).len() ==> #[trigger] hooks_for(hooks, slot)[i]
                < #[trigger] hooks_for(hooks, slot)[j],
    decreases hooks.len(),
{
    if hooks.len() > 0 {
        lemma_hooks_for(hooks.drop_last(), slot);
        let before = hooks_for(hooks.drop_last(), slot);
        let all = hooks_for(hooks, slot);
        assert forall|i: int| 0 <= i < all.len() implies 0 <= #[trigger] all[i] < hooks.len()
            && hooks[all[i]].slot == slot by {
            if i < before.len() {
                assert(all[i] == before[i]);
                assert(hooks.drop_last()[before[i]] == hooks[before[i]]);
            }
        }
        assert forall|i: int, j: int| 0 <= i < j < all.len() implies #[trigger] all[i]
            < #[trigger] all[j] by {
            assert(all[i] == before[i]);
            if j < before.len() {
                assert(all[j] == before[j]);
            }
        }
    }
}

/// A program and its arguments.
#[derive(Debug, Clone, PartialEq, Eq)]
pub struct CommandLine {
    pub program: String,
    pub args: Vec<String>,
}

/// The program and arguments of a command: a string goes through `sh -c`, an
/// array is taken as it stands.
pub open spec fn command_line_of(command: CommandView) -> (Seq<char>, Seq<Seq<char>>) {
    match command {
        CommandView::Shell(line) => ("sh"@, seq!["-c"@, line]),
        CommandView::Argv(argv) => (argv[0], argv.skip(1)),
    }
}

/// The program to spawn for a command, and its arguments.
pub fn command_line(command: &HookCommand) -> (r: CommandLine)
    requires
        command@.runnable(),
    ensures
        (r.program@, text::texts(r.args@)) == command_line_of(command@),
{
    match command {
        // `sh -c` so the string may use $VARS, pipes and redirection.
        HookCommand::Shell(line) => {
            let mut args: Vec<String> = Vec::new();
            args.push("-c".to_owned());
            args.push(line.clone());
            assert(text::texts(args@) =~= seq!["-c"@, line@]);
            CommandLine { program: "sh".to_owned(), args }
        },
        HookCommand::Argv(argv) => {
            assert(text::texts(argv@).len() == argv@.len());
            let mut args: Vec<String> = Vec::new();
            let mut i: usize = 1;
            assert(text::texts(args@) =~= text::texts(argv@).subrange(1, 1));
            while i < argv.len()
                invariant
                    1 <= i <= argv@.len(),
                    text::texts(args@) == text::texts(argv@).subrange(1, i as int),
                decreases argv@.len() - i,
            {
                let ghost before = args@;
                let arg = argv[i].clone();
                args.push(arg);
                assert(text::texts(args@) =~= text::texts(before).push(arg@));
                assert(text::texts(argv@).subrange(1, i + 1) =~= text::texts(argv@).subrange(
                    1,
                    i as int,
                ).push(argv@[i as int]@));
                i = i + 1;
            }
            assert(text::texts(argv@).subrange(1, i as int) =~= text::texts(argv@).skip(1));
            CommandLine { program: argv[0].clone(), args }
        },
    }
}

/// Sixteen commands at most run at a time: as many more may start as fit below
/// that.
pub proof fn law_sixteen_at_a_time(running: int, wanted: int)
    requires
        0 <= running,
        0 <= wanted,
    ensures
        running >= 16 ==> room(running, wanted) == 0,
        running + wanted <= 16 ==> room(running, wanted) == wanted,
        running < 16 && running + wanted > 16 ==> room(running, wanted) == 16 - running,
{
}

/// A string is run by `sh -c`, whole; a list is run as its first element with
/// the others as arguments.
pub proof fn law_how_commands_are_run(command: CommandView, i: int)
    requires
        command.runnable(),
    ensures
        command is Shell ==> command_line_of(command).0 == "sh"@ && command_line_of(command).1
            == seq!["-c"@, command->Shell_0],
        command is Argv ==> command_line_of(command).0 == command->Argv_0[0] && command_line_of(
            command,
        ).1.len() == command->Argv_0.len() - 1,
        command is Argv && 1 <= i < command->Argv_0.len() ==> command_line_of(command).1[i - 1]
            == command->Argv_0[i],
{
}

} // verus!
