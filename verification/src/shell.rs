//! The shell's decisions around running a line: which builtin a command is,
//! where `cd` goes, what happens when a command cannot be started, the
//! commands that an alias stands for, and the shell's own arguments.

use vstd::prelude::*;
use vstd::string::*;
use crate::aliases::AliasTable;
use crate::commons::remember_command;
use crate::split::{split_defined, split_pieces, try_split_with_delimiter};
use crate::text::{str_eq, trim, trim_white, utf8, utf8_all, views};

verus! {

/// What a command is.
#[derive(Clone, Copy, Debug, PartialEq, Eq, Structural)]
pub enum CommandKind {
    Cd,
    Exit,
    Restart,
    ClearHistory,
    Alias,
    Ls,
    External,
}

/// The kind of the command named `name`.
pub open spec fn command_kind(name: Seq<char>) -> CommandKind {
    if name == "cd"@ {
        CommandKind::Cd
    } else if name == "exit"@ {
        CommandKind::Exit
    } else if name == "restart"@ {
        CommandKind::Restart
    } else if name == "clear-history"@ {
        CommandKind::ClearHistory
    } else if name == "alias"@ {
        CommandKind::Alias
    } else if name == "ls"@ {
        CommandKind::Ls
    } else {
        CommandKind::External
    }
}

/// A command is a builtin under its exact name alone: `cd`, `exit`,
/// `restart`, `clear-history`, `alias` and `ls` are those builtins, and every
/// other name is an external program.
pub proof fn builtins_by_exact_name(name: Seq<char>)
    ensures
        command_kind(name) == CommandKind::Cd <==> name == "cd"@,
        command_kind(name) == CommandKind::Exit <==> name == "exit"@,
        command_kind(name) == CommandKind::Restart <==> name == "restart"@,
        command_kind(name) == CommandKind::ClearHistory <==> name == "clear-history"@,
        command_kind(name) == CommandKind::Alias <==> name == "alias"@,
        command_kind(name) == CommandKind::Ls <==> name == "ls"@,
        command_kind(name) == CommandKind::External <==> !(name == "cd"@ || name == "exit"@ || name
            == "restart"@ || name == "clear-history"@ || name == "alias"@ || name == "ls"@),
{
    reveal_strlit("cd");
    reveal_strlit("exit");
    reveal_strlit("restart");
    reveal_strlit("clear-history");
    reveal_strlit("alias");
    reveal_strlit("ls");
    assert("cd"@.len() == 2 && "ls"@.len() == 2 && "exit"@.len() == 4 && "restart"@.len() == 7);
    assert("clear-history"@.len() == 13 && "alias"@.len() == 5);
    assert("cd"@[0] != "ls"@[0]);
    assert("cd"@ != "ls"@);
}

/// The kind of the command named `name` (see `command_kind`).
pub fn classify_command(name: &str) -> (r: CommandKind)
    ensures
        r == command_kind(name@),
{
    if str_eq(name, "cd") {
        CommandKind::Cd
    } else if str_eq(name, "exit") {
        CommandKind::Exit
    } else if str_eq(name, "restart") {
        CommandKind::Restart
    } else if str_eq(name, "clear-history") {
        CommandKind::ClearHistory
    } else if str_eq(name, "alias") {
        CommandKind::Alias
    } else if str_eq(name, "ls") {
        CommandKind::Ls
    } else {
        CommandKind::External
    }
}

/// Where `cd` goes: its first argument, or `home` without one.
pub fn cd_target(args: &[String], home: &str) -> (r: String)
    ensures
        args@.len() > 0 ==> r@ == args@[0]@,
        args@.len() == 0 ==> r@ == home@,
{
    if args.len() > 0 {
        args[0].clone()
    } else {
        home.to_owned()
    }
}

/// `s` without its surrounding white space, split at `delimiter` outside
/// quotes (see `split_pieces`); `None` where that split is not defined.
pub fn split_trimmed(s: &str, delimiter: &str) -> (r: Option<Vec<String>>)
    ensures
        r is Some <==> split_defined(utf8(trim_white(s@)), delimiter.spec_bytes()),
        r matches Some(v) ==> utf8_all(v@) == split_pieces(utf8(trim_white(s@)), delimiter.spec_bytes()),
{
    let t = trim(s);
    try_split_with_delimiter(t, delimiter)
}

/// What follows when a command could not be started.
#[derive(Debug)]
pub enum SpawnFailure {
    /// The command is an alias: these commands run in its place, in order.
    Expand(Vec<String>),
    /// No such command: the shell says so.
    NotFound,
    /// An empty command: nothing is said.
    Silent,
}

/// A command that could not be started: an alias is remembered among the
/// common commands and expands to the commands it stands for, split at
/// ` && `; any other non-empty command is reported as not found. `None` where
/// the alias's content cannot be split (see `split_defined`).
pub fn after_spawn_failure(aliases: &AliasTable, commons: &mut Vec<String>, command: &str) -> (r: Option<SpawnFailure>)
    ensures
        aliases@.dom().contains(command@) ==> {
            &&& views(old(commons)@).contains(command@) ==> final(commons)@ == old(commons)@
            &&& !views(old(commons)@).contains(command@) ==> views(final(commons)@) == views(old(commons)@).push(command@)
            &&& (r is Some <==> split_defined(utf8(trim_white(aliases@[command@].0)), " && ".spec_bytes()))
            &&& (r matches Some(outcome) ==> (outcome matches SpawnFailure::Expand(v)
                && utf8_all(v@) == split_pieces(utf8(trim_white(aliases@[command@].0)), " && ".spec_bytes())))
        },
        !aliases@.dom().contains(command@) ==> {
            &&& final(commons)@ == old(commons)@
            &&& command@.len() > 0 ==> (r matches Some(SpawnFailure::NotFound))
            &&& command@.len() == 0 ==> (r matches Some(SpawnFailure::Silent))
        },
{
    match aliases.get(command) {
        Some(content) => {
            remember_command(commons, command);
            match split_trimmed(content.as_str(), " && ") {
                Some(v) => Some(SpawnFailure::Expand(v)),
                None => None,
            }
        },
        None => {
            if command.is_empty() {
                Some(SpawnFailure::Silent)
            } else {
                Some(SpawnFailure::NotFound)
            }
        },
    }
}

/// The message for a command that was not found.
pub fn not_found_message(command: &str) -> (r: String)
    ensures
        r@ == "Command '"@ + command@ + "' was not found!"@,
{
    let mut m = "Command '".to_owned();
    m.append(command);
    m.append("' was not found!");
    m
}

/// The commands still to run before the rest of the line: those that aliases
/// expanded to.
pub struct PendingCommands {
    stack: Vec<String>,
}

impl View for PendingCommands {
    type V = Seq<Seq<char>>;

    /// The pending commands in the order in which they run.
    closed spec fn view(&self) -> Seq<Seq<char>> {
        views(self.stack@).reverse()
    }
}

impl PendingCommands {
    /// No pending commands.
    pub fn new() -> (r: PendingCommands)
        ensures
            r@ == Seq::<Seq<char>>::empty(),
    {
        let r = PendingCommands { stack: Vec::new() };
        assert(r@ =~= Seq::<Seq<char>>::empty());
        r
    }

    /// Whether no command is pending.
    pub fn is_empty(&self) -> (r: bool)
        ensures
            r == (self@.len() == 0),
    {
        self.stack.len() == 0
    }

    /// Puts `commands` before the pending ones, to run in their order.
    pub fn push_expansion(&mut self, commands: &[String])
        ensures
            final(self)@ == views(commands@) + old(self)@,
    {
        let mut k: usize = commands.len();
        while k > 0
            invariant
                k <= commands@.len(),
                self@ == views(commands@).skip(k as int) + old(self)@,
            decreases k,
        {
            let ghost before = self.stack@;
            self.stack.push(commands[k - 1].clone());
            assert(views(self.stack@) =~= views(before).push(commands@[k - 1]@));
            assert(views(commands@).skip(k - 1) =~= seq![commands@[k - 1]@] + views(commands@).skip(k as int));
            assert(views(before).push(commands@[k - 1]@).reverse() =~= seq![commands@[k - 1]@] + views(before).reverse());
            assert(self@ =~= views(commands@).skip(k - 1) + old(self)@);
            k -= 1;
        }
        assert(views(commands@).skip(0) =~= views(commands@));
    }

    /// Takes the next pending command, if there is one.
    pub fn next(&mut self) -> (r: Option<String>)
        ensures
            old(self)@.len() == 0 ==> r is None && final(self)@ == old(self)@,
            old(self)@.len() > 0 ==> (r matches Some(c) && c@ == old(self)@[0] && final(self)@ == old(
                self,
            )@.drop_first()),
    {
        let ghost before = self.stack@;
        let r = self.stack.pop();
        proof {
            if before.len() > 0 {
                assert(views(self.stack@) =~= views(before).drop_last());
                assert(views(before).reverse()[0] == views(before).last());
                assert(views(before).drop_last().reverse() =~= views(before).reverse().drop_first());
            }
        }
        r
    }
}

/// The next command to run: a pending one first, else the stage of the
/// current pipe segment at `*taken`, which moves on by one; `None` where
/// both are used up.
pub fn next_command(pending: &mut PendingCommands, stages: &[String], taken: &mut usize) -> (r: Option<String>)
    ensures
        old(pending)@.len() > 0 ==> (r matches Some(c) && c@ == old(pending)@[0] && final(pending)@
            == old(pending)@.drop_first() && *final(taken) == *old(taken)),
        old(pending)@.len() == 0 && *old(taken) < stages@.len() ==> (r matches Some(c) && c@
            == stages@[*old(taken) as int]@ && final(pending)@ == old(pending)@ && *final(taken) == *old(
            taken,
        ) + 1),
        old(pending)@.len() == 0 && *old(taken) >= stages@.len() ==> (r is None && final(pending)@
            == old(pending)@ && *final(taken) == *old(taken)),
{
    if !pending.is_empty() {
        return pending.next();
    }
    if *taken < stages.len() {
        let c = stages[*taken].clone();
        *taken = *taken + 1;
        Some(c)
    } else {
        None
    }
}

/// Where a stage of a pipe reads from and writes to.
#[derive(Clone, Copy, Debug, PartialEq, Eq, Structural)]
pub struct StageWiring {
    /// It reads the output of the stage before it (else the shell's input).
    pub stdin_from_previous: bool,
    /// It writes into a pipe to the next stage (else the shell's output).
    pub stdout_piped: bool,
}

/// A stage reads the output of the stage before it where one is running, and
/// writes into a pipe while stages of its segment remain (`taken` of
/// `stages` are taken).
pub fn stage_wiring(has_previous: bool, taken: usize, stages: usize) -> (r: StageWiring)
    ensures
        r.stdin_from_previous == has_previous,
        r.stdout_piped == (taken < stages),
{
    StageWiring { stdin_from_previous: has_previous, stdout_piped: taken < stages }
}

/// Whether a command ends the session, and if so whether the shell starts
/// again: `exit` ends it, `restart` ends it and starts again, nothing else
/// ends it.
pub fn session_end(kind: CommandKind) -> (r: Option<bool>)
    ensures
        kind == CommandKind::Exit ==> r == Some(false),
        kind == CommandKind::Restart ==> r == Some(true),
        kind != CommandKind::Exit && kind != CommandKind::Restart ==> r is None,
{
    match kind {
        CommandKind::Exit => Some(false),
        CommandKind::Restart => Some(true),
        _ => None,
    }
}

/// Commands that an alias expands to run first and in their order: after
/// they are put before the pending commands, the first of them is the next to
/// run, and the ones pending before follow all of them.
pub proof fn expansion_runs_first(expansion: Seq<Seq<char>>, pending: Seq<Seq<char>>)
    requires
        expansion.len() > 0,
    ensures
        (expansion + pending)[0] == expansion[0],
        (expansion + pending).drop_first() == expansion.drop_first() + pending,
        (expansion + pending).skip(expansion.len() as int) == pending,
{
    assert((expansion + pending).drop_first() =~= expansion.drop_first() + pending);
    assert((expansion + pending).skip(expansion.len() as int) =~= pending);
}

/// What the shell's own first argument asks for.
#[derive(Clone, Copy, Debug, PartialEq, Eq, Structural)]
pub enum CliRequest {
    Help,
    Version,
    Run,
}

/// What the shell's first argument asks for: `-h`/`--help` the usage,
/// `-v`/`--version` the version, anything else (or nothing) the shell.
pub open spec fn cli_request_for(arg: Option<Seq<char>>) -> CliRequest {
    match arg {
        Some(a) => if a == "-h"@ || a == "--help"@ {
            CliRequest::Help
        } else if a == "-v"@ || a == "--version"@ {
            CliRequest::Version
        } else {
            CliRequest::Run
        },
        None => CliRequest::Run,
    }
}

/// What the shell's first argument asks for (see `cli_request_for`).
pub fn cli_request(arg: Option<&str>) -> (r: CliRequest)
    ensures
        r == cli_request_for(match arg {
            Some(a) => Some(a@),
            None => None,
        }),
{
    match arg {
        Some(a) => {
            if str_eq(a, "-h") || str_eq(a, "--help") {
                CliRequest::Help
            } else if str_eq(a, "-v") || str_eq(a, "--version") {
                CliRequest::Version
            } else {
                CliRequest::Run
            }
        },
        None => CliRequest::Run,
    }
}

/// Whether the shell runs as a login shell: its name (argument 0) starts
/// with `-`.
pub fn is_login_shell(arg0: Option<&str>) -> (r: bool)
    ensures
        r == (arg0 matches Some(a) && a@.len() > 0 && a@[0] == '-'),
{
    match arg0 {
        Some(a) => {
            if a.is_empty() {
                false
            } else {
                a.get_char(0) == '-'
            }
        },
        None => false,
    }
}

} // verus!
