//! The command registry: a named handler table for side-band commands.  A
//! command's answer is fixed at registration; registration de-duplicates
//! names and execution of an unknown name yields a structured error.

use vstd::prelude::*;

use crate::json::{clone_string, string_is};

verus! {

broadcast use vstd::std_specs::vec::group_vec_axioms, vstd::seq::group_seq_axioms;

/// What executing a command yields.
pub type CommandResult = Result<String, String>;

/// The context a command is executed with.
#[derive(Debug)]
pub struct CommandContext {
    pub session_id: Option<String>,
    pub args: Vec<String>,
    pub raw: String,
}

/// A named command with its description and its fixed answer.
#[derive(Debug)]
pub struct Command {
    pub name: String,
    pub description: String,
    pub reply: CommandResult,
}

impl Command {
    /// Builds a command from its parts.
    pub fn new(name: &str, description: &str, reply: CommandResult) -> (r: Command)
        ensures
            r.name@ == name@,
            r.description@ == description@,
            r.reply == reply,
    {
        Command {
            name: String::from_str(name),
            description: String::from_str(description),
            reply,
        }
    }
}

/// The names of a command list, in registration order.
pub open spec fn command_names(cs: Seq<Command>) -> Seq<Seq<char>> {
    cs.map_values(|c: Command| c.name@)
}

/// The answer of the first command named `name`, if one is registered.
pub open spec fn command_reply(cs: Seq<Command>, name: Seq<char>) -> Option<CommandResult>
    decreases cs.len(),
{
    if cs.len() == 0 {
        None
    } else if cs[0].name@ == name {
        Some(cs[0].reply)
    } else {
        command_reply(cs.drop_first(), name)
    }
}

/// The named handler table.
#[derive(Debug)]
pub struct CommandRegistry {
    pub commands: Vec<Command>,
}

impl CommandRegistry {
    /// A registry with no commands.
    pub fn new() -> (r: CommandRegistry)
        ensures
            r.commands@.len() == 0,
    {
        CommandRegistry { commands: Vec::new() }
    }

    /// True when a command of that name is registered.
    pub fn has_command(&self, name: &str) -> (r: bool)
        ensures
            r == command_names(self.commands@).contains(name@),
    {
        let n = self.commands.len();
        let mut i: usize = 0;
        while i < n
            invariant
                0 <= i <= n,
                n == self.commands@.len(),
                forall|k: int| 0 <= k < i ==> #[trigger] self.commands@[k].name@ != name@,
            decreases n - i,
        {
            if string_is(&self.commands[i].name, name) {
                proof {
                    assert(command_names(self.commands@)[i as int] == name@);
                }
                return true;
            }
            i = i + 1;
        }
        proof {
            assert forall|k: int| 0 <= k < n implies #[trigger] command_names(self.commands@)[k]
                != name@ by {
                assert(command_names(self.commands@)[k] == self.commands@[k].name@);
            }
        }
        false
    }

    /// Registers a command, rejecting a name already present.
    pub fn register(&mut self, command: Command) -> (r: Result<(), String>)
        ensures
            match r {
                Ok(()) => !command_names(old(self).commands@).contains(command.name@)
                    && final (self).commands@ == old(self).commands@.push(command),
                Err(e) => command_names(old(self).commands@).contains(command.name@)
                    && final (self).commands@ == old(self).commands@ && e@
                    == "command already registered"@,
            },
    {
        if self.has_command(command.name.as_str()) {
            Err(String::from_str("command already registered"))
        } else {
            self.commands.push(command);
            Ok(())
        }
    }

    /// A snapshot of the registered `(name, description)` pairs, in
    /// registration order.
    pub fn list(&self) -> (r: Vec<(String, String)>)
        ensures
            r@.len() == self.commands@.len(),
            forall|i: int|
                0 <= i < r@.len() ==> #[trigger] r@[i].0@ == self.commands@[i].name@ && r@[i].1@
                    == self.commands@[i].description@,
    {
        let n = self.commands.len();
        let mut out: Vec<(String, String)> = Vec::new();
        let mut i: usize = 0;
        while i < n
            invariant
                0 <= i <= n,
                n == self.commands@.len(),
                out@.len() == i,
                forall|k: int|
                    0 <= k < i ==> #[trigger] out@[k].0@ == self.commands@[k].name@ && out@[k].1@
                        == self.commands@[k].description@,
            decreases n - i,
        {
            out.push(
                (clone_string(&self.commands[i].name), clone_string(&self.commands[i].description)),
            );
            i = i + 1;
        }
        out
    }

    /// Executes the command of that name; an unknown name yields a
    /// structured error.
    #[allow(unused_variables)]
    pub fn execute(&self, name: &str, context: CommandContext) -> (r: CommandResult)
        ensures
            match command_reply(self.commands@, name@) {
                Some(reply) => match (r, reply) {
                    (Ok(a), Ok(b)) => a@ == b@,
                    (Err(a), Err(b)) => a@ == b@,
                    _ => false,
                },
                None => r matches Err(e) && e@ == "unknown command"@,
            },
    {
        let n = self.commands.len();
        let mut i: usize = 0;
        let ghost cs = self.commands@;
        proof {
            assert(cs.skip(0) =~= cs);
        }
        while i < n
            invariant
                0 <= i <= n,
                n == cs.len(),
                cs == self.commands@,
                command_reply(cs, name@) == command_reply(cs.skip(i as int), name@),
            decreases n - i,
        {
            proof {
                assert(cs.skip(i as int)[0] == cs[i as int]);
                assert(cs.skip(i as int).drop_first() =~= cs.skip(i + 1));
            }
            if string_is(&self.commands[i].name, name) {
                return match &self.commands[i].reply {
                    Ok(s) => Ok(clone_string(s)),
                    Err(e) => Err(clone_string(e)),
                };
            }
            i = i + 1;
        }
        proof {
            assert(cs.skip(n as int) =~= Seq::<Command>::empty());
        }
        Err(String::from_str("unknown command"))
    }
}

} // verus!
