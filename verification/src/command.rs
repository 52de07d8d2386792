//! Programs to start, with their arguments.

use vstd::prelude::*;
use crate::text::texts;

verus! {

/// A program to start and the arguments to hand it.
#[derive(Debug)]
pub struct Command {
    pub program: String,
    pub args: Vec<String>,
}

/// What a [`Command`] says.
pub struct CommandView {
    pub program: Seq<char>,
    pub args: Seq<Seq<char>>,
}

impl View for Command {
    type V = CommandView;

    open spec fn view(&self) -> CommandView {
        CommandView { program: self.program@, args: texts(self.args@) }
    }
}

/// What a list of commands says.
pub open spec fn commands(list: Seq<Command>) -> Seq<CommandView> {
    list.map_values(|c: Command| c@)
}

impl Command {
    /// A command without arguments.
    pub fn new(program: &str) -> (r: Command)
        ensures
            r@ == (CommandView { program: program@, args: Seq::empty() }),
    {
        let r = Command { program: program.to_string(), args: Vec::new() };
        proof {
            assert(r@.args =~= Seq::<Seq<char>>::empty());
        }
        r
    }

    /// The command with one more argument at the end.
    pub fn arg(self, arg: &str) -> (r: Command)
        ensures
            r@ == (CommandView { program: self@.program, args: self@.args.push(arg@) }),
    {
        let ghost held = self@;
        let program = self.program;
        let mut args = self.args;
        args.push(arg.to_string());
        let r = Command { program, args };
        proof {
            assert(r@.args =~= held.args.push(arg@));
        }
        r
    }
}

} // verus!
