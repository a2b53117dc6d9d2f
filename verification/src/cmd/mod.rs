//! The commands of `wt`: the decisions of each, apart from the work with
//! git and the files.

pub mod add;
pub mod cd;
pub mod clone;
pub mod completions;
pub mod delete;
pub mod ls;
pub mod prune;
pub mod share;
pub mod shell_init;
pub mod sync;

use vstd::prelude::*;
use crate::text::string_views;

verus! {

/// A command of the command line, with its short forms.
#[derive(Debug, Clone)]
pub struct CommandName {
    pub name: String,
    pub aliases: Vec<String>,
}

pub open spec fn names_command(c: CommandName, name: Seq<char>) -> bool {
    c.name@ == name || string_views(c.aliases@).contains(name)
}

pub open spec fn is_command_spec(name: Seq<char>, commands: Seq<CommandName>) -> bool {
    name == "help"@ || exists|i: int| 0 <= i < commands.len() && names_command(#[trigger] commands[i], name)
}

fn names_command_exec(c: &CommandName, name: &String) -> (r: bool)
    ensures
        r == names_command(*c, name@),
{
    if c.name == *name {
        return true;
    }
    let mut i: usize = 0;
    while i < c.aliases.len()
        invariant
            i <= c.aliases.len(),
            forall|j: int| 0 <= j < i ==> string_views(c.aliases@)[j] != name@,
        decreases c.aliases.len() - i,
    {
        assert(string_views(c.aliases@)[i as int] == c.aliases@[i as int]@);
        if c.aliases[i] == *name {
            return true;
        }
        i += 1;
    }
    false
}

/// True when `name` is a command of wt, or one of its short forms, in the
/// table `commands` of the command line.
///
/// A command always wins over a worktree with the same name, because the
/// command line reads the first word as a command before it reads it as a
/// worktree.
pub fn is_command(name: &String, commands: &Vec<CommandName>) -> (r: bool)
    ensures
        r == is_command_spec(name@, commands@),
{
    let help = String::from_str("help");
    if *name == help {
        return true;
    }
    let mut i: usize = 0;
    while i < commands.len()
        invariant
            i <= commands.len(),
            help@ == "help"@,
            name@ != "help"@,
            forall|j: int| 0 <= j < i ==> !names_command(#[trigger] commands@[j], name@),
        decreases commands.len() - i,
    {
        if names_command_exec(&commands[i], name) {
            return true;
        }
        i += 1;
    }
    false
}

} // verus!
