//! `wt shell-init`: the shell integration.

use vstd::prelude::*;

verus! {

/// The shell integration for fish.
///
/// A program cannot change the directory of the shell that started it. The
/// commands `add` and `clone` therefore print the new path. The function
/// below reads that path and changes the directory.
pub const FISH: &'static str = r#"# wt shell integration -- add to config.fish with:
#   wt shell-init fish | source

function wt --wraps wt --description 'git worktree manager'
    # add, clone, cd, their short forms and the short form `wt <worktree>`
    # print a path and nothing else, so this function reads the path and
    # changes directory. Every other command, in its long and its short
    # form, writes for the user and runs untouched. A new command that
    # writes for the user belongs in the first case.
    switch "$argv[1]"
        case '' init share sh ls l sync s delete d prune p shell-init help '-*' '__*'
            command wt $argv
        case '*'
            set -l dest (command wt $argv)
            test -n "$dest" -a -d "$dest"; and cd $dest
    end
end

complete -c wt -f
complete -c wt -n __fish_use_subcommand -a init       -d 'make the store, the config entry and the hook'
complete -c wt -n __fish_use_subcommand -a share      -d 'move ignored paths into the store and make the links'
complete -c wt -n __fish_use_subcommand -a add        -d 'make a worktree for a branch'
complete -c wt -n __fish_use_subcommand -a delete     -d 'remove a worktree and delete its branch'
complete -c wt -n __fish_use_subcommand -a cd         -d 'change to a worktree'
complete -c wt -n __fish_use_subcommand -a ls         -d 'print each worktree, its branch and its links'
complete -c wt -n __fish_use_subcommand -a sync       -d 'compare each worktree with the config and make the links'
complete -c wt -n __fish_use_subcommand -a clone      -d 'clone a repository into the .bare layout'
complete -c wt -n __fish_use_subcommand -a prune      -d 'remove each worktree whose work is finished'
complete -c wt -n __fish_use_subcommand -a shell-init -d 'print the shell integration'
complete -c wt -n __fish_use_subcommand -a sh         -d 'share'
complete -c wt -n __fish_use_subcommand -a a          -d 'add'
complete -c wt -n __fish_use_subcommand -a c          -d 'cd'
complete -c wt -n __fish_use_subcommand -a l          -d 'ls'
complete -c wt -n __fish_use_subcommand -a s          -d 'sync'
complete -c wt -n __fish_use_subcommand -a d          -d 'delete'
complete -c wt -n __fish_use_subcommand -a p          -d 'prune'

# `wt <worktree>` is the short form of `wt cd <worktree>`, so a worktree name
# is a candidate in the position of a command.
complete -c wt -n __fish_use_subcommand -a '(command wt __worktrees 2>/dev/null)'

complete -c wt -n '__fish_seen_subcommand_from add a'    -a '(command wt __branches 2>/dev/null)'
complete -c wt -n '__fish_seen_subcommand_from delete d' -a '(command wt __worktrees 2>/dev/null)'
complete -c wt -n '__fish_seen_subcommand_from cd c'     -a '(command wt __worktrees 2>/dev/null)'

# `complete -c wt -f` above stops file completion for the whole command, so
# each subcommand that takes a path must ask for it again with -F.
complete -c wt -n '__fish_seen_subcommand_from share sh' -F \
    -a '(command wt __shareable 2>/dev/null)'
complete -c wt -n '__fish_seen_subcommand_from clone' -F
complete -c wt -l repo -r -F -d 'act on this repository'
"#;

#[derive(Debug, Clone)]
pub enum ShellError {
    /// A shell other than fish.
    Unsupported { shell: String },
}

pub open spec fn shell_error_text(e: ShellError) -> Seq<char> {
    match e {
        ShellError::Unsupported { shell } => "wt cannot make code for the shell "@ + shell@
            + ". wt supports fish only"@,
    }
}

impl ShellError {
    pub fn message(&self) -> (m: String)
        ensures
            m@ == shell_error_text(*self),
    {
        match self {
            ShellError::Unsupported { shell } => {
                let mut m = String::from_str("wt cannot make code for the shell ");
                m.append(shell.as_str());
                m.append(". wt supports fish only");
                m
            },
        }
    }
}

/// The shell integration to print for `shell`.
pub fn run(shell: &str) -> (r: Result<String, ShellError>)
    ensures
        shell@ == "fish"@ ==> (r matches Ok(s) && s@ == FISH@),
        shell@ != "fish"@ ==> (r matches Err(ShellError::Unsupported { shell: s }) && s@ == shell@),
{
    let s = String::from_str(shell);
    let fish = String::from_str("fish");
    if s == fish {
        Ok(String::from_str(FISH))
    } else {
        Err(ShellError::Unsupported { shell: s })
    }
}

} // verus!
