//! The fixed catalog of slash-commands: each entry names a command, carries
//! its short usage text, and says whether the command takes arguments.
use vstd::prelude::*;

verus! {

/// One recognized slash-command.
#[derive(Clone, Copy)]
pub struct CommandSpec {
    pub name: &'static str,
    pub usage: &'static str,
    pub accepts_args: bool,
}

/// The mathematical value of a `CommandSpec`.
#[verifier::ext_equal]
pub ghost struct CommandSpecV {
    pub name: Seq<char>,
    pub usage: Seq<char>,
    pub accepts_args: bool,
}

impl View for CommandSpec {
    type V = CommandSpecV;

    open spec fn view(&self) -> CommandSpecV {
        CommandSpecV { name: self.name@, usage: self.usage@, accepts_args: self.accepts_args }
    }
}

impl DeepView for CommandSpec {
    type V = CommandSpecV;

    open spec fn deep_view(&self) -> CommandSpecV {
        self@
    }
}

/// The catalog, in the order the autocomplete popup shows.
pub open spec fn catalog_spec() -> Seq<CommandSpecV> {
    seq![
        CommandSpecV { name: "/help"@, usage: "show available commands"@, accepts_args: false },
        CommandSpecV { name: "/repo"@, usage: "add/rm repository entries"@, accepts_args: true },
        CommandSpecV {
            name: "/repos"@,
            usage: "list configured repositories"@,
            accepts_args: false,
        },
        CommandSpecV { name: "/status"@, usage: "set status filter"@, accepts_args: true },
        CommandSpecV { name: "/refresh"@, usage: "reload pull requests"@, accepts_args: false },
        CommandSpecV {
            name: "/search"@,
            usage: "filter PRs by number or text"@,
            accepts_args: true,
        },
        CommandSpecV { name: "/quit"@, usage: "exit the app"@, accepts_args: false },
    ]
}

/// Builds the catalog.
pub fn command_specs() -> (r: Vec<CommandSpec>)
    ensures
        r.deep_view() == catalog_spec(),
{
    let mut r: Vec<CommandSpec> = Vec::new();
    r.push(CommandSpec { name: "/help", usage: "show available commands", accepts_args: false });
    r.push(CommandSpec { name: "/repo", usage: "add/rm repository entries", accepts_args: true });
    r.push(
        CommandSpec { name: "/repos", usage: "list configured repositories", accepts_args: false },
    );
    r.push(CommandSpec { name: "/status", usage: "set status filter", accepts_args: true });
    r.push(CommandSpec { name: "/refresh", usage: "reload pull requests", accepts_args: false });
    r.push(
        CommandSpec { name: "/search", usage: "filter PRs by number or text", accepts_args: true },
    );
    r.push(CommandSpec { name: "/quit", usage: "exit the app", accepts_args: false });
    proof {
        assert(r.deep_view() =~= catalog_spec());
    }
    r
}

} // verus!
