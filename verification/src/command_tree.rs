//! The data model: flags, commands, command groups and the assembled tree,
//! together with their mathematical models.

use vstd::prelude::*;

verus! {

/// A flag of a command (for example `--verbose`, `-v`).
#[derive(Debug, Clone, PartialEq)]
pub struct Flag {
    /// Long form, e.g. "verbose"
    pub long: String,
    /// Short form, e.g. Some('v')
    pub short: Option<char>,
    /// Human-readable description
    pub description: String,
    /// The value type if the flag takes an argument (e.g. "string", "int").
    /// None for boolean flags.
    pub value_type: Option<String>,
    /// Default value, if any
    pub default: Option<String>,
}

/// The mathematical model of a [`Flag`].
#[verifier::ext_equal]
pub struct FlagModel {
    pub long: Seq<char>,
    pub short: Option<char>,
    pub description: Seq<char>,
    pub value_type: Option<Seq<char>>,
    pub default: Option<Seq<char>>,
}

pub open spec fn opt_string_view(o: Option<String>) -> Option<Seq<char>> {
    match o {
        Some(s) => Some(s@),
        None => None,
    }
}

impl View for Flag {
    type V = FlagModel;

    open spec fn view(&self) -> FlagModel {
        FlagModel {
            long: self.long@,
            short: self.short,
            description: self.description@,
            value_type: opt_string_view(self.value_type),
            default: opt_string_view(self.default),
        }
    }
}

/// A command group/category (e.g., "Working With Issues").
#[derive(Debug, Clone, PartialEq)]
pub struct CommandGroup {
    pub name: String,
    pub commands: Vec<String>,
}

/// The mathematical model of a [`CommandGroup`].
#[verifier::ext_equal]
pub struct GroupModel {
    pub name: Seq<char>,
    pub commands: Seq<Seq<char>>,
}

impl View for CommandGroup {
    type V = GroupModel;

    open spec fn view(&self) -> GroupModel {
        GroupModel { name: self.name@, commands: self.commands.deep_view() }
    }
}

/// A single command node in the tree.
#[derive(Debug, PartialEq)]
pub struct Command {
    /// The command name (e.g. "create", "epic")
    pub name: String,
    /// Human-readable description
    pub description: String,
    /// Aliases for this command (e.g. ["new"] for "create")
    pub aliases: Vec<String>,
    /// Usage string from help output
    pub usage: Option<String>,
    /// Flags local to this command
    pub flags: Vec<Flag>,
    /// Subcommands in discovery order; names are unique
    pub subcommands: Vec<Command>,
    /// Which group/category this command belongs to (from the parent's help)
    pub group: Option<String>,
}

/// The model of a subcommand stub: the part of a node that a parent's listing
/// line determines.
#[verifier::ext_equal]
pub struct StubModel {
    pub name: Seq<char>,
    pub description: Seq<char>,
    pub group: Option<Seq<char>>,
}

/// `c` carries exactly the stub information `s` and nothing else.
pub open spec fn is_stub(c: Command, s: StubModel) -> bool {
    &&& c.name@ == s.name
    &&& c.description@ == s.description
    &&& opt_string_view(c.group) == s.group
    &&& c.aliases@.len() == 0
    &&& c.usage is None
    &&& c.flags@.len() == 0
    &&& c.subcommands@.len() == 0
}

pub open spec fn stubs_match(cs: Seq<Command>, ss: Seq<StubModel>) -> bool {
    cs.len() == ss.len() && forall|i: int| 0 <= i < cs.len() ==> is_stub(#[trigger] cs[i], ss[i])
}

pub open spec fn flags_match(fs: Seq<Flag>, ms: Seq<FlagModel>) -> bool {
    fs.len() == ms.len() && forall|i: int| 0 <= i < fs.len() ==> (#[trigger] fs[i])@ == ms[i]
}

pub open spec fn groups_match(gs: Seq<CommandGroup>, ms: Seq<GroupModel>) -> bool {
    gs.len() == ms.len() && forall|i: int| 0 <= i < gs.len() ==> (#[trigger] gs[i])@ == ms[i]
}

pub open spec fn strings_match(ss: Seq<String>, ms: Seq<Seq<char>>) -> bool {
    ss.len() == ms.len() && forall|i: int| 0 <= i < ss.len() ==> (#[trigger] ss[i])@ == ms[i]
}

pub open spec fn strings_view(ss: Seq<String>) -> Seq<Seq<char>> {
    ss.map_values(|s: String| s@)
}

pub open spec fn strs_match(ss: Seq<&str>, ms: Seq<Seq<char>>) -> bool {
    ss.len() == ms.len() && forall|i: int| 0 <= i < ss.len() ==> (#[trigger] ss[i])@ == ms[i]
}

/// The stub information a command node carries.
pub open spec fn stub_of(c: Command) -> StubModel {
    StubModel { name: c.name@, description: c.description@, group: opt_string_view(c.group) }
}

impl Command {
    pub fn new(name: String, description: String) -> (c: Command)
        ensures
            c.name@ == name@,
            c.description@ == description@,
            c.aliases@.len() == 0,
            c.usage is None,
            c.flags@.len() == 0,
            c.subcommands@.len() == 0,
            c.group is None,
    {
        Command {
            name,
            description,
            aliases: Vec::new(),
            usage: None,
            flags: Vec::new(),
            subcommands: Vec::new(),
            group: None,
        }
    }
}

/// The root of the parsed command tree.
#[derive(Debug, PartialEq)]
pub struct CommandTree {
    /// The root command
    pub root: Command,
    /// Global flags that apply to all subcommands
    pub global_flags: Vec<Flag>,
    /// Command groups discovered at the top level
    pub groups: Vec<CommandGroup>,
}

impl CommandTree {
    pub fn new(root: Command) -> (t: CommandTree)
        ensures
            t.root == root,
            t.global_flags@.len() == 0,
            t.groups@.len() == 0,
    {
        CommandTree { root, global_flags: Vec::new(), groups: Vec::new() }
    }
}

} // verus!
