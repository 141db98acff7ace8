//! The tree assembler: merges the parses of a command hierarchy's help texts
//! (root, depth 1, depth 2) into a single command tree.
//!
//! Capturing the help texts is process work and stays outside the library;
//! the assembler takes the root help text and lookup tables of the texts
//! captured for depth-1 and depth-2 command paths. An entry holding `None`,
//! or a missing entry, stands for a failed capture: that node keeps its stub
//! information.

use vstd::prelude::*;

verus! {

use vstd::string::StrSliceExecFns;
use vstd::string::StringExecFns;
use crate::command_tree::Command;
use crate::command_tree::CommandTree;
use crate::command_tree::Flag;
use crate::command_tree::StubModel;
use crate::command_tree::flags_match;
use crate::command_tree::groups_match;
use crate::command_tree::opt_string_view;
use crate::command_tree::stub_of;
use crate::command_tree::stubs_match;
use crate::parser::HelpModel;
use crate::parser::parse_help_output;
use crate::parser::spec_parse_help;
use crate::text::str_eq;

/// Table of depth-1 help captures: command name to captured text.
pub type Help1Table = Seq<(Seq<char>, Option<Seq<char>>)>;

/// Table of depth-2 help captures: parent name and command name to text.
pub type Help2Table = Seq<(Seq<char>, Seq<char>, Option<Seq<char>>)>;

/// The value of the first entry for `name` at or after `i`, if any.
pub open spec fn spec_lookup1_at(tbl: Help1Table, name: Seq<char>, i: int) -> Option<
    Option<Seq<char>>,
>
    decreases tbl.len() - i,
    when 0 <= i <= tbl.len()
{
    if i >= tbl.len() {
        None
    } else if tbl[i].0 == name {
        Some(tbl[i].1)
    } else {
        spec_lookup1_at(tbl, name, i + 1)
    }
}

pub open spec fn spec_lookup1(tbl: Help1Table, name: Seq<char>) -> Option<Option<Seq<char>>> {
    spec_lookup1_at(tbl, name, 0)
}

/// The value of the first entry for `(parent, name)` at or after `i`, if any.
pub open spec fn spec_lookup2_at(
    tbl: Help2Table,
    parent: Seq<char>,
    name: Seq<char>,
    i: int,
) -> Option<Option<Seq<char>>>
    decreases tbl.len() - i,
    when 0 <= i <= tbl.len()
{
    if i >= tbl.len() {
        None
    } else if tbl[i].0 == parent && tbl[i].1 == name {
        Some(tbl[i].2)
    } else {
        spec_lookup2_at(tbl, parent, name, i + 1)
    }
}

pub open spec fn spec_lookup2(tbl: Help2Table, parent: Seq<char>, name: Seq<char>) -> Option<
    Option<Seq<char>>,
> {
    spec_lookup2_at(tbl, parent, name, 0)
}

pub open spec fn opt_opt_view(r: Option<Option<String>>) -> Option<Option<Seq<char>>> {
    match r {
        Some(o) => Some(opt_string_view(o)),
        None => None,
    }
}

fn clone_opt_string(o: &Option<String>) -> (r: Option<String>)
    ensures
        opt_string_view(r) == opt_string_view(*o),
{
    match o {
        Some(s) => Some(s.clone()),
        None => None,
    }
}

fn lookup_help1(tbl: &Vec<(String, Option<String>)>, name: &str) -> (r: Option<Option<String>>)
    ensures
        opt_opt_view(r) == spec_lookup1(tbl.deep_view(), name@),
{
    let ghost dv = tbl.deep_view();
    let n = tbl.len();
    let mut k: usize = 0;
    while k < n
        invariant
            dv == tbl.deep_view(),
            n as nat == tbl@.len(),
            dv.len() == n as nat,
            k <= n,
            spec_lookup1(dv, name@) == spec_lookup1_at(dv, name@, k as int),
        decreases n - k,
    {
        if str_eq(tbl[k].0.as_str(), name) {
            return Some(clone_opt_string(&tbl[k].1));
        }
        k += 1;
    }
    None
}

fn lookup_help2(tbl: &Vec<(String, String, Option<String>)>, parent: &str, name: &str) -> (r:
    Option<Option<String>>)
    ensures
        opt_opt_view(r) == spec_lookup2(tbl.deep_view(), parent@, name@),
{
    let ghost dv = tbl.deep_view();
    let n = tbl.len();
    let mut k: usize = 0;
    while k < n
        invariant
            dv == tbl.deep_view(),
            n as nat == tbl@.len(),
            dv.len() == n as nat,
            k <= n,
            spec_lookup2(dv, parent@, name@) == spec_lookup2_at(dv, parent@, name@, k as int),
        decreases n - k,
    {
        if str_eq(tbl[k].0.as_str(), parent) && str_eq(tbl[k].1.as_str(), name) {
            return Some(clone_opt_string(&tbl[k].2));
        }
        k += 1;
    }
    None
}

fn duplicate_flags(fs: &Vec<Flag>) -> (r: Vec<Flag>)
    ensures
        r@.len() == fs@.len(),
        forall|i: int| 0 <= i < fs@.len() ==> (#[trigger] r@[i])@ == fs@[i]@,
{
    let n = fs.len();
    let mut r: Vec<Flag> = Vec::new();
    let mut i: usize = 0;
    while i < n
        invariant
            n as nat == fs@.len(),
            i <= n,
            r@.len() == i as nat,
            forall|j: int| 0 <= j < i ==> (#[trigger] r@[j])@ == fs@[j]@,
        decreases n - i,
    {
        let f = Flag {
            long: fs[i].long.clone(),
            short: fs[i].short,
            description: fs[i].description.clone(),
            value_type: clone_opt_string(&fs[i].value_type),
            default: clone_opt_string(&fs[i].default),
        };
        r.push(f);
        i += 1;
    }
    r
}

/// `c` carries the usage, aliases and flags of the help model `m`.
pub open spec fn enriched_matches(c: Command, m: HelpModel) -> bool {
    &&& opt_string_view(c.usage) == m.usage
    &&& c.aliases.deep_view() == m.aliases
    &&& flags_match(c.flags@, m.flags)
}

/// A depth-2 node: stub fields from the parent's listing; usage, aliases,
/// flags and subcommand stubs from its own help text when one was captured,
/// nothing more otherwise.
pub open spec fn depth2_matches(
    c: Command,
    s: StubModel,
    helps2: Help2Table,
    parent: Seq<char>,
) -> bool {
    &&& c.name@ == s.name
    &&& c.description@ == s.description
    &&& opt_string_view(c.group) == s.group
    &&& match spec_lookup2(helps2, parent, s.name) {
        Some(Some(text)) => {
            let m = spec_parse_help(text);
            enriched_matches(c, m) && stubs_match(c.subcommands@, m.subcommands)
        },
        _ => {
            c.aliases@.len() == 0 && c.usage is None && c.flags@.len() == 0
                && c.subcommands@.len() == 0
        },
    }
}

/// A depth-1 node: stub fields from the root's listing; usage, aliases and
/// flags from its own help text when one was captured, and one depth-2 node
/// per subcommand stub that text listed.
pub open spec fn depth1_matches(
    c: Command,
    s: StubModel,
    helps1: Help1Table,
    helps2: Help2Table,
) -> bool {
    &&& c.name@ == s.name
    &&& c.description@ == s.description
    &&& opt_string_view(c.group) == s.group
    &&& match spec_lookup1(helps1, s.name) {
        Some(Some(text)) => {
            let m = spec_parse_help(text);
            &&& enriched_matches(c, m)
            &&& c.subcommands@.len() == m.subcommands.len()
            &&& forall|j: int|
                0 <= j < m.subcommands.len() ==> depth2_matches(
                    #[trigger] c.subcommands@[j],
                    m.subcommands[j],
                    helps2,
                    s.name,
                )
        },
        _ => {
            c.aliases@.len() == 0 && c.usage is None && c.flags@.len() == 0
                && c.subcommands@.len() == 0
        },
    }
}

/// The whole assembled tree against the root's help model and the capture
/// tables. The last clause is the global-flags policy: an explicit
/// `Global Flags` section wins, else the root's own flags stand in.
pub open spec fn tree_matches(
    t: CommandTree,
    binary: Seq<char>,
    root: HelpModel,
    helps1: Help1Table,
    helps2: Help2Table,
) -> bool {
    &&& t.root.name@ == binary
    &&& t.root.description@ == root.description
    &&& opt_string_view(t.root.usage) == root.usage
    &&& t.root.aliases.deep_view() == root.aliases
    &&& flags_match(t.root.flags@, root.flags)
    &&& t.root.group is None
    &&& t.root.subcommands@.len() == root.subcommands.len()
    &&& forall|i: int|
        0 <= i < root.subcommands.len() ==> depth1_matches(
            #[trigger] t.root.subcommands@[i],
            root.subcommands[i],
            helps1,
            helps2,
        )
    &&& groups_match(t.groups@, root.groups)
    &&& if root.global_flags.len() > 0 {
        flags_match(t.global_flags@, root.global_flags)
    } else {
        flags_match(t.global_flags@, root.flags)
    }
}

fn enrich_depth2(stub: &Command, parent: &str, sub_sub_helps: &Vec<(String, String, Option<String>)>) -> (c:
    Command)
    ensures
        depth2_matches(c, stub_of(*stub), sub_sub_helps.deep_view(), parent@),
{
    let name = stub.name.clone();
    let desc = stub.description.clone();
    let group = clone_opt_string(&stub.group);
    match lookup_help2(sub_sub_helps, parent, name.as_str()) {
        Some(text_opt) => {
            match text_opt {
                Some(text) => {
                    let (p2, _pg, _pgr) = parse_help_output(text.as_str());
                    let mut c = Command::new(name, desc);
                    c.group = group;
                    c.flags = p2.flags;
                    c.aliases = p2.aliases;
                    c.usage = p2.usage;
                    c.subcommands = p2.subcommands;
                    c
                },
                None => {
                    let mut c = Command::new(name, desc);
                    c.group = group;
                    c
                },
            }
        },
        None => {
            let mut c = Command::new(name, desc);
            c.group = group;
            c
        },
    }
}

fn enrich_depth1(
    stub: &Command,
    sub_helps: &Vec<(String, Option<String>)>,
    sub_sub_helps: &Vec<(String, String, Option<String>)>,
) -> (c: Command)
    ensures
        depth1_matches(c, stub_of(*stub), sub_helps.deep_view(), sub_sub_helps.deep_view()),
{
    let name = stub.name.clone();
    let desc = stub.description.clone();
    let group = clone_opt_string(&stub.group);
    match lookup_help1(sub_helps, name.as_str()) {
        Some(text_opt) => {
            match text_opt {
                Some(text) => {
                    let (p1, _pg, _pgr) = parse_help_output(text.as_str());
                    let ghost m1 = spec_parse_help(text@);
                    let stubs2 = p1.subcommands;
                    let mut d2: Vec<Command> = Vec::new();
                    let n2 = stubs2.len();
                    let mut j: usize = 0;
                    while j < n2
                        invariant
                            n2 as nat == stubs2@.len(),
                            stubs_match(stubs2@, m1.subcommands),
                            j <= n2,
                            d2@.len() == j as nat,
                            forall|q: int|
                                0 <= q < j ==> depth2_matches(
                                    #[trigger] d2@[q],
                                    m1.subcommands[q],
                                    sub_sub_helps.deep_view(),
                                    name@,
                                ),
                        decreases n2 - j,
                    {
                        let c2 = enrich_depth2(&stubs2[j], name.as_str(), sub_sub_helps);
                        proof {
                            assert(stub_of(stubs2@[j as int]) =~= m1.subcommands[j as int]);
                        }
                        d2.push(c2);
                        j += 1;
                    }
                    let mut c = Command::new(name, desc);
                    c.group = group;
                    c.flags = p1.flags;
                    c.aliases = p1.aliases;
                    c.usage = p1.usage;
                    c.subcommands = d2;
                    c
                },
                None => {
                    let mut c = Command::new(name, desc);
                    c.group = group;
                    c
                },
            }
        },
        None => {
            let mut c = Command::new(name, desc);
            c.group = group;
            c
        },
    }
}

/// Assemble the command tree for `binary` from its root help text and the
/// captured help texts of its depth-1 and depth-2 subcommands. Deeper levels
/// are never populated: the recursion into the hierarchy is capped at two
/// levels below the root.
pub fn build_command_tree(
    binary: &str,
    root_help: &str,
    sub_helps: &Vec<(String, Option<String>)>,
    sub_sub_helps: &Vec<(String, String, Option<String>)>,
) -> (t: CommandTree)
    ensures
        tree_matches(
            t,
            binary@,
            spec_parse_help(root_help@),
            sub_helps.deep_view(),
            sub_sub_helps.deep_view(),
        ),
{
    let (root0, parsed_globals, parsed_groups) = parse_help_output(root_help);
    let ghost rm = spec_parse_help(root_help@);
    let Command { description, aliases, usage, flags, subcommands: stubs1, .. } = root0;
    let mut new_subs: Vec<Command> = Vec::new();
    let n1 = stubs1.len();
    let mut i: usize = 0;
    while i < n1
        invariant
            n1 as nat == stubs1@.len(),
            stubs_match(stubs1@, rm.subcommands),
            i <= n1,
            new_subs@.len() == i as nat,
            forall|q: int|
                0 <= q < i ==> depth1_matches(
                    #[trigger] new_subs@[q],
                    rm.subcommands[q],
                    sub_helps.deep_view(),
                    sub_sub_helps.deep_view(),
                ),
        decreases n1 - i,
    {
        let c1 = enrich_depth1(&stubs1[i], sub_helps, sub_sub_helps);
        proof {
            assert(stub_of(stubs1@[i as int]) =~= rm.subcommands[i as int]);
        }
        new_subs.push(c1);
        i += 1;
    }
    let mut root = Command::new(String::from_str(binary), description);
    root.usage = usage;
    root.aliases = aliases;
    root.flags = flags;
    root.subcommands = new_subs;
    let mut tree = CommandTree::new(root);
    if parsed_globals.len() == 0 {
        tree.global_flags = duplicate_flags(&tree.root.flags);
    } else {
        tree.global_flags = parsed_globals;
    }
    tree.groups = parsed_groups;
    tree
}

/// The depth cap: in an assembled tree, a node three levels below the root
/// never has subcommands of its own, however deep the underlying program's
/// hierarchy goes.
pub proof fn lemma_depth_cap(
    t: CommandTree,
    binary: Seq<char>,
    root: HelpModel,
    helps1: Help1Table,
    helps2: Help2Table,
)
    requires
        tree_matches(t, binary, root, helps1, helps2),
    ensures
        forall|i: int, j: int, k: int|
            0 <= i < t.root.subcommands@.len() && 0 <= j
                < t.root.subcommands@[i].subcommands@.len() && 0 <= k
                < t.root.subcommands@[i].subcommands@[j].subcommands@.len()
                ==> (#[trigger] t.root.subcommands@[i].subcommands@[j].subcommands@[k]).subcommands@.len() == 0,
{
    assert forall|i: int, j: int, k: int|
        0 <= i < t.root.subcommands@.len() && 0 <= j < t.root.subcommands@[i].subcommands@.len()
            && 0 <= k < t.root.subcommands@[i].subcommands@[j].subcommands@.len()
        implies (#[trigger] t.root.subcommands@[i].subcommands@[j].subcommands@[k]).subcommands@.len()
        == 0 by {
        let c1 = t.root.subcommands@[i];
        assert(depth1_matches(c1, root.subcommands[i], helps1, helps2));
        let c2 = c1.subcommands@[j];
        match spec_lookup1(helps1, root.subcommands[i].name) {
            Some(o) => {
                match o {
                    Some(text) => {
                        let m1 = spec_parse_help(text);
                        assert(depth2_matches(c2, m1.subcommands[j], helps2, root.subcommands[i].name));
                        match spec_lookup2(helps2, root.subcommands[i].name, m1.subcommands[j].name) {
                            Some(o2) => {
                                match o2 {
                                    Some(text2) => {
                                        let m2 = spec_parse_help(text2);
                                        assert(crate::command_tree::is_stub(
                                            c2.subcommands@[k],
                                            m2.subcommands[k],
                                        ));
                                    },
                                    None => {},
                                }
                            },
                            None => {},
                        }
                    },
                    None => {},
                }
            },
            None => {},
        }
    }
}

} // verus!
