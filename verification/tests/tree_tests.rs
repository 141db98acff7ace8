use bd_complete::assembler::build_command_tree;
use bd_complete::command_tree::Command;

const ROOT_HELP: &str = r#"A lightweight issue tracker.

Usage:
  bd [command]

Available Commands:
  create   Create a new issue
  epic     Epic management commands

Flags:
      --db string   Database path
  -v, --verbose     Enable verbose output
"#;

const CREATE_HELP: &str = r#"Create a new issue

Usage:
  bd create [title] [flags]

Aliases:
  create, new

Flags:
  -t, --type string   Issue type (default "task")
"#;

const EPIC_HELP: &str = r#"Epic management commands

Usage:
  bd epic [command]

Available Commands:
  status   Show epic completion status

Flags:
  -h, --help   help for epic
"#;

const EPIC_STATUS_HELP: &str = r#"Show epic completion status

Usage:
  bd epic status [flags]

Available Commands:
  details   Per-epic breakdown

Flags:
      --json   Output in JSON format
"#;

fn subcommand<'a>(cmd: &'a Command, name: &str) -> &'a Command {
    cmd.subcommands.iter().find(|c| c.name == name).unwrap()
}

fn depth1_table() -> Vec<(String, Option<String>)> {
    vec![
        ("create".to_string(), Some(CREATE_HELP.to_string())),
        ("epic".to_string(), Some(EPIC_HELP.to_string())),
    ]
}

fn depth2_table() -> Vec<(String, String, Option<String>)> {
    vec![(
        "epic".to_string(),
        "status".to_string(),
        Some(EPIC_STATUS_HELP.to_string()),
    )]
}

#[test]
fn test_build_tree_enriches_subcommands() {
    let tree = build_command_tree("bd", ROOT_HELP, &depth1_table(), &depth2_table());
    assert_eq!(tree.root.name, "bd");
    assert_eq!(tree.root.description, "A lightweight issue tracker.");

    let create = subcommand(&tree.root, "create");
    // Stub information from the root listing is kept ...
    assert_eq!(create.description, "Create a new issue");
    assert_eq!(create.group.as_deref(), Some("Available Commands"));
    // ... while usage, aliases and flags come from its own help text.
    assert_eq!(create.usage.as_deref(), Some("bd create [title] [flags]"));
    assert_eq!(create.aliases, vec!["new"]);
    let type_flag = create.flags.iter().find(|f| f.long == "type").unwrap();
    assert_eq!(type_flag.default.as_deref(), Some("task"));

    let epic = subcommand(&tree.root, "epic");
    let status = subcommand(epic, "status");
    assert_eq!(status.usage.as_deref(), Some("bd epic status [flags]"));
    let json = status.flags.iter().find(|f| f.long == "json").unwrap();
    assert_eq!(json.value_type, None);
}

#[test]
fn test_build_tree_failed_capture_keeps_stub() {
    let helps1: Vec<(String, Option<String>)> = vec![
        ("create".to_string(), None),
        ("epic".to_string(), Some(EPIC_HELP.to_string())),
    ];
    let helps2: Vec<(String, String, Option<String>)> = Vec::new();
    let tree = build_command_tree("bd", ROOT_HELP, &helps1, &helps2);

    let create = subcommand(&tree.root, "create");
    assert_eq!(create.description, "Create a new issue");
    assert!(create.usage.is_none());
    assert!(create.flags.is_empty());
    assert!(create.subcommands.is_empty());

    // The depth-2 capture table is empty, so "epic status" stays a stub too.
    let epic = subcommand(&tree.root, "epic");
    let status = subcommand(epic, "status");
    assert_eq!(status.description, "Show epic completion status");
    assert!(status.usage.is_none());
    assert!(status.flags.is_empty());
}

#[test]
fn test_build_tree_global_flags_fallback() {
    // ROOT_HELP has no `Global Flags:` section and a non-empty `Flags:`
    // section: the tree's global flags must equal the root's own flags.
    let tree = build_command_tree("bd", ROOT_HELP, &depth1_table(), &depth2_table());
    assert!(!tree.root.flags.is_empty());
    assert_eq!(tree.global_flags, tree.root.flags);
}

#[test]
fn test_build_tree_explicit_global_flags_win() {
    let root_help = "A tool.\n\nFlags:\n  -v, --verbose   Verbose\n\nGlobal Flags:\n      --db string   Database path\n";
    let helps1: Vec<(String, Option<String>)> = Vec::new();
    let helps2: Vec<(String, String, Option<String>)> = Vec::new();
    let tree = build_command_tree("bd", root_help, &helps1, &helps2);
    assert_eq!(tree.global_flags.len(), 1);
    assert_eq!(tree.global_flags[0].long, "db");
    assert_eq!(tree.root.flags.len(), 1);
    assert_eq!(tree.root.flags[0].long, "verbose");
}

#[test]
fn test_build_tree_groups_recorded() {
    let tree = build_command_tree("bd", ROOT_HELP, &depth1_table(), &depth2_table());
    assert_eq!(tree.groups.len(), 1);
    assert_eq!(tree.groups[0].name, "Available Commands");
    assert_eq!(tree.groups[0].commands, vec!["create", "epic"]);
}

#[test]
fn test_build_tree_depth_cap() {
    // EPIC_STATUS_HELP lists a further subcommand ("details"), so a depth-3
    // stub exists; it must never be populated, whatever further help texts
    // would say.
    let tree = build_command_tree("bd", ROOT_HELP, &depth1_table(), &depth2_table());
    let details = subcommand(subcommand(subcommand(&tree.root, "epic"), "status"), "details");
    assert_eq!(details.description, "Per-epic breakdown");
    assert!(details.subcommands.is_empty());
    assert!(details.flags.is_empty());
    assert!(details.usage.is_none());
}
