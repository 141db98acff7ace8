use bd_complete::command_tree::Command;
use bd_complete::parser::parse_help_output;

const BD_HELP: &str = r#"Issues chained together like beads. A lightweight issue tracker with first-class dependency support.

Usage:
  bd [flags]
  bd [command]

Working With Issues:
  children         List child beads of a parent
  close            Close one or more issues
  create           Create a new issue (or multiple issues from markdown file)
  delete           Delete one or more issues and clean up references

Views & Reports:
  count            Count issues matching filters
  status           Show issue database overview and statistics

Additional Commands:
  help             Help about any command
  version          Print version information

Flags:
      --db string                 Database path (default: auto-discover .beads/*.db)
  -h, --help                      help for bd
      --json                      Output in JSON format
  -q, --quiet                     Suppress non-essential output (errors only)
  -v, --verbose                   Enable verbose/debug output

Use "bd [command] --help" for more information about a command."#;

const CREATE_HELP: &str = r#"Create a new issue (or multiple issues from markdown file)

Usage:
  bd create [title] [flags]

Aliases:
  create, new

Flags:
      --acceptance string       Acceptance criteria
  -a, --assignee string         Assignee
  -d, --description string      Issue description
  -f, --file string             Create multiple issues from markdown file
  -h, --help                    help for create
  -l, --labels strings          Labels (comma-separated)
  -p, --priority string         Priority (0-4 or P0-P4, 0=highest) (default "2")
  -t, --type string             Issue type (default "task")

Global Flags:
      --db string                 Database path (default: auto-discover .beads/*.db)
      --json                      Output in JSON format
  -v, --verbose                   Enable verbose/debug output"#;

const EPIC_HELP: &str = r#"Epic management commands

Usage:
  bd epic [command]

Available Commands:
  close-eligible  Close epics where all children are complete
  status          Show epic completion status

Flags:
  -h, --help   help for epic

Global Flags:
      --db string   Database path
  -v, --verbose     Enable verbose/debug output

Use "bd epic [command] --help" for more information about a command."#;

fn subcommand<'a>(cmd: &'a Command, name: &str) -> &'a Command {
    cmd.subcommands.iter().find(|c| c.name == name).unwrap()
}

#[test]
fn test_parse_top_level_commands() {
    let (cmd, _globals, _groups) = parse_help_output(BD_HELP);

    assert_eq!(
        cmd.description,
        "Issues chained together like beads. A lightweight issue tracker with first-class dependency support."
    );

    // Should have commands from all groups
    assert!(cmd.subcommands.iter().any(|c| c.name == "children"));
    assert!(cmd.subcommands.iter().any(|c| c.name == "create"));
    assert!(cmd.subcommands.iter().any(|c| c.name == "count"));
    assert!(cmd.subcommands.iter().any(|c| c.name == "help"));
    assert!(cmd.subcommands.iter().any(|c| c.name == "version"));

    // Check descriptions
    assert_eq!(
        subcommand(&cmd, "create").description,
        "Create a new issue (or multiple issues from markdown file)"
    );
}

#[test]
fn test_parse_command_groups() {
    let (_cmd, _globals, groups) = parse_help_output(BD_HELP);

    assert_eq!(groups.len(), 3);
    assert_eq!(groups[0].name, "Working With Issues");
    assert!(groups[0].commands.contains(&"create".to_string()));
    assert!(groups[0].commands.contains(&"close".to_string()));

    assert_eq!(groups[1].name, "Views & Reports");
    assert!(groups[1].commands.contains(&"count".to_string()));
    assert!(groups[1].commands.contains(&"status".to_string()));

    assert_eq!(groups[2].name, "Additional Commands");
}

#[test]
fn test_parse_group_assignment() {
    let (cmd, _, _) = parse_help_output(BD_HELP);

    assert_eq!(
        subcommand(&cmd, "create").group.as_deref(),
        Some("Working With Issues")
    );
    assert_eq!(
        subcommand(&cmd, "count").group.as_deref(),
        Some("Views & Reports")
    );
}

#[test]
fn test_parse_flags() {
    let (cmd, _globals, _) = parse_help_output(BD_HELP);

    let db_flag = cmd.flags.iter().find(|f| f.long == "db").unwrap();
    assert_eq!(db_flag.value_type.as_deref(), Some("string"));
    assert!(db_flag.description.contains("Database path"));
    assert_eq!(db_flag.default.as_deref(), Some("auto-discover .beads/*.db"));

    let verbose_flag = cmd.flags.iter().find(|f| f.long == "verbose").unwrap();
    assert_eq!(verbose_flag.short, Some('v'));
    assert_eq!(verbose_flag.value_type, None);

    let quiet_flag = cmd.flags.iter().find(|f| f.long == "quiet").unwrap();
    assert_eq!(quiet_flag.short, Some('q'));

    let help_flag = cmd.flags.iter().find(|f| f.long == "help").unwrap();
    assert_eq!(help_flag.short, Some('h'));
}

#[test]
fn test_parse_bool_vs_string_flags() {
    let (cmd, _, _) = parse_help_output(BD_HELP);

    // --json is a bool flag (no value type)
    let json_flag = cmd.flags.iter().find(|f| f.long == "json").unwrap();
    assert_eq!(json_flag.value_type, None);

    // --db is a string flag
    let db_flag = cmd.flags.iter().find(|f| f.long == "db").unwrap();
    assert_eq!(db_flag.value_type.as_deref(), Some("string"));
}

#[test]
fn test_parse_subcommand_with_aliases() {
    let (cmd, _globals, _) = parse_help_output(CREATE_HELP);

    assert_eq!(cmd.aliases, vec!["new"]);
}

#[test]
fn test_parse_subcommand_flags() {
    let (cmd, globals, _) = parse_help_output(CREATE_HELP);

    // Local flags
    let priority = cmd.flags.iter().find(|f| f.long == "priority").unwrap();
    assert_eq!(priority.short, Some('p'));
    assert_eq!(priority.value_type.as_deref(), Some("string"));
    assert_eq!(priority.default.as_deref(), Some("2"));

    let labels = cmd.flags.iter().find(|f| f.long == "labels").unwrap();
    assert_eq!(labels.value_type.as_deref(), Some("strings"));

    // Global flags
    let db = globals.iter().find(|f| f.long == "db").unwrap();
    assert_eq!(db.value_type.as_deref(), Some("string"));
}

#[test]
fn test_parse_subcommand_with_subcommands() {
    let (cmd, _, _) = parse_help_output(EPIC_HELP);

    assert_eq!(cmd.subcommands.len(), 2);
    assert!(cmd.subcommands.iter().any(|c| c.name == "close-eligible"));
    assert!(cmd.subcommands.iter().any(|c| c.name == "status"));
    assert_eq!(
        subcommand(&cmd, "close-eligible").description,
        "Close epics where all children are complete"
    );
}

#[test]
fn test_parse_usage() {
    let (cmd, _, _) = parse_help_output(CREATE_HELP);
    assert_eq!(cmd.usage.as_deref(), Some("bd create [title] [flags]"));
}

#[test]
fn test_parse_flag_default_extraction() {
    let (cmd, _, _) = parse_help_output(CREATE_HELP);

    let type_flag = cmd.flags.iter().find(|f| f.long == "type").unwrap();
    assert_eq!(type_flag.default.as_deref(), Some("task"));

    // Flags without defaults
    let assignee = cmd.flags.iter().find(|f| f.long == "assignee").unwrap();
    assert_eq!(assignee.default, None);
}

#[test]
fn test_parse_is_idempotent() {
    let first = parse_help_output(BD_HELP);
    let second = parse_help_output(BD_HELP);
    assert_eq!(first.0, second.0);
    assert_eq!(first.1, second.1);
    assert_eq!(first.2, second.2);
}

#[test]
fn test_parse_empty_text() {
    let (cmd, globals, groups) = parse_help_output("");
    assert_eq!(cmd.name, "");
    assert_eq!(cmd.description, "");
    assert_eq!(cmd.usage, None);
    assert!(cmd.aliases.is_empty());
    assert!(cmd.flags.is_empty());
    assert!(cmd.subcommands.is_empty());
    assert!(globals.is_empty());
    assert!(groups.is_empty());
}

#[test]
fn test_single_alias_token_yields_no_aliases() {
    let text = "Some command\n\nAliases:\n  create\n";
    let (cmd, _, _) = parse_help_output(text);
    assert!(cmd.aliases.is_empty());
}

#[test]
fn test_flag_section_scenario() {
    let text = "Flags:\n      --db string   Database path (default: auto-discover .beads/*.db)\n  -v, --verbose     Enable verbose/debug output\n";
    let (cmd, _, _) = parse_help_output(text);
    assert_eq!(cmd.flags.len(), 2);
    assert_eq!(cmd.flags[0].long, "db");
    assert_eq!(cmd.flags[0].short, None);
    assert_eq!(cmd.flags[0].value_type.as_deref(), Some("string"));
    assert_eq!(
        cmd.flags[0].default.as_deref(),
        Some("auto-discover .beads/*.db")
    );
    assert_eq!(cmd.flags[1].long, "verbose");
    assert_eq!(cmd.flags[1].short, Some('v'));
    assert_eq!(cmd.flags[1].value_type, None);
    assert_eq!(cmd.flags[1].default, None);
}

#[test]
fn test_command_listing_scenario() {
    let text = "Working With Issues:\n  create           Create a new issue\n";
    let (cmd, _, groups) = parse_help_output(text);
    assert_eq!(cmd.subcommands.len(), 1);
    assert_eq!(cmd.subcommands[0].name, "create");
    assert_eq!(cmd.subcommands[0].description, "Create a new issue");
    assert_eq!(
        cmd.subcommands[0].group.as_deref(),
        Some("Working With Issues")
    );
    assert_eq!(groups.len(), 1);
    assert_eq!(groups[0].name, "Working With Issues");
    assert_eq!(groups[0].commands, vec!["create"]);
}

#[test]
fn test_default_without_quotes_or_colon() {
    let text = "Flags:\n  -p, --priority string   Priority level (default \"2\")\n";
    let (cmd, _, _) = parse_help_output(text);
    let p = cmd.flags.iter().find(|f| f.long == "priority").unwrap();
    assert_eq!(p.default.as_deref(), Some("2"));
    assert!(p.description.contains("(default \"2\")"));
}

#[test]
fn test_flag_line_without_long_name_is_skipped() {
    let text = "Flags:\n  -v            Verbose only, no long form\n  plain words here\n";
    let (cmd, _, _) = parse_help_output(text);
    assert!(cmd.flags.is_empty());
}

#[test]
fn test_misclassified_flag_line_in_commands_section() {
    let text = "Available Commands:\n  --not-a-command   This is a flag, not a command\n";
    let (cmd, _, groups) = parse_help_output(text);
    assert!(cmd.subcommands.is_empty());
    assert!(groups.is_empty());
}

#[test]
fn test_usage_keeps_first_line_only() {
    let text = "Usage:\n  bd [flags]\n  bd [command]\n";
    let (cmd, _, _) = parse_help_output(text);
    assert_eq!(cmd.usage.as_deref(), Some("bd [flags]"));
}

#[test]
fn test_preamble_hint_lines_discarded() {
    let text = "A tool.\nUse \"bd --help\" for details.\nSecond line.\n";
    let (cmd, _, _) = parse_help_output(text);
    assert_eq!(cmd.description, "A tool. Second line.");
}

#[test]
fn test_value_type_keyword_list() {
    for kw in [
        "string", "strings", "int", "int32", "int64", "float", "float64", "duration", "uint",
        "count",
    ] {
        let text = format!("Flags:\n      --opt {kw}   Some option\n");
        let (cmd, _, _) = parse_help_output(&text);
        assert_eq!(cmd.flags[0].value_type.as_deref(), Some(kw));
    }
    // A bare word outside the closed set is not absorbed across the gap: it
    // begins the description instead.
    let (cmd, _, _) = parse_help_output("Flags:\n      --opt  word   Some option\n");
    assert_eq!(cmd.flags[0].value_type, None);
    assert_eq!(cmd.flags[0].description, "word   Some option");
}
