use bd_complete::parser::is_value_type;
use bd_complete::parser::parse_command_line;
use bd_complete::parser::parse_flag_line;
use bd_complete::parser::split_flag_description;

#[test]
fn test_is_value_type_members() {
    assert!(is_value_type("string"));
    assert!(is_value_type("strings"));
    assert!(is_value_type("duration"));
    assert!(is_value_type("count"));
    assert!(!is_value_type("String"));
    assert!(!is_value_type("word"));
    assert!(!is_value_type(""));
}

#[test]
fn test_split_flag_description_plain() {
    let (fp, dp) = split_flag_description("  -v, --verbose   Enable verbose output");
    assert_eq!(fp, "  -v, --verbose");
    assert_eq!(dp, "Enable verbose output");
}

#[test]
fn test_split_flag_description_absorbs_value_type() {
    let (fp, dp) = split_flag_description("      --db string   Database path");
    assert_eq!(fp, "      --db string");
    assert_eq!(dp, "Database path");
}

#[test]
fn test_split_flag_description_no_boundary() {
    let (fp, dp) = split_flag_description("--flag only");
    assert_eq!(fp, "--flag only");
    assert_eq!(dp, "");
}

#[test]
fn test_parse_flag_line_full() {
    let f = parse_flag_line("  -p, --priority string   Priority (default \"2\")").unwrap();
    assert_eq!(f.long, "priority");
    assert_eq!(f.short, Some('p'));
    assert_eq!(f.value_type.as_deref(), Some("string"));
    assert_eq!(f.description, "Priority (default \"2\")");
    assert_eq!(f.default.as_deref(), Some("2"));
}

#[test]
fn test_parse_flag_line_rejects_without_dash() {
    assert!(parse_flag_line("no dashes here at all").is_none());
    assert!(parse_flag_line("").is_none());
}

#[test]
fn test_parse_flag_line_rejects_without_long_name() {
    assert!(parse_flag_line("  -v   Verbose only").is_none());
}

#[test]
fn test_parse_command_line_two_columns() {
    let c = parse_command_line("  create           Create a new issue").unwrap();
    assert_eq!(c.name, "create");
    assert_eq!(c.description, "Create a new issue");
    assert!(c.group.is_none());
    assert!(c.subcommands.is_empty());
}

#[test]
fn test_parse_command_line_name_only() {
    let c = parse_command_line("  version").unwrap();
    assert_eq!(c.name, "version");
    assert_eq!(c.description, "");
}

#[test]
fn test_parse_command_line_rejects_dash_and_empty() {
    assert!(parse_command_line("  --flag   Not a command").is_none());
    assert!(parse_command_line("   ").is_none());
}
