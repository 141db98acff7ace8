//! The line classifier and section parser for help text in the common
//! "section + two-column listing" style.

use vstd::prelude::*;

verus! {

use vstd::string::StrSliceExecFns;
use vstd::string::StringExecFns;
use crate::command_tree::Command;
use crate::command_tree::CommandGroup;
use crate::command_tree::Flag;
use crate::command_tree::FlagModel;
use crate::command_tree::GroupModel;
use crate::command_tree::StubModel;
use crate::command_tree::flags_match;
use crate::command_tree::groups_match;
use crate::command_tree::is_stub;
use crate::command_tree::opt_string_view;
use crate::command_tree::strings_match;
use crate::command_tree::strings_view;
use crate::command_tree::strs_match;
use crate::command_tree::stub_of;
use crate::command_tree::stubs_match;
use crate::text::contains_char;
use crate::text::find_char;
use crate::text::find_sub;
use crate::text::join_space;
use crate::text::lines_of;
use crate::text::spec_join_space;
use crate::text::spec_lines;
use crate::text::spec_starts_with;
use crate::text::split_str;
use crate::text::str_starts_with;
use crate::text::is_substring_of;
use crate::text::is_wspace;
use crate::text::lemma_find_char_bounds;
use crate::text::lemma_find_sub_bounds;
use crate::text::lemma_strip_leading_substring;
use crate::text::lemma_strip_prefix_rep_substring;
use crate::text::lemma_strip_trailing_substring;
use crate::text::lemma_substring_trans;
use crate::text::lemma_trim_substring;
use crate::text::scan_spaces;
use crate::text::scan_spaces_at;
use crate::text::scan_to_space;
use crate::text::scan_to_space_at;
use crate::text::seq_contains_char;
use crate::text::spec_find;
use crate::text::spec_find_sub;
use crate::text::spec_split_ws;
use crate::text::spec_trim;
use crate::text::spec_trim_end;
use crate::text::spec_trim_start;
use crate::text::split_ws;
use crate::text::str_eq;
use crate::text::strip_leading;
use crate::text::strip_leading_str;
use crate::text::strip_prefix_rep;
use crate::text::strip_prefix_rep_str;
use crate::text::strip_trailing;
use crate::text::strip_trailing_str;
use crate::text::trim_str;

/// The closed set of tokens recognized as a flag's value-type annotation.
pub open spec fn spec_is_value_type(s: Seq<char>) -> bool {
    ||| s == "string"@
    ||| s == "strings"@
    ||| s == "int"@
    ||| s == "int32"@
    ||| s == "int64"@
    ||| s == "float"@
    ||| s == "float64"@
    ||| s == "duration"@
    ||| s == "uint"@
    ||| s == "count"@
}

pub fn is_value_type(s: &str) -> (b: bool)
    ensures
        b == spec_is_value_type(s@),
{
    str_eq(s, "string") || str_eq(s, "strings") || str_eq(s, "int") || str_eq(s, "int32") || str_eq(
        s,
        "int64",
    ) || str_eq(s, "float") || str_eq(s, "float64") || str_eq(s, "duration") || str_eq(s, "uint")
        || str_eq(s, "count")
}

/// The boundary walk that separates a flag line into its flag segment and its
/// description segment, starting at position `i` with `found` telling whether
/// a dash-bearing token has been seen.
pub open spec fn spec_sfd_from(l: Seq<char>, i: int, found: bool) -> (Seq<char>, Seq<char>)
    decreases l.len() - i,
    when 0 <= i <= l.len()
{
    if i >= l.len() {
        (l, Seq::empty())
    } else {
        let tok_end = scan_to_space(l, i);
        let found2 = found || seq_contains_char(l.subrange(i, tok_end), '-');
        let sp_end = scan_spaces(l, tok_end);
        if found2 && sp_end - tok_end >= 2 && sp_end < l.len() {
            let next_end = scan_to_space(l, sp_end);
            if spec_is_value_type(l.subrange(sp_end, next_end)) {
                let after = scan_spaces(l, next_end);
                (l.take(next_end), l.skip(after))
            } else {
                (l.take(tok_end), l.skip(sp_end))
            }
        } else if i < sp_end <= l.len() {
            spec_sfd_from(l, sp_end, found2)
        } else {
            (l, Seq::empty())
        }
    }
}

/// The flag segment and description segment of a flag line: the description
/// starts at the first gap of two or more spaces after a dash-bearing token,
/// except that a value-type keyword right after such a gap is absorbed into
/// the flag segment.
pub open spec fn spec_split_flag_desc(l: Seq<char>) -> (Seq<char>, Seq<char>) {
    spec_sfd_from(l, scan_spaces(l, 0), false)
}

pub fn split_flag_description<'a>(line: &'a str) -> (r: (&'a str, &'a str))
    ensures
        r.0@ == spec_split_flag_desc(line@).0,
        r.1@ == spec_split_flag_desc(line@).1,
{
    let n = line.unicode_len();
    let mut i = scan_spaces_at(line, 0);
    let mut found = false;
    while i < n
        invariant
            n as nat == line@.len(),
            i <= n,
            spec_split_flag_desc(line@) == spec_sfd_from(line@, i as int, found),
        decreases n - i,
    {
        let tok_end = scan_to_space_at(line, i);
        let tok = line.substring_char(i, tok_end);
        let found2 = found || contains_char(tok, '-');
        let sp_end = scan_spaces_at(line, tok_end);
        if found2 && sp_end - tok_end >= 2 && sp_end < n {
            let next_end = scan_to_space_at(line, sp_end);
            let next_tok = line.substring_char(sp_end, next_end);
            if is_value_type(next_tok) {
                let after = scan_spaces_at(line, next_end);
                let fp = line.substring_char(0, next_end);
                let dp = line.substring_char(after, n);
                proof {
                    assert(fp@ =~= line@.take(next_end as int));
                    assert(dp@ =~= line@.skip(after as int));
                }
                return (fp, dp);
            } else {
                let fp = line.substring_char(0, tok_end);
                let dp = line.substring_char(sp_end, n);
                proof {
                    assert(fp@ =~= line@.take(tok_end as int));
                    assert(dp@ =~= line@.skip(sp_end as int));
                }
                return (fp, dp);
            }
        } else {
            i = sp_end;
            found = found2;
        }
    }
    let empty = line.substring_char(n, n);
    proof {
        assert(empty@ =~= Seq::<char>::empty());
    }
    (line, empty)
}

/// One pass over the (comma-stripped) tokens of a flag segment, accumulating
/// the long name, the short form and the value-type annotation.
pub open spec fn spec_flag_tokens_from(
    toks: Seq<Seq<char>>,
    i: int,
    long: Seq<char>,
    short: Option<char>,
    vt: Option<Seq<char>>,
) -> (Seq<char>, Option<char>, Option<Seq<char>>)
    decreases toks.len() - i,
    when 0 <= i <= toks.len()
{
    if i >= toks.len() {
        (long, short, vt)
    } else {
        let tok = strip_trailing(toks[i], ',');
        if tok.len() >= 2 && tok[0] == '-' && tok[1] == '-' {
            spec_flag_tokens_from(toks, i + 1, strip_leading(tok, '-'), short, vt)
        } else if tok.len() == 2 && tok[0] == '-' {
            spec_flag_tokens_from(toks, i + 1, long, Some(tok[1]), vt)
        } else if tok.len() > 0 && tok[0] != '-' {
            spec_flag_tokens_from(toks, i + 1, long, short, Some(tok))
        } else {
            spec_flag_tokens_from(toks, i + 1, long, short, vt)
        }
    }
}

/// The default value embedded in a flag description: the text between the
/// first `(default` and the next `)`, with an optional `:`, surrounding
/// whitespace and enclosing double quotes stripped; absent when empty.
pub open spec fn spec_extract_default(d: Seq<char>) -> Option<Seq<char>> {
    match spec_find_sub(d, "(default"@) {
        Some(start) => {
            let rel = spec_find(d.skip(start), ')');
            if rel < d.skip(start).len() {
                let cand = d.subrange(start, start + rel + 1);
                let v1 = strip_prefix_rep(cand, "(default"@);
                let v2 = strip_leading(v1, ':');
                let v3 = spec_trim(v2);
                let v4 = strip_trailing(v3, ')');
                let v5 = spec_trim(v4);
                let v6 = strip_leading(strip_trailing(v5, '"'), '"');
                if v6.len() == 0 {
                    None
                } else {
                    Some(v6)
                }
            } else {
                None
            }
        },
        None => None,
    }
}

pub open spec fn opt_str_ref_view(o: Option<&str>) -> Option<Seq<char>> {
    match o {
        Some(s) => Some(s@),
        None => None,
    }
}

fn extract_default(d: &str) -> (r: Option<String>)
    ensures
        opt_string_view(r) == spec_extract_default(d@),
{
    proof {
        reveal_strlit("(default");
    }
    let n = d.unicode_len();
    match find_sub(d, "(default") {
        Some(start) => {
            let suffix = d.substring_char(start, n);
            proof {
                assert(suffix@ =~= d@.skip(start as int));
            }
            let rel = find_char(suffix, ')');
            let sn = suffix.unicode_len();
            if rel < sn {
                let cand = d.substring_char(start, start + rel + 1);
                proof {
                    assert(cand@ =~= d@.subrange(start as int, start as int + rel + 1));
                }
                let v1 = strip_prefix_rep_str(cand, "(default");
                let v2 = strip_leading_str(v1, ':');
                let v3 = trim_str(v2);
                let v4 = strip_trailing_str(v3, ')');
                let v5 = trim_str(v4);
                let v6 = strip_leading_str(strip_trailing_str(v5, '"'), '"');
                if v6.unicode_len() == 0 {
                    None
                } else {
                    Some(String::from_str(v6))
                }
            } else {
                None
            }
        },
        None => None,
    }
}

/// The flag a flag-declaration line declares: `None` when the line holds no
/// dash or no long-name token.
pub open spec fn spec_parse_flag_line(l: Seq<char>) -> Option<FlagModel> {
    let t = spec_trim(l);
    if t.len() == 0 || !seq_contains_char(t, '-') {
        None
    } else {
        let fd = spec_split_flag_desc(t);
        let toks = spec_split_ws(fd.0);
        let acc = spec_flag_tokens_from(toks, 0, Seq::empty(), None, None);
        if acc.0.len() == 0 {
            None
        } else {
            Some(
                FlagModel {
                    long: acc.0,
                    short: acc.1,
                    description: fd.1,
                    value_type: acc.2,
                    default: spec_extract_default(fd.1),
                },
            )
        }
    }
}

pub fn parse_flag_line(line: &str) -> (r: Option<Flag>)
    ensures
        match r {
            Some(f) => spec_parse_flag_line(line@) == Some(f@),
            None => spec_parse_flag_line(line@) is None,
        },
{
    let t = trim_str(line);
    if t.unicode_len() == 0 || !contains_char(t, '-') {
        return None;
    }
    let (fp, dp) = split_flag_description(t);
    let toks = split_ws(fp);
    let ghost toks_dv = toks.deep_view();
    let mut long: &str = fp.substring_char(0, 0);
    let mut short: Option<char> = None;
    let mut vt: Option<&str> = None;
    proof {
        assert(long@ =~= Seq::<char>::empty());
    }
    let m = toks.len();
    let mut i: usize = 0;
    while i < m
        invariant
            m as nat == toks@.len(),
            toks_dv == toks.deep_view(),
            i <= m,
            spec_flag_tokens_from(toks_dv, 0, Seq::empty(), None, None) == spec_flag_tokens_from(
                toks_dv,
                i as int,
                long@,
                short,
                opt_str_ref_view(vt),
            ),
        decreases m - i,
    {
        let tok = strip_trailing_str(toks[i], ',');
        let tn = tok.unicode_len();
        if tn >= 2 && tok.get_char(0) == '-' && tok.get_char(1) == '-' {
            long = strip_leading_str(tok, '-');
        } else if tn == 2 && tok.get_char(0) == '-' {
            short = Some(tok.get_char(1));
        } else if tn > 0 && tok.get_char(0) != '-' {
            vt = Some(tok);
        }
        i += 1;
    }
    if long.unicode_len() == 0 {
        return None;
    }
    let default = extract_default(dp);
    let f = Flag {
        long: String::from_str(long),
        short,
        description: String::from_str(dp),
        value_type: match vt {
            Some(s) => Some(String::from_str(s)),
            None => None,
        },
        default,
    };
    proof {
        assert(spec_parse_flag_line(line@) == Some(f@));
    }
    Some(f)
}

/// The subcommand stub a command-listing line declares: the first column is
/// the name, the rest (after a gap of two or more spaces) the description.
/// `None` when the name is empty or starts with a dash.
pub open spec fn spec_parse_command_line(l: Seq<char>) -> Option<StubModel> {
    let t = spec_trim(l);
    if t.len() == 0 {
        None
    } else {
        let sp = spec_find_sub(t, "  "@);
        let name_raw = match sp {
            Some(j) => t.take(j),
            None => t,
        };
        let desc_raw = match sp {
            Some(j) => t.skip(j + 2),
            None => Seq::<char>::empty(),
        };
        let name = spec_trim(name_raw);
        let desc = spec_trim(desc_raw);
        if name.len() == 0 || name[0] == '-' {
            None
        } else {
            Some(StubModel { name, description: desc, group: None })
        }
    }
}

pub fn parse_command_line(line: &str) -> (r: Option<Command>)
    ensures
        match r {
            Some(c) => spec_parse_command_line(line@) is Some && is_stub(
                c,
                spec_parse_command_line(line@).unwrap(),
            ),
            None => spec_parse_command_line(line@) is None,
        },
{
    proof {
        reveal_strlit("  ");
    }
    let t = trim_str(line);
    let tn = t.unicode_len();
    if tn == 0 {
        return None;
    }
    let (name_raw, desc_raw) = match find_sub(t, "  ") {
        Some(j) => {
            let nr = t.substring_char(0, j);
            let dr = t.substring_char(j + 2, tn);
            proof {
                assert(nr@ =~= t@.take(j as int));
                assert(dr@ =~= t@.skip(j as int + 2));
            }
            (nr, dr)
        },
        None => {
            let dr = t.substring_char(tn, tn);
            proof {
                assert(dr@ =~= Seq::<char>::empty());
            }
            (t, dr)
        },
    };
    let name = trim_str(name_raw);
    let desc = trim_str(desc_raw);
    let nn = name.unicode_len();
    if nn == 0 || name.get_char(0) == '-' {
        return None;
    }
    let c = Command::new(String::from_str(name), String::from_str(desc));
    Some(c)
}

/// The classifier's section states.
#[verifier::ext_equal]
pub enum SectionModel {
    Preamble,
    Usage,
    Aliases,
    Commands(Seq<char>),
    Flags,
    GlobalFlags,
}

/// The accumulator of the line-by-line pass.
#[verifier::ext_equal]
pub struct ParseAcc {
    pub section: SectionModel,
    pub desc_lines: Seq<Seq<char>>,
    pub usage: Option<Seq<char>>,
    pub raw_aliases: Seq<Seq<char>>,
    pub flags: Seq<FlagModel>,
    pub global_flags: Seq<FlagModel>,
    pub subs: Seq<StubModel>,
    pub groups: Seq<GroupModel>,
    pub cur_name: Option<Seq<char>>,
    pub cur_cmds: Seq<Seq<char>>,
}

pub open spec fn init_acc() -> ParseAcc {
    ParseAcc {
        section: SectionModel::Preamble,
        desc_lines: Seq::empty(),
        usage: None,
        raw_aliases: Seq::empty(),
        flags: Seq::empty(),
        global_flags: Seq::empty(),
        subs: Seq::empty(),
        groups: Seq::empty(),
        cur_name: None,
        cur_cmds: Seq::empty(),
    }
}

/// A section header: a line that does not start with a space or tab and ends
/// with a colon.
pub open spec fn spec_is_header(l: Seq<char>) -> bool {
    l.len() > 0 && l[0] != ' ' && l[0] != '\t' && l.last() == ':'
}

/// Close the open command group, appending it to `groups` when it has
/// accumulated at least one command.
pub open spec fn spec_flush_group(a: ParseAcc) -> ParseAcc {
    if a.cur_name is Some && a.cur_cmds.len() > 0 {
        ParseAcc {
            groups: a.groups.push(GroupModel { name: a.cur_name.unwrap(), commands: a.cur_cmds }),
            cur_name: None,
            cur_cmds: Seq::empty(),
            ..a
        }
    } else {
        ParseAcc { cur_name: None, ..a }
    }
}

pub open spec fn spec_header_step(a: ParseAcc, l: Seq<char>) -> ParseAcc {
    let a2 = spec_flush_group(a);
    let h = spec_trim(strip_trailing(l, ':'));
    if h == "Usage"@ {
        ParseAcc { section: SectionModel::Usage, ..a2 }
    } else if h == "Aliases"@ {
        ParseAcc { section: SectionModel::Aliases, ..a2 }
    } else if h == "Flags"@ {
        ParseAcc { section: SectionModel::Flags, ..a2 }
    } else if h == "Global Flags"@ {
        ParseAcc { section: SectionModel::GlobalFlags, ..a2 }
    } else {
        ParseAcc { section: SectionModel::Commands(h), cur_name: Some(h), ..a2 }
    }
}

/// The trimmed, non-empty comma-separated tokens of an aliases line, from
/// segment `i` on.
pub open spec fn spec_alias_tokens_from(segs: Seq<Seq<char>>, i: int) -> Seq<Seq<char>>
    decreases segs.len() - i,
    when 0 <= i <= segs.len()
{
    if i >= segs.len() {
        Seq::empty()
    } else {
        let t = spec_trim(segs[i]);
        let rest = spec_alias_tokens_from(segs, i + 1);
        if t.len() > 0 {
            seq![t] + rest
        } else {
            rest
        }
    }
}

pub open spec fn spec_alias_tokens(l: Seq<char>) -> Seq<Seq<char>> {
    spec_alias_tokens_from(crate::text::spec_split(l, ','), 0)
}

/// Index of the first stub named `name` at or after `i`, or `subs.len()`.
pub open spec fn first_stub_idx_at(subs: Seq<StubModel>, name: Seq<char>, i: int) -> int
    decreases subs.len() - i,
    when 0 <= i <= subs.len()
{
    if i >= subs.len() {
        i
    } else if subs[i].name == name {
        i
    } else {
        first_stub_idx_at(subs, name, i + 1)
    }
}

/// Record a stub under its name, replacing an earlier stub of the same name
/// in place and appending otherwise.
pub open spec fn spec_insert_stub(subs: Seq<StubModel>, s: StubModel) -> Seq<StubModel> {
    let i = first_stub_idx_at(subs, s.name, 0);
    if 0 <= i < subs.len() {
        subs.update(i, s)
    } else {
        subs.push(s)
    }
}

pub open spec fn spec_body_step(a: ParseAcc, t: Seq<char>) -> ParseAcc {
    match a.section {
        SectionModel::Preamble => {
            if spec_starts_with(t, "Use \""@) {
                a
            } else {
                ParseAcc { desc_lines: a.desc_lines.push(t), ..a }
            }
        },
        SectionModel::Usage => {
            if a.usage is None {
                ParseAcc { usage: Some(t), ..a }
            } else {
                a
            }
        },
        SectionModel::Aliases => ParseAcc {
            raw_aliases: a.raw_aliases + spec_alias_tokens(t),
            ..a
        },
        SectionModel::Commands(g) => {
            match spec_parse_command_line(t) {
                Some(s) => {
                    let s2 = StubModel { group: Some(g), ..s };
                    ParseAcc {
                        cur_cmds: a.cur_cmds.push(s2.name),
                        subs: spec_insert_stub(a.subs, s2),
                        ..a
                    }
                },
                None => a,
            }
        },
        SectionModel::Flags => {
            match spec_parse_flag_line(t) {
                Some(f) => ParseAcc { flags: a.flags.push(f), ..a },
                None => a,
            }
        },
        SectionModel::GlobalFlags => {
            match spec_parse_flag_line(t) {
                Some(f) => ParseAcc { global_flags: a.global_flags.push(f), ..a },
                None => a,
            }
        },
    }
}

/// One line of the classifier: headers switch the section (flushing the open
/// group), blank lines are skipped, and other lines feed the current section.
pub open spec fn spec_step(a: ParseAcc, l: Seq<char>) -> ParseAcc {
    if spec_is_header(l) {
        spec_header_step(a, l)
    } else {
        let t = spec_trim(l);
        if t.len() == 0 {
            a
        } else {
            spec_body_step(a, t)
        }
    }
}

pub open spec fn spec_fold_from(a: ParseAcc, lines: Seq<Seq<char>>, i: int) -> ParseAcc
    decreases lines.len() - i,
    when 0 <= i <= lines.len()
{
    if i >= lines.len() {
        a
    } else {
        spec_fold_from(spec_step(a, lines[i]), lines, i + 1)
    }
}

/// The model of one parsed help text.
#[verifier::ext_equal]
pub struct HelpModel {
    pub description: Seq<char>,
    pub usage: Option<Seq<char>>,
    pub aliases: Seq<Seq<char>>,
    pub flags: Seq<FlagModel>,
    pub global_flags: Seq<FlagModel>,
    pub subcommands: Seq<StubModel>,
    pub groups: Seq<GroupModel>,
}

/// Close the final group, join the description lines with single spaces, and
/// drop the first alias token (the command's own name) when more than one was
/// collected.
pub open spec fn spec_finalize(a0: ParseAcc) -> HelpModel {
    let a = spec_flush_group(a0);
    HelpModel {
        description: spec_join_space(a.desc_lines),
        usage: a.usage,
        aliases: if a.raw_aliases.len() > 1 {
            a.raw_aliases.drop_first()
        } else {
            Seq::empty()
        },
        flags: a.flags,
        global_flags: a.global_flags,
        subcommands: a.subs,
        groups: a.groups,
    }
}

/// What parsing a whole help text yields.
pub open spec fn spec_parse_help(t: Seq<char>) -> HelpModel {
    spec_finalize(spec_fold_from(init_acc(), spec_lines(t), 0))
}

/// Parsing is a pure function of the text: equal texts yield equal models,
/// so classifying the same help text twice gives structurally equal results.
pub proof fn lemma_parse_deterministic(t1: Seq<char>, t2: Seq<char>)
    requires
        t1 == t2,
    ensures
        spec_parse_help(t1) == spec_parse_help(t2),
{
}

/// The alias rule: when the aliases section collected the tokens
/// `[n, a1, a2, ...]` (the first being the command's own name), the final
/// aliases are `[a1, a2, ...]`; with one token or none, there are no aliases.
pub proof fn lemma_alias_dedup(a: ParseAcc)
    ensures
        a.raw_aliases.len() > 1 ==> spec_finalize(a).aliases == a.raw_aliases.drop_first(),
        a.raw_aliases.len() <= 1 ==> spec_finalize(a).aliases == Seq::<Seq<char>>::empty(),
{
}

/// A token of a flag segment that contributes a value-type annotation: after
/// comma stripping it is non-empty and does not start with a dash.
pub open spec fn is_bare_token(tok: Seq<char>) -> bool {
    let t = strip_trailing(tok, ',');
    t.len() > 0 && t[0] != '-'
}

proof fn lemma_vt_from(
    toks: Seq<Seq<char>>,
    i: int,
    long: Seq<char>,
    short: Option<char>,
    vt: Option<Seq<char>>,
)
    requires
        0 <= i <= toks.len(),
    ensures
        ({
            let acc = spec_flag_tokens_from(toks, i, long, short, vt);
            if exists|k: int| i <= k < toks.len() && is_bare_token(#[trigger] toks[k]) {
                exists|k: int|
                    i <= k < toks.len() && is_bare_token(#[trigger] toks[k]) && acc.2 == Some(
                        strip_trailing(toks[k], ','),
                    ) && forall|k2: int| k < k2 < toks.len() ==> !is_bare_token(#[trigger] toks[k2])
            } else {
                acc.2 == vt
            }
        }),
    decreases toks.len() - i,
{
    if i < toks.len() {
        let tok = strip_trailing(toks[i], ',');
        if tok.len() >= 2 && tok[0] == '-' && tok[1] == '-' {
            lemma_vt_from(toks, i + 1, strip_leading(tok, '-'), short, vt);
        } else if tok.len() == 2 && tok[0] == '-' {
            lemma_vt_from(toks, i + 1, long, Some(tok[1]), vt);
        } else if tok.len() > 0 && tok[0] != '-' {
            lemma_vt_from(toks, i + 1, long, short, Some(tok));
            if !(exists|k: int| i + 1 <= k < toks.len() && is_bare_token(#[trigger] toks[k])) {
                assert(is_bare_token(toks[i]) && spec_flag_tokens_from(toks, i, long, short, vt).2
                    == Some(strip_trailing(toks[i], ',')));
            }
        } else {
            lemma_vt_from(toks, i + 1, long, short, vt);
            assert(!is_bare_token(toks[i]));
        }
    }
}

/// The value-type rule: a flag segment's value type is the last bare token
/// (non-empty after comma stripping, not starting with a dash) among its
/// tokens; a segment with no bare token yields a boolean flag (no value
/// type).
pub proof fn lemma_value_type_rule(toks: Seq<Seq<char>>)
    ensures
        ({
            let acc = spec_flag_tokens_from(toks, 0, Seq::empty(), None, None);
            &&& (acc.2 is None <==> forall|k: int|
                0 <= k < toks.len() ==> !is_bare_token(#[trigger] toks[k]))
            &&& (acc.2 is Some ==> exists|k: int|
                0 <= k < toks.len() && is_bare_token(#[trigger] toks[k]) && acc.2 == Some(
                    strip_trailing(toks[k], ','),
                ) && forall|k2: int| k < k2 < toks.len() ==> !is_bare_token(#[trigger] toks[k2]))
        }),
{
    lemma_vt_from(toks, 0, Seq::empty(), None, None);
}

/// A recovered default value is always a contiguous substring of the
/// description it was extracted from: extraction only narrows the annotation
/// text, never rewrites it.
pub proof fn lemma_default_is_substring(d: Seq<char>)
    ensures
        spec_extract_default(d) is Some ==> is_substring_of(spec_extract_default(d).unwrap(), d),
{
    reveal_strlit("(default");
    let p8 = "(default"@;
    if spec_extract_default(d) is Some {
        lemma_find_sub_bounds(d, p8, 0);
        let start = spec_find_sub(d, p8).unwrap();
        lemma_find_char_bounds(d.skip(start), ')', 0);
        let rel = spec_find(d.skip(start), ')');
        let cand = d.subrange(start, start + rel + 1);
        assert(is_substring_of(cand, d));
        let v1 = strip_prefix_rep(cand, p8);
        lemma_strip_prefix_rep_substring(cand, p8);
        lemma_substring_trans(v1, cand, d);
        let v2 = strip_leading(v1, ':');
        lemma_strip_leading_substring(v1, ':');
        lemma_substring_trans(v2, v1, d);
        let v3 = spec_trim(v2);
        lemma_trim_substring(v2);
        lemma_substring_trans(v3, v2, d);
        let v4 = strip_trailing(v3, ')');
        lemma_strip_trailing_substring(v3, ')');
        lemma_substring_trans(v4, v3, d);
        let v5 = spec_trim(v4);
        lemma_trim_substring(v4);
        lemma_substring_trans(v5, v4, d);
        let v5b = strip_trailing(v5, '"');
        lemma_strip_trailing_substring(v5, '"');
        lemma_substring_trans(v5b, v5, d);
        let v6 = strip_leading(v5b, '"');
        lemma_strip_leading_substring(v5b, '"');
        lemma_substring_trans(v6, v5b, d);
    }
}

/// Default-extraction round trip: in a description of the shape
/// `pre + "(default: \"" + v + "\")" + suf` whose first `(default` occurrence
/// starts right after `pre`, a value `v` that is non-empty, holds no closing
/// parenthesis and no double quote, and neither starts nor ends with
/// whitespace is recovered exactly. Extraction never rewrites the
/// description itself, so the annotation text stays in it.
pub proof fn lemma_default_round_trip(pre: Seq<char>, v: Seq<char>, suf: Seq<char>)
    requires
        v.len() > 0,
        !seq_contains_char(v, ')'),
        !seq_contains_char(v, '"'),
        !is_wspace(v[0]),
        !is_wspace(v[v.len() - 1]),
        spec_find_sub(pre + "(default: \""@ + v + "\")"@ + suf, "(default"@) == Some(
            pre.len() as int,
        ),
    ensures
        spec_extract_default(pre + "(default: \""@ + v + "\")"@ + suf) == Some(v),
{
    reveal_strlit("(default");
    reveal_strlit("(default: \"");
    reveal_strlit("\")");
    let p8 = "(default"@;
    let p11 = "(default: \""@;
    let p2 = "\")"@;
    assert(p8.len() == 8);
    assert(p11.len() == 11);
    assert(p2.len() == 2);
    let d = pre + p11 + v + p2 + suf;
    let start = pre.len() as int;
    let tail = d.skip(start);
    assert(tail =~= p11 + v + p2 + suf);
    let p = 12 + v.len() as int;
    assert(tail[p] == p2[1]);
    assert forall|j: int| 0 <= j < p implies tail[j] != ')' by {
        if j < 11 {
            assert(tail[j] == p11[j]);
        } else if j < 11 + v.len() {
            assert(tail[j] == v[j - 11]);
        } else {
            assert(tail[j] == p2[0]);
        }
    }
    crate::text::lemma_find_char_unique(tail, ')', 0, p);
    let rel = spec_find(tail, ')');
    assert(rel == p);
    let cand = d.subrange(start, start + rel + 1);
    assert(cand =~= p11 + v + seq!['"', ')']);
    assert(spec_starts_with(cand, p8)) by {
        assert(cand.subrange(0, 8) =~= p8);
    }
    let r1 = cand.skip(8);
    assert(r1 =~= seq![':', ' ', '"'] + v + seq!['"', ')']);
    assert(strip_prefix_rep(cand, p8) == strip_prefix_rep(r1, p8));
    assert(!spec_starts_with(r1, p8)) by {
        if spec_starts_with(r1, p8) {
            assert(r1.subrange(0, 8)[0] == r1[0]);
        }
    }
    assert(strip_prefix_rep(r1, p8) == r1);
    let r2 = r1.drop_first();
    assert(r1[0] == ':');
    assert(strip_leading(r1, ':') == strip_leading(r2, ':'));
    assert(r2 =~= seq![' ', '"'] + v + seq!['"', ')']);
    assert(r2[0] == ' ');
    assert(strip_leading(r2, ':') == r2);
    let r3 = r2.drop_first();
    assert(r3 =~= seq!['"'] + v + seq!['"', ')']);
    assert(spec_trim_start(r2) == spec_trim_start(r3));
    assert(r3[0] == '"' && !is_wspace('"'));
    assert(spec_trim_start(r3) == r3);
    assert(r3.last() == ')' && !is_wspace(')'));
    assert(spec_trim_end(r3) == r3);
    assert(spec_trim(r2) == r3);
    let r4 = r3.drop_last();
    assert(r4 =~= seq!['"'] + v + seq!['"']);
    assert(strip_trailing(r3, ')') == strip_trailing(r4, ')'));
    assert(r4.last() == '"');
    assert(strip_trailing(r4, ')') == r4);
    assert(spec_trim_start(r4) == r4);
    assert(spec_trim_end(r4) == r4);
    assert(spec_trim(r4) == r4);
    let r5 = r4.drop_last();
    assert(r5 =~= seq!['"'] + v);
    assert(strip_trailing(r4, '"') == strip_trailing(r5, '"'));
    assert(r5.last() == v[v.len() - 1]);
    assert(v[v.len() - 1] != '"');
    assert(strip_trailing(r5, '"') == r5);
    let r6 = r5.drop_first();
    assert(r6 =~= v);
    assert(strip_leading(r5, '"') == strip_leading(r6, '"'));
    assert(v[0] != '"');
    assert(strip_leading(r6, '"') == r6);
    assert(spec_extract_default(d) == Some(v));
}

pub open spec fn has_stub_named(subs: Seq<StubModel>, nm: Seq<char>) -> bool {
    exists|k: int| 0 <= k < subs.len() && (#[trigger] subs[k]).name == nm
}

pub open spec fn has_stub_in_group(subs: Seq<StubModel>, nm: Seq<char>, g: Seq<char>) -> bool {
    exists|k: int|
        0 <= k < subs.len() && (#[trigger] subs[k]).name == nm && subs[k].group == Some(g)
}

pub open spec fn seq_contains_name(cmds: Seq<Seq<char>>, nm: Seq<char>) -> bool {
    exists|k: int| 0 <= k < cmds.len() && #[trigger] cmds[k] == nm
}

/// `nm` is listed in a group after index `gi`, or in the open group.
pub open spec fn listed_later(a: ParseAcc, gi: int, nm: Seq<char>) -> bool {
    (exists|gj: int|
        gi < gj < a.groups.len() && seq_contains_name(
            (#[trigger] a.groups[gj]).commands,
            nm,
        )) || seq_contains_name(a.cur_cmds, nm)
}

/// Every name a closed group lists is backed by a stub, and that stub's group
/// is the group's name unless the name was listed again later.
pub open spec fn groups_backed(a: ParseAcc) -> bool {
    forall|gi: int, ci: int|
        0 <= gi < a.groups.len() && 0 <= ci < (#[trigger] a.groups[gi]).commands.len() ==> {
            let nm = #[trigger] a.groups[gi].commands[ci];
            has_stub_named(a.subs, nm) && (has_stub_in_group(a.subs, nm, a.groups[gi].name)
                || listed_later(a, gi, nm))
        }
}

/// The classifier invariant behind group/subcommand agreement.
pub open spec fn group_inv(a: ParseAcc) -> bool {
    &&& (a.cur_cmds.len() > 0 ==> a.cur_name is Some)
    &&& (match a.section {
        SectionModel::Commands(g) => a.cur_name == Some(g),
        _ => true,
    })
    &&& (forall|k: int|
        0 <= k < a.cur_cmds.len() ==> a.cur_name is Some && has_stub_in_group(
            a.subs,
            #[trigger] a.cur_cmds[k],
            a.cur_name.unwrap(),
        ))
    &&& groups_backed(a)
}

proof fn lemma_first_stub_idx(subs: Seq<StubModel>, name: Seq<char>, i: int)
    requires
        0 <= i <= subs.len(),
    ensures
        ({
            let r = first_stub_idx_at(subs, name, i);
            &&& i <= r <= subs.len()
            &&& r < subs.len() ==> subs[r].name == name
            &&& forall|j: int| i <= j < r ==> (#[trigger] subs[j]).name != name
        }),
    decreases subs.len() - i,
{
    if i < subs.len() && subs[i].name != name {
        lemma_first_stub_idx(subs, name, i + 1);
    }
}

/// No two stubs share a name.
pub open spec fn stub_names_unique(subs: Seq<StubModel>) -> bool {
    forall|k1: int, k2: int|
        0 <= k1 < k2 < subs.len() ==> (#[trigger] subs[k1]).name != (#[trigger] subs[k2]).name
}

proof fn lemma_insert_stub_unique(subs: Seq<StubModel>, s2: StubModel)
    requires
        stub_names_unique(subs),
    ensures
        stub_names_unique(spec_insert_stub(subs, s2)),
{
    lemma_first_stub_idx(subs, s2.name, 0);
    let r = spec_insert_stub(subs, s2);
    let idx = first_stub_idx_at(subs, s2.name, 0);
    assert forall|k1: int, k2: int| 0 <= k1 < k2 < r.len() implies (#[trigger] r[k1]).name != (
    #[trigger] r[k2]).name by {
        if idx < subs.len() {
            assert(r[k1].name == subs[k1].name && r[k2].name == subs[k2].name);
        } else {
            if k2 == subs.len() {
                assert(r[k1].name == subs[k1].name && r[k2].name == s2.name);
            }
        }
    }
}

proof fn lemma_step_names_unique(a: ParseAcc, l: Seq<char>)
    requires
        stub_names_unique(a.subs),
    ensures
        stub_names_unique(spec_step(a, l).subs),
{
    if !spec_is_header(l) {
        let t = spec_trim(l);
        if t.len() != 0 {
            match a.section {
                SectionModel::Commands(g) => {
                    match spec_parse_command_line(t) {
                        Some(s) => {
                            lemma_insert_stub_unique(a.subs, StubModel { group: Some(g), ..s });
                        },
                        None => {},
                    }
                },
                _ => {},
            }
        }
    }
}

proof fn lemma_fold_names_unique(a: ParseAcc, lines: Seq<Seq<char>>, i: int)
    requires
        stub_names_unique(a.subs),
        0 <= i <= lines.len(),
    ensures
        stub_names_unique(spec_fold_from(a, lines, i).subs),
    decreases lines.len() - i,
{
    if i < lines.len() {
        lemma_step_names_unique(a, lines[i]);
        lemma_fold_names_unique(spec_step(a, lines[i]), lines, i + 1);
    }
}

/// Subcommand names are unique in every parse: a line that lists a name
/// already seen replaces the earlier stub in place instead of adding one.
pub proof fn lemma_subcommand_names_unique(t: Seq<char>)
    ensures
        stub_names_unique(spec_parse_help(t).subcommands),
{
    lemma_fold_names_unique(init_acc(), spec_lines(t), 0);
}

proof fn lemma_insert_stub_props(subs: Seq<StubModel>, s2: StubModel)
    requires
        s2.group is Some,
    ensures
        ({
            let r = spec_insert_stub(subs, s2);
            &&& has_stub_in_group(r, s2.name, s2.group.unwrap())
            &&& forall|nm: Seq<char>| has_stub_named(subs, nm) ==> has_stub_named(r, nm)
            &&& forall|nm: Seq<char>, g: Seq<char>|
                nm != s2.name && has_stub_in_group(subs, nm, g) ==> has_stub_in_group(r, nm, g)
        }),
{
    lemma_first_stub_idx(subs, s2.name, 0);
    let r = spec_insert_stub(subs, s2);
    let idx = first_stub_idx_at(subs, s2.name, 0);
    if idx < subs.len() {
        assert(r[idx] == s2);
    } else {
        assert(r[subs.len() as int] == s2);
    }
    assert(has_stub_in_group(r, s2.name, s2.group.unwrap()));
    assert forall|nm: Seq<char>| has_stub_named(subs, nm) implies has_stub_named(r, nm) by {
        let k = choose|k: int| 0 <= k < subs.len() && (#[trigger] subs[k]).name == nm;
        if k == idx {
            assert(r[idx].name == s2.name && subs[idx].name == s2.name);
        } else {
            assert(r[k].name == nm);
        }
    }
    assert forall|nm: Seq<char>, g: Seq<char>|
        nm != s2.name && has_stub_in_group(subs, nm, g) implies has_stub_in_group(r, nm, g) by {
        let k = choose|k: int|
            0 <= k < subs.len() && (#[trigger] subs[k]).name == nm && subs[k].group == Some(g);
        assert(k != idx);
        assert(r[k].name == nm && r[k].group == Some(g));
    }
}

proof fn lemma_step_group_inv(a: ParseAcc, l: Seq<char>)
    requires
        group_inv(a),
    ensures
        group_inv(spec_step(a, l)),
{
    let b = spec_step(a, l);
    if spec_is_header(l) {
        let a2 = spec_flush_group(a);
        if a.cur_name is Some && a.cur_cmds.len() > 0 {
            let gnew = a2.groups.len() - 1;
            assert(a2.groups[gnew].commands == a.cur_cmds);
            assert(a2.groups[gnew].name == a.cur_name.unwrap());
            assert forall|gi: int, ci: int|
                0 <= gi < a2.groups.len() && 0 <= ci
                    < (#[trigger] a2.groups[gi]).commands.len() implies {
                let nm = #[trigger] a2.groups[gi].commands[ci];
                has_stub_named(a2.subs, nm) && (has_stub_in_group(a2.subs, nm, a2.groups[gi].name)
                    || listed_later(a2, gi, nm))
            } by {
                let nm = a2.groups[gi].commands[ci];
                if gi < gnew {
                    assert(a.groups[gi] == a2.groups[gi]);
                    assert(has_stub_named(a.subs, nm) && (has_stub_in_group(
                        a.subs,
                        nm,
                        a.groups[gi].name,
                    ) || listed_later(a, gi, nm)));
                    if !has_stub_in_group(a.subs, nm, a.groups[gi].name) {
                        if seq_contains_name(a.cur_cmds, nm) {
                            assert(seq_contains_name(a2.groups[gnew].commands, nm));
                            assert(listed_later(a2, gi, nm));
                        } else {
                            let gj = choose|gj: int|
                                gi < gj < a.groups.len() && seq_contains_name(
                                    (#[trigger] a.groups[gj]).commands,
                                    nm,
                                );
                            assert(a2.groups[gj] == a.groups[gj]);
                            assert(seq_contains_name(a2.groups[gj].commands, nm));
                            assert(listed_later(a2, gi, nm));
                        }
                    }
                } else {
                    assert(nm == a.cur_cmds[ci]);
                    assert(has_stub_in_group(a.subs, nm, a.cur_name.unwrap()));
                    let k = choose|k: int|
                        0 <= k < a.subs.len() && (#[trigger] a.subs[k]).name == nm
                            && a.subs[k].group == Some(a.cur_name.unwrap());
                    assert(has_stub_named(a2.subs, nm));
                }
            }
        }
        assert(groups_backed(a2));
        assert(groups_backed(b));
    } else {
        let t = spec_trim(l);
        if t.len() != 0 {
            match a.section {
                SectionModel::Commands(g) => {
                    match spec_parse_command_line(t) {
                        Some(s) => {
                            let s2 = StubModel { group: Some(g), ..s };
                            lemma_insert_stub_props(a.subs, s2);
                            assert(a.cur_name == Some(g));
                            assert forall|k: int| 0 <= k < b.cur_cmds.len() implies b.cur_name
                                is Some && has_stub_in_group(
                                b.subs,
                                #[trigger] b.cur_cmds[k],
                                b.cur_name.unwrap(),
                            ) by {
                                if k < a.cur_cmds.len() {
                                    assert(b.cur_cmds[k] == a.cur_cmds[k]);
                                    if a.cur_cmds[k] == s2.name {
                                        assert(has_stub_in_group(b.subs, s2.name, g));
                                    }
                                } else {
                                    assert(b.cur_cmds[k] == s2.name);
                                }
                            }
                            assert forall|gi: int, ci: int|
                                0 <= gi < b.groups.len() && 0 <= ci
                                    < (#[trigger] b.groups[gi]).commands.len() implies {
                                let nm = #[trigger] b.groups[gi].commands[ci];
                                has_stub_named(b.subs, nm) && (has_stub_in_group(
                                    b.subs,
                                    nm,
                                    b.groups[gi].name,
                                ) || listed_later(b, gi, nm))
                            } by {
                                let nm = b.groups[gi].commands[ci];
                                assert(a.groups[gi] == b.groups[gi]);
                                if nm == s2.name {
                                    assert(seq_contains_name(b.cur_cmds, nm)) by {
                                        assert(b.cur_cmds[b.cur_cmds.len() - 1] == nm);
                                    }
                                    assert(listed_later(b, gi, nm));
                                    assert(has_stub_in_group(b.subs, s2.name, g));
                                    assert(has_stub_named(b.subs, nm)) by {
                                        let k = choose|k: int|
                                            0 <= k < b.subs.len() && (#[trigger] b.subs[k]).name
                                                == nm && b.subs[k].group == Some(g);
                                        assert(b.subs[k].name == nm);
                                    }
                                } else {
                                    if has_stub_in_group(a.subs, nm, a.groups[gi].name) {
                                        assert(has_stub_in_group(b.subs, nm, b.groups[gi].name));
                                    } else if listed_later(a, gi, nm) {
                                        if seq_contains_name(a.cur_cmds, nm) {
                                            let k = choose|k: int|
                                                0 <= k < a.cur_cmds.len() && #[trigger] a.cur_cmds[k]
                                                    == nm;
                                            assert(b.cur_cmds[k] == nm);
                                            assert(seq_contains_name(b.cur_cmds, nm));
                                        }
                                        assert(listed_later(b, gi, nm));
                                    }
                                    assert(has_stub_named(b.subs, nm)) by {
                                        let k = choose|k: int|
                                            0 <= k < a.subs.len() && (#[trigger] a.subs[k]).name
                                                == nm;
                                        assert(has_stub_named(a.subs, nm));
                                    }
                                }
                            }
                        },
                        None => {},
                    }
                },
                _ => {},
            }
        }
    }
}

proof fn lemma_fold_group_inv(a: ParseAcc, lines: Seq<Seq<char>>, i: int)
    requires
        group_inv(a),
        0 <= i <= lines.len(),
    ensures
        group_inv(spec_fold_from(a, lines, i)),
    decreases lines.len() - i,
{
    if i < lines.len() {
        lemma_step_group_inv(a, lines[i]);
        lemma_fold_group_inv(spec_step(a, lines[i]), lines, i + 1);
    }
}

/// `m`'s closed groups, taken on their own: every listed name is backed by a
/// stub whose group is the listing group's name, unless a later group lists
/// the name again.
pub open spec fn model_groups_backed(m: HelpModel) -> bool {
    forall|gi: int, ci: int|
        0 <= gi < m.groups.len() && 0 <= ci < (#[trigger] m.groups[gi]).commands.len() ==> {
            let nm = #[trigger] m.groups[gi].commands[ci];
            has_stub_named(m.subcommands, nm) && (has_stub_in_group(
                m.subcommands,
                nm,
                m.groups[gi].name,
            ) || exists|gj: int|
                gi < gj < m.groups.len() && seq_contains_name((#[trigger] m.groups[gj]).commands, nm))
        }
}

proof fn lemma_finalize_backed(a: ParseAcc)
    requires
        group_inv(a),
    ensures
        model_groups_backed(spec_finalize(a)),
{
    let a2 = spec_flush_group(a);
    let m = spec_finalize(a);
    lemma_step_group_inv(a, seq![':']);
    assert(spec_is_header(seq![':']));
    assert(spec_flush_group(a).groups == spec_step(a, seq![':']).groups);
    let b = spec_step(a, seq![':']);
    assert(b.cur_cmds.len() == 0);
    assert(groups_backed(b));
    assert(m.groups == b.groups && m.subcommands == b.subs);
    assert forall|gi: int, ci: int|
        0 <= gi < m.groups.len() && 0 <= ci < (#[trigger] m.groups[gi]).commands.len() implies {
        let nm = #[trigger] m.groups[gi].commands[ci];
        has_stub_named(m.subcommands, nm) && (has_stub_in_group(
            m.subcommands,
            nm,
            m.groups[gi].name,
        ) || exists|gj: int|
            gi < gj < m.groups.len() && seq_contains_name((#[trigger] m.groups[gj]).commands, nm))
    } by {
        let nm = m.groups[gi].commands[ci];
        assert(has_stub_named(b.subs, nm));
        if !has_stub_in_group(b.subs, nm, b.groups[gi].name) {
            assert(listed_later(b, gi, nm));
            assert(!seq_contains_name(b.cur_cmds, nm));
        }
    }
}

/// No command name is listed under two differently-named group sections.
pub open spec fn group_listings_consistent(m: HelpModel) -> bool {
    forall|gi: int, ci: int, gj: int, cj: int|
        0 <= gi < m.groups.len() && 0 <= ci < m.groups[gi].commands.len() && 0 <= gj
            < m.groups.len() && 0 <= cj < m.groups[gj].commands.len()
            && #[trigger] m.groups[gi].commands[ci] == #[trigger] m.groups[gj].commands[cj]
            ==> m.groups[gi].name == m.groups[gj].name
}

proof fn lemma_last_holder(m: HelpModel, gi: int, nm: Seq<char>)
    requires
        model_groups_backed(m),
        group_listings_consistent(m),
        0 <= gi < m.groups.len(),
        seq_contains_name(m.groups[gi].commands, nm),
    ensures
        has_stub_in_group(m.subcommands, nm, m.groups[gi].name),
    decreases m.groups.len() - gi,
{
    let ci = choose|ci: int| 0 <= ci < m.groups[gi].commands.len() && #[trigger] m.groups[gi].commands[ci] == nm;
    if !has_stub_in_group(m.subcommands, nm, m.groups[gi].name) {
        let gj = choose|gj: int|
            gi < gj < m.groups.len() && seq_contains_name((#[trigger] m.groups[gj]).commands, nm);
        lemma_last_holder(m, gj, nm);
        let cj = choose|cj: int|
            0 <= cj < m.groups[gj].commands.len() && #[trigger] m.groups[gj].commands[cj] == nm;
        assert(m.groups[gi].name == m.groups[gj].name);
    }
}

/// Invariant of every parse: each name listed in any parsed group exists
/// among the parsed subcommand stubs.
pub proof fn lemma_groups_have_subcommands(t: Seq<char>)
    ensures
        ({
            let m = spec_parse_help(t);
            forall|gi: int, ci: int|
                0 <= gi < m.groups.len() && 0 <= ci < (#[trigger] m.groups[gi]).commands.len()
                    ==> has_stub_named(m.subcommands, #[trigger] m.groups[gi].commands[ci])
        }),
{
    lemma_fold_group_inv(init_acc(), spec_lines(t), 0);
    lemma_finalize_backed(spec_fold_from(init_acc(), spec_lines(t), 0));
}

/// Group/subcommand agreement: in a parse where no command name is listed
/// under two differently-named group sections, every name in every parsed
/// group is backed by a subcommand stub whose `group` is that group's name.
pub proof fn lemma_group_agreement(t: Seq<char>)
    requires
        group_listings_consistent(spec_parse_help(t)),
    ensures
        ({
            let m = spec_parse_help(t);
            forall|gi: int, ci: int|
                0 <= gi < m.groups.len() && 0 <= ci < (#[trigger] m.groups[gi]).commands.len()
                    ==> has_stub_in_group(
                    m.subcommands,
                    #[trigger] m.groups[gi].commands[ci],
                    m.groups[gi].name,
                )
        }),
{
    let m = spec_parse_help(t);
    lemma_fold_group_inv(init_acc(), spec_lines(t), 0);
    lemma_finalize_backed(spec_fold_from(init_acc(), spec_lines(t), 0));
    assert forall|gi: int, ci: int|
        0 <= gi < m.groups.len() && 0 <= ci < (#[trigger] m.groups[gi]).commands.len()
        implies has_stub_in_group(
        m.subcommands,
        #[trigger] m.groups[gi].commands[ci],
        m.groups[gi].name,
    ) by {
        let nm = m.groups[gi].commands[ci];
        assert(seq_contains_name(m.groups[gi].commands, nm));
        lemma_last_holder(m, gi, nm);
    }
}

enum Section {
    Preamble,
    Usage,
    Aliases,
    Commands(String),
    Flags,
    GlobalFlags,
}

spec fn section_view(s: Section) -> SectionModel {
    match s {
        Section::Preamble => SectionModel::Preamble,
        Section::Usage => SectionModel::Usage,
        Section::Aliases => SectionModel::Aliases,
        Section::Commands(g) => SectionModel::Commands(g@),
        Section::Flags => SectionModel::Flags,
        Section::GlobalFlags => SectionModel::GlobalFlags,
    }
}

/// The returned command (with empty name, no group), global flags and groups
/// carry exactly the fields of the help model `m`, with subcommands as stubs.
pub open spec fn parse_result_matches(
    r: (Command, Vec<Flag>, Vec<CommandGroup>),
    m: HelpModel,
) -> bool {
    &&& r.0.name@ == Seq::<char>::empty()
    &&& r.0.description@ == m.description
    &&& opt_string_view(r.0.usage) == m.usage
    &&& r.0.aliases.deep_view() == m.aliases
    &&& flags_match(r.0.flags@, m.flags)
    &&& r.0.group is None
    &&& stubs_match(r.0.subcommands@, m.subcommands)
    &&& flags_match(r.1@, m.global_flags)
    &&& groups_match(r.2@, m.groups)
}

/// Parse the help output of one command: returns the command (name left
/// empty), the flags of a `Global Flags` section, and the command groups.
pub fn parse_help_output(text: &str) -> (r: (Command, Vec<Flag>, Vec<CommandGroup>))
    ensures
        parse_result_matches(r, spec_parse_help(text@)),
{
    let lines = lines_of(text);
    let ghost dv = lines.deep_view();
    let mut section = Section::Preamble;
    let mut desc_lines: Vec<&str> = Vec::new();
    let mut usage: Option<String> = None;
    let mut raw_aliases: Vec<String> = Vec::new();
    let mut flags: Vec<Flag> = Vec::new();
    let mut global_flags: Vec<Flag> = Vec::new();
    let mut subs: Vec<Command> = Vec::new();
    let mut groups: Vec<CommandGroup> = Vec::new();
    let mut cur_name: Option<String> = None;
    let mut cur_cmds: Vec<String> = Vec::new();
    let ghost mut acc = init_acc();

    let nlines = lines.len();
    let mut i: usize = 0;
    while i < nlines
        invariant
            dv == lines.deep_view(),
            nlines as nat == lines@.len(),
            dv.len() == nlines as nat,
            i <= nlines,
            spec_fold_from(acc, dv, i as int) == spec_fold_from(init_acc(), dv, 0),
            section_view(section) == acc.section,
            strs_match(desc_lines@, acc.desc_lines),
            opt_string_view(usage) == acc.usage,
            strings_match(raw_aliases@, acc.raw_aliases),
            flags_match(flags@, acc.flags),
            flags_match(global_flags@, acc.global_flags),
            stubs_match(subs@, acc.subs),
            groups_match(groups@, acc.groups),
            opt_string_view(cur_name) == acc.cur_name,
            strings_match(cur_cmds@, acc.cur_cmds),
        decreases nlines - i,
    {
        let line: &str = lines[i];
        proof {
            assert(line@ == dv[i as int]);
        }
        let ln = line.unicode_len();
        let is_hdr = ln > 0 && line.get_char(0) != ' ' && line.get_char(0) != '\t' && line.get_char(
            ln - 1,
        ) == ':';
        if is_hdr {
            let ghost a_flushed = spec_flush_group(acc);
            let cn = cur_name;
            cur_name = None;
            match cn {
                Some(g) => {
                    if cur_cmds.len() > 0 {
                        let cmds = cur_cmds;
                        cur_cmds = Vec::new();
                        proof {
                            assert(cmds.deep_view() =~~= acc.cur_cmds);
                        }
                        groups.push(CommandGroup { name: g, commands: cmds });
                        proof {
                            assert(groups@.last()@ =~= GroupModel {
                                name: acc.cur_name.unwrap(),
                                commands: acc.cur_cmds,
                            });
                            assert(groups_match(groups@, a_flushed.groups));
                        }
                    }
                },
                None => {},
            }
            let stripped = strip_trailing_str(line, ':');
            let h = trim_str(stripped);
            if str_eq(h, "Usage") {
                section = Section::Usage;
            } else if str_eq(h, "Aliases") {
                section = Section::Aliases;
            } else if str_eq(h, "Flags") {
                section = Section::Flags;
            } else if str_eq(h, "Global Flags") {
                section = Section::GlobalFlags;
            } else {
                let hs = String::from_str(h);
                cur_name = Some(hs.clone());
                section = Section::Commands(hs);
            }
        } else {
            let t = trim_str(line);
            if t.unicode_len() > 0 {
                match &section {
                    Section::Preamble => {
                        if !str_starts_with(t, "Use \"") {
                            desc_lines.push(t);
                        }
                    },
                    Section::Usage => {
                        if usage.is_none() {
                            usage = Some(String::from_str(t));
                        }
                    },
                    Section::Aliases => {
                        let segs = split_str(t, ',');
                        let ghost sdv = segs.deep_view();
                        let ghost target = acc.raw_aliases + spec_alias_tokens(t@);
                        let m2 = segs.len();
                        let mut j: usize = 0;
                        while j < m2
                            invariant
                                m2 as nat == segs@.len(),
                                sdv == segs.deep_view(),
                                sdv.len() == m2 as nat,
                                j <= m2,
                                target == acc.raw_aliases + spec_alias_tokens(t@),
                                strings_view(raw_aliases@) + spec_alias_tokens_from(sdv, j as int)
                                    == target,
                            decreases m2 - j,
                        {
                            let a2 = trim_str(segs[j]);
                            if a2.unicode_len() > 0 {
                                let ghost rv0 = strings_view(raw_aliases@);
                                raw_aliases.push(String::from_str(a2));
                                proof {
                                    assert(strings_view(raw_aliases@) =~~= rv0.push(a2@));
                                    assert(rv0.push(a2@) + spec_alias_tokens_from(sdv, j as int + 1)
                                        =~~= rv0 + (seq![spec_trim(sdv[j as int])]
                                        + spec_alias_tokens_from(sdv, j as int + 1)));
                                }
                            }
                            j += 1;
                        }
                        proof {
                            assert(spec_alias_tokens_from(sdv, m2 as int) =~~= Seq::<
                                Seq<char>,
                            >::empty());
                            assert(strings_view(raw_aliases@) =~~= target);
                        }
                    },
                    Section::Commands(g) => {
                        match parse_command_line(t) {
                            Some(c0) => {
                                let mut c = c0;
                                c.group = Some(g.clone());
                                let ghost s2 = stub_of(c);
                                proof {
                                    assert(s2 =~= StubModel {
                                        group: Some(g@),
                                        ..spec_parse_command_line(t@).unwrap()
                                    });
                                }
                                cur_cmds.push(c.name.clone());
                                let nsubs = subs.len();
                                let mut k: usize = 0;
                                while k < nsubs && !str_eq(subs[k].name.as_str(), c.name.as_str())
                                    invariant
                                        nsubs as nat == subs@.len(),
                                        k <= nsubs,
                                        stubs_match(subs@, acc.subs),
                                        s2.name == c.name@,
                                        first_stub_idx_at(acc.subs, s2.name, 0)
                                            == first_stub_idx_at(acc.subs, s2.name, k as int),
                                    decreases nsubs - k,
                                {
                                    k += 1;
                                }
                                proof {
                                    assert(k as int == first_stub_idx_at(acc.subs, s2.name, 0));
                                }
                                if k < nsubs {
                                    subs.set(k, c);
                                } else {
                                    subs.push(c);
                                }
                                proof {
                                    assert(stubs_match(subs@, spec_insert_stub(acc.subs, s2)));
                                }
                            },
                            None => {},
                        }
                    },
                    Section::Flags => {
                        match parse_flag_line(t) {
                            Some(f) => {
                                flags.push(f);
                            },
                            None => {},
                        }
                    },
                    Section::GlobalFlags => {
                        match parse_flag_line(t) {
                            Some(f) => {
                                global_flags.push(f);
                            },
                            None => {},
                        }
                    },
                }
            }
        }
        proof {
            acc = spec_step(acc, dv[i as int]);
        }
        i += 1;
    }
    let ghost a_fin = spec_flush_group(acc);
    let cn = cur_name;
    cur_name = None;
    match cn {
        Some(g) => {
            if cur_cmds.len() > 0 {
                let cmds = cur_cmds;
                cur_cmds = Vec::new();
                proof {
                    assert(cmds.deep_view() =~~= acc.cur_cmds);
                }
                groups.push(CommandGroup { name: g, commands: cmds });
                proof {
                    assert(groups@.last()@ =~= GroupModel {
                        name: acc.cur_name.unwrap(),
                        commands: acc.cur_cmds,
                    });
                    assert(groups_match(groups@, a_fin.groups));
                }
            }
        },
        None => {},
    }
    let description = join_space(&desc_lines);
    proof {
        assert(desc_lines.deep_view() =~~= a_fin.desc_lines);
    }
    let ghost ra0 = strings_view(raw_aliases@);
    if raw_aliases.len() > 1 {
        let _first = raw_aliases.remove(0);
        proof {
            assert(raw_aliases.deep_view() =~~= ra0.drop_first());
            assert(ra0.drop_first() =~~= a_fin.raw_aliases.drop_first());
        }
    } else {
        raw_aliases.clear();
        proof {
            assert(raw_aliases.deep_view() =~~= Seq::<Seq<char>>::empty());
        }
    }
    let mut cmd = Command::new(String::new(), description);
    cmd.usage = usage;
    cmd.aliases = raw_aliases;
    cmd.flags = flags;
    cmd.subcommands = subs;
    proof {
        assert(dv == spec_lines(text@));
        assert(acc == spec_fold_from(init_acc(), spec_lines(text@), 0));
    }
    (cmd, global_flags, groups)
}

} // verus!
