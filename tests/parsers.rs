use easygit::blame::parse_blame_porcelain;
use easygit::calendar::epoch_to_date;
use easygit::records::{parse_branches, parse_log_lines, parse_remotes, parse_stashes, parse_tags};
use easygit::status::{parse_status, parse_status_line};
use easygit::worktree::parse_worktrees;

#[test]
fn status_modified_in_worktree() {
    let f = parse_status_line(" M src/main.rs").unwrap();
    assert_eq!(f.path, "src/main.rs");
    assert_eq!(f.staged_status, "");
    assert_eq!(f.unstaged_status, "M");
    assert!(!f.is_staged);
    assert!(f.is_unstaged);
    assert_eq!(f.original_path, None);
}

#[test]
fn status_staged_add_with_further_edit() {
    let f = parse_status_line("AM new.txt").unwrap();
    assert_eq!(f.staged_status, "A");
    assert_eq!(f.unstaged_status, "M");
    assert!(f.is_staged);
    assert!(f.is_unstaged);
}

#[test]
fn status_untracked() {
    let f = parse_status_line("?? notes.md").unwrap();
    assert_eq!(f.path, "notes.md");
    assert_eq!(f.staged_status, "");
    assert_eq!(f.unstaged_status, "?");
    assert!(!f.is_staged);
    assert!(f.is_unstaged);
}

#[test]
fn status_rename_is_split_at_arrow() {
    let f = parse_status_line("R  new name.rs -> old.rs").unwrap();
    assert_eq!(f.path, "new name.rs");
    assert_eq!(f.original_path, Some("old.rs".to_string()));
    assert_eq!(f.staged_status, "R");
    assert!(f.is_staged);
    assert!(!f.is_unstaged);
}

#[test]
fn status_arrow_kept_when_not_rename() {
    let f = parse_status_line("M  a -> b").unwrap();
    assert_eq!(f.path, "a -> b");
    assert_eq!(f.original_path, None);
}

#[test]
fn status_short_line_is_skipped() {
    assert!(parse_status_line(" M ").is_none());
    assert!(parse_status_line("").is_none());
}

#[test]
fn status_listing_skips_short_lines() {
    let v = parse_status(" M a.rs\nxx\n?? b.rs\n");
    assert_eq!(v.len(), 2);
    assert_eq!(v[0].path, "a.rs");
    assert_eq!(v[1].path, "b.rs");
}

#[test]
fn calendar_epoch_zero() {
    assert_eq!(epoch_to_date(0), "1970-01-01");
}

#[test]
fn calendar_leap_day() {
    assert_eq!(epoch_to_date(1709164800), "2024-02-29");
    assert_eq!(epoch_to_date(1709164800 + 86399), "2024-02-29");
    assert_eq!(epoch_to_date(1709164800 + 86400), "2024-03-01");
}

#[test]
fn calendar_year_ends() {
    assert_eq!(epoch_to_date(946684799), "1999-12-31");
    assert_eq!(epoch_to_date(946684800), "2000-01-01");
    assert_eq!(epoch_to_date(951782400), "2000-02-29");
}

#[test]
fn calendar_before_epoch_floors() {
    assert_eq!(epoch_to_date(-1), "1969-12-31");
    assert_eq!(epoch_to_date(-86400), "1969-12-31");
    assert_eq!(epoch_to_date(-86401), "1969-12-30");
}

#[test]
fn calendar_is_monotonic_on_samples() {
    let mut prev = epoch_to_date(-100_000_000_000);
    let mut e: i64 = -100_000_000_000;
    while e < 100_000_000_000 {
        e += 7_777_777;
        let d = epoch_to_date(e);
        assert!(d >= prev || prev.starts_with('-'), "{} then {}", prev, d);
        prev = d;
    }
}

#[test]
fn calendar_extreme_years() {
    assert_eq!(epoch_to_date(-62135596800), "0001-01-01");
    assert_eq!(epoch_to_date(253402300799), "9999-12-31");
    assert_eq!(epoch_to_date(253402300800), "10000-01-01");
    assert_eq!(epoch_to_date(-62167219200 - 86400), "-001-12-31");
}

const H1: &str = "1111111111111111111111111111111111111111";
const H2: &str = "2222222222222222222222222222222222222222";

#[test]
fn blame_shares_metadata_between_blocks() {
    let text = format!(
        "{H1} 1 1 2\nauthor Alice\nauthor-mail <a@x>\nauthor-time 1709164800\nauthor-tz +0000\nsummary first\nfilename f.txt\n\tline one\n{H1} 2 2\n\tline two\n"
    );
    let v = parse_blame_porcelain(&text);
    assert_eq!(v.len(), 2);
    assert_eq!(v[0].line_number, 1);
    assert_eq!(v[1].line_number, 2);
    assert_eq!(v[0].hash, "11111111");
    assert_eq!(v[1].hash, "11111111");
    assert_eq!(v[0].author, "Alice");
    assert_eq!(v[1].author, "Alice");
    assert_eq!(v[0].date, "2024-02-29");
    assert_eq!(v[1].date, "2024-02-29");
    assert_eq!(v[0].content, "line one");
    assert_eq!(v[1].content, "line two");
}

#[test]
fn blame_two_commits() {
    let text = format!(
        "{H1} 1 1 1\nauthor Alice\nauthor-time 0\n\tfirst\n{H2} 5 2 1\nauthor  Bob \nauthor-time 86400\n\tsecond\n{H1} 2 3 1\n\tthird\n"
    );
    let v = parse_blame_porcelain(&text);
    assert_eq!(v.len(), 3);
    assert_eq!(v[1].hash, "22222222");
    assert_eq!(v[1].author, "Bob");
    assert_eq!(v[1].date, "1970-01-02");
    assert_eq!(v[1].line_number, 2);
    assert_eq!(v[2].author, "Alice");
    assert_eq!(v[2].date, "1970-01-01");
    assert_eq!(v[2].line_number, 3);
}

#[test]
fn blame_bad_line_number_is_zero() {
    let text = format!("{H1} 1 x\n\tcontent\n");
    let v = parse_blame_porcelain(&text);
    assert_eq!(v.len(), 1);
    assert_eq!(v[0].line_number, 0);
    assert_eq!(v[0].author, "");
}

#[test]
fn branch_current_with_upstream() {
    let v = parse_branches("*|main|origin/main\n|feature|\n");
    assert_eq!(v.len(), 2);
    assert_eq!(v[0].name, "main");
    assert!(v[0].current);
    assert_eq!(v[0].upstream, Some("origin/main".to_string()));
    assert_eq!(v[1].name, "feature");
    assert!(!v[1].current);
    assert_eq!(v[1].upstream, None);
}

#[test]
fn branch_empty_upstream_field() {
    let v = parse_branches(" |feature||\n\n");
    assert_eq!(v.len(), 1);
    assert_eq!(v[0].name, "feature");
    assert_eq!(v[0].upstream, None);
    let w = parse_branches("|feature|");
    assert_eq!(w[0].upstream, None);
}

#[test]
fn worktree_main_and_detached() {
    let text = "worktree /repo\nHEAD 0123456789abcdef0123456789abcdef01234567\nbranch refs/heads/main\n\nworktree /repo-wt\nHEAD fedcba9876543210fedcba9876543210fedcba98\ndetached\nlocked reason\nprunable\n";
    let v = parse_worktrees(text);
    assert_eq!(v.len(), 2);
    assert!(v[0].is_main);
    assert_eq!(v[0].branch, "main");
    assert_eq!(v[0].path, "/repo");
    assert_eq!(v[0].commit, "01234567");
    assert!(!v[1].is_main);
    assert_eq!(v[1].branch, "");
    assert_eq!(v[1].commit, "fedcba98");
    assert!(v[1].locked);
    assert!(v[1].prunable);
    assert!(!v[0].locked);
}

#[test]
fn worktree_short_head_and_other_branch_ref() {
    let v = parse_worktrees("worktree /a\nHEAD abc\nbranch feature/x\n");
    assert_eq!(v.len(), 1);
    assert_eq!(v[0].commit, "abc");
    assert_eq!(v[0].branch, "feature/x");
}

#[test]
fn log_lines_keep_pipes_in_subject() {
    let v = parse_log_lines("abcdef|abc|Ann|2024-02-29 10:00:00 +0100|fix a|b\nbad|line\n");
    assert_eq!(v.len(), 1);
    assert_eq!(v[0].hash, "abcdef");
    assert_eq!(v[0].short_hash, "abc");
    assert_eq!(v[0].author, "Ann");
    assert_eq!(v[0].date, "2024-02-29");
    assert_eq!(v[0].message, "fix a|b");
}

#[test]
fn log_date_cut_at_t() {
    let v = parse_log_lines("h|s|A|2024-01-02T03:04:05Z|m");
    assert_eq!(v[0].date, "2024-01-02");
}

#[test]
fn tags_trim_and_blank_subject() {
    let v = parse_tags("v1.0 | abc1234 | 2024-02-29 | Release one\n   \nv0.9|def5678|2024-01-01|\n");
    assert_eq!(v.len(), 2);
    assert_eq!(v[0].name, "v1.0");
    assert_eq!(v[0].commit_hash, "abc1234");
    assert_eq!(v[0].date, "2024-02-29");
    assert_eq!(v[0].message, Some("Release one".to_string()));
    assert_eq!(v[1].name, "v0.9");
    assert_eq!(v[1].message, None);
}

#[test]
fn stashes_numbered_in_order() {
    let v = parse_stashes("0123456789abcdef|stash@{0}|WIP on main: x|y\nabc|stash@{1}|On main: z\n");
    assert_eq!(v.len(), 2);
    assert_eq!(v[0].index, 0);
    assert_eq!(v[0].hash, "01234567");
    assert_eq!(v[0].reference, "stash@{0}");
    assert_eq!(v[0].message, "WIP on main: x|y");
    assert_eq!(v[1].index, 1);
    assert_eq!(v[1].hash, "abc");
}

#[test]
fn remotes_deduplicated() {
    let v = parse_remotes("origin\thttps://x/a.git (fetch)\norigin\thttps://x/a.git (push)\nup\tgit@y:b.git (fetch)\n");
    assert_eq!(v.len(), 2);
    assert_eq!(v[0].name, "origin");
    assert_eq!(v[0].url, "https://x/a.git");
    assert_eq!(v[1].name, "up");
    assert_eq!(v[1].url, "git@y:b.git");
}

#[test]
fn crlf_lines_are_split() {
    let v = parse_log_lines("a|b|c|d|e\r\nf|g|h|i|j");
    assert_eq!(v.len(), 2);
    assert_eq!(v[0].message, "e");
    assert_eq!(v[1].message, "j");
}

#[test]
fn ref_line_current_main() {
    let v = parse_branches("*|main|origin/main");
    assert_eq!(v.len(), 1);
    assert_eq!(v[0].name, "main");
    assert!(v[0].current);
    assert_eq!(v[0].upstream, Some("origin/main".to_string()));
}

#[test]
fn ref_line_without_upstream() {
    let v = parse_branches("|feature||");
    assert_eq!(v.len(), 1);
    assert_eq!(v[0].name, "feature");
    assert!(!v[0].current);
    assert_eq!(v[0].upstream, None);
}

#[test]
fn worktree_second_block_bare() {
    let v = parse_worktrees("worktree /main\nHEAD 1234567890\nbranch refs/heads/main\n\nworktree /bare\nbare\n");
    assert_eq!(v.len(), 2);
    assert!(v[0].is_main);
    assert_eq!(v[0].branch, "main");
    assert!(!v[1].is_main);
    assert_eq!(v[1].branch, "");
    assert_eq!(v[1].path, "/bare");
}

#[test]
fn worktree_empty_listing() {
    assert!(parse_worktrees("").is_empty());
    assert!(parse_worktrees("\n\nHEAD abc\n").is_empty());
}

#[test]
fn blame_empty_output() {
    assert!(parse_blame_porcelain("").is_empty());
}

#[test]
fn blame_header_needs_forty_hex_digits() {
    let text = "111111111111111111111111111111111111111 1 1\n\tx\n";
    let v = parse_blame_porcelain(text);
    assert_eq!(v.len(), 1);
    assert_eq!(v[0].hash, "");
    assert_eq!(v[0].line_number, 0);
}

#[test]
fn blame_bad_author_time_keeps_date() {
    let text = format!("{H1} 1 7\nauthor-time soon\n\tx\n");
    let v = parse_blame_porcelain(&text);
    assert_eq!(v[0].date, "");
    assert_eq!(v[0].line_number, 7);
}

#[test]
fn ref_line_upstream_stops_at_pipe() {
    let v = parse_branches("|topic|origin/topic|extra");
    assert_eq!(v[0].upstream, Some("origin/topic".to_string()));
    let w = parse_branches("|feature|");
    assert_eq!(w[0].upstream, None);
}

#[test]
fn log_date_without_separator_kept_whole() {
    let v = parse_log_lines("h|s|A|2024-01-02|m");
    assert_eq!(v[0].date, "2024-01-02");
}
