use easygit::github::{error_message, poll_outcome};
use easygit::invocation::{
    blame_result, branches_result, combined_result, commits_since_result, detached_label,
    failure_text, is_empty_history_error, log_result, needs_added_file_diff, stash_command_result, stash_reference,
    stashes_result, status_result, tags_result, stdout_result, symbolic_branch, unit_result, version_result,
    worktrees_result, GitOutput,
};
use easygit::progress::{segment_fragments, CloneProgress};

fn out(stdout: &str, stderr: &str, success: bool, code: i32) -> GitOutput {
    GitOutput { stdout: stdout.to_string(), stderr: stderr.to_string(), success, code }
}

#[test]
fn empty_history_gives_empty_log() {
    let o = out("", "fatal: your current branch 'main' does not have any commits yet\n", false, 128);
    assert!(is_empty_history_error(&o.stderr));
    assert_eq!(log_result(&o).unwrap().len(), 0);
    assert_eq!(commits_since_result(&o).unwrap().len(), 0);
}

#[test]
fn other_failures_are_errors() {
    let o = out("", "  fatal: not a git repository \n", false, 128);
    assert!(!is_empty_history_error(&o.stderr));
    assert_eq!(log_result(&o).unwrap_err(), "fatal: not a git repository");
    assert_eq!(commits_since_result(&o).unwrap_err(), "fatal: not a git repository");
}

#[test]
fn bad_revision_texts_are_benign() {
    assert!(is_empty_history_error("fatal: bad default revision 'HEAD'"));
    assert!(is_empty_history_error("fatal: ambiguous argument 'v1..HEAD': unknown revision"));
}

#[test]
fn log_success_is_parsed() {
    let o = out("a|b|c|2024-01-01 00:00:00 +0000|m\n", "", true, 0);
    let v = log_result(&o).unwrap();
    assert_eq!(v.len(), 1);
    assert_eq!(v[0].date, "2024-01-01");
}

#[test]
fn commits_since_skips_empty_lines() {
    let o = out("abc one\n\ndef two\n", "", true, 0);
    assert_eq!(commits_since_result(&o).unwrap(), vec!["abc one".to_string(), "def two".to_string()]);
}

#[test]
fn status_error_only_with_text() {
    assert_eq!(status_result(&out("", "boom", false, 1)).unwrap_err(), "boom");
    assert_eq!(status_result(&out(" M a\n", "", false, 1)).unwrap().len(), 1);
}

#[test]
fn branches_error_on_failure() {
    assert_eq!(branches_result(&out("*|m|", "err", false, 1)).unwrap_err(), "err");
    assert_eq!(branches_result(&out("*|m|", "", true, 0)).unwrap()[0].name, "m");
}

#[test]
fn worktrees_and_stashes_errors() {
    assert_eq!(worktrees_result(&out("", " bad \n", false, 1)).unwrap_err(), "bad");
    assert_eq!(stashes_result(&out("", "  \n", false, 1)).unwrap().len(), 0);
    assert_eq!(stashes_result(&out("", " no \n", false, 1)).unwrap_err(), "no");
}

#[test]
fn blame_error_trimmed() {
    assert_eq!(blame_result(&out("", "fatal: no such path\n", false, 128)).unwrap_err(), "fatal: no such path");
}

#[test]
fn simple_command_outcomes() {
    assert!(unit_result(&out("", "", true, 0)).is_ok());
    assert_eq!(unit_result(&out("", "e", false, 1)).unwrap_err(), "e");
    assert_eq!(stdout_result(&out(" [main 1] msg \n", "", true, 0)).unwrap(), "[main 1] msg");
    assert_eq!(combined_result(&out(" a \n", " b \n", true, 0)).unwrap(), "ab");
    assert_eq!(failure_text(&out(" out ", " err \n", false, 1)).unwrap(), "out \n err");
    assert!(failure_text(&out("", "", true, 0)).is_none());
    assert_eq!(stash_command_result(&out(" Saved \n", "", true, 0)).unwrap(), "Saved");
}

#[test]
fn version_messages() {
    assert_eq!(version_result(&out("git version 2.43.0\n", "", true, 0)).unwrap(), "git version 2.43.0");
    assert_eq!(version_result(&out("", "bad", false, 129)).unwrap_err(), "git exited with code 129: bad");
    assert_eq!(version_result(&out("", "sig", false, -1)).unwrap_err(), "git exited with code -1: sig");
}

#[test]
fn branch_names() {
    assert_eq!(symbolic_branch(&out("main\n", "", true, 0)), Some("main".to_string()));
    assert_eq!(symbolic_branch(&out("", "fatal", false, 128)), None);
    assert_eq!(detached_label(&out("abc1234\n", "", true, 0)), "(detached:abc1234)");
    assert_eq!(detached_label(&out("", "", false, 128)), "");
}

#[test]
fn stash_references() {
    assert_eq!(stash_reference(0), "stash@{0}");
    assert_eq!(stash_reference(12), "stash@{12}");
}

#[test]
fn progress_fragments_split_on_carriage_return() {
    let v = segment_fragments("Receiving objects:  50% (1/2)\rReceiving objects: 100% (2/2), done.\r");
    assert_eq!(v, vec!["Receiving objects:  50% (1/2)".to_string(), "Receiving objects: 100% (2/2), done.".to_string()]);
    assert!(segment_fragments("  \r\r ").is_empty());
}

#[test]
fn progress_concatenation_is_normalized_stream() {
    let raw = "Cloning into 'x'...\nremote: 1\r remote: 2 \r\n\nerror: oops\n";
    let mut p = CloneProgress::new();
    let mut all = String::new();
    for seg in raw.split('\n') {
        for f in p.feed(seg) {
            all.push_str(&f);
        }
    }
    assert_eq!(all, "Cloning into 'x'...remote: 1remote: 2error: oops");
    assert_eq!(p.last_line(), "error: oops");
    assert_eq!(p.finish(false, "/d".to_string()).unwrap_err(), "error: oops");
}

#[test]
fn progress_outcomes() {
    let p = CloneProgress::new();
    assert_eq!(p.finish(false, "/d".to_string()).unwrap_err(), "git clone failed");
    let mut q = CloneProgress::new();
    q.feed("done.");
    q.feed("   ");
    assert_eq!(q.last_line(), "done.");
    assert_eq!(q.finish(true, "/d".to_string()).unwrap(), "/d");
}

#[test]
fn file_log_without_commits_is_empty() {
    let o = out("", "fatal: your current branch 'main' does not have any commits yet", false, 128);
    assert!(log_result(&o).unwrap().is_empty());
}

#[test]
fn device_poll_outcomes() {
    assert_eq!(poll_outcome(Some("tok".to_string()), Some("slow_down".to_string()), None), Ok(Some("tok".to_string())));
    assert_eq!(poll_outcome(None, Some("authorization_pending".to_string()), None), Ok(None));
    assert_eq!(poll_outcome(None, Some("slow_down".to_string()), None), Ok(None));
    assert_eq!(poll_outcome(None, None, None), Ok(None));
    assert_eq!(
        poll_outcome(None, Some("expired_token".to_string()), Some("The code expired".to_string())),
        Err("The code expired".to_string())
    );
    assert_eq!(poll_outcome(None, Some("access_denied".to_string()), None), Err("access_denied".to_string()));
    assert_eq!(error_message("e".to_string(), None), "e");
}

#[test]
fn staged_empty_diff_falls_back() {
    assert!(needs_added_file_diff(&out("", "", true, 0), true));
    assert!(!needs_added_file_diff(&out("", "", true, 0), false));
    assert!(!needs_added_file_diff(&out("diff --git", "", true, 0), true));
}

#[test]
fn tag_listing_outcomes() {
    let ok = tags_result(&out("v1|abc|2024-01-01|first\n", "", true, 0)).unwrap();
    assert_eq!(ok[0].name, "v1");
    assert_eq!(tags_result(&out("", " fatal: x \n", false, 128)).unwrap_err(), "fatal: x");
}
