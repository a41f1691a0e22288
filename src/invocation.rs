//! What one run of the version-control program left behind, and how each
//! query turns it into a result: a non-zero exit is not by itself an error,
//! each query decides.
use vstd::prelude::*;
use crate::blame::{blame_of, blame_views, parse_blame_porcelain, BlameLine};
use crate::records::{
    branch_views, branches, commit_views, commits, parse_branches, parse_log_lines,
    parse_stashes, parse_tags, stash_views, stashes, tag_views, tags, BranchInfo, CommitInfo,
    StashInfo, TagInfo,
};
use crate::status::{parse_status, status_views, statuses, FileStatus};
use crate::calendar::{dec, padded, push_padded, dec_vec};
use crate::text::{
    chars_of, push_str, contains, contains_exec, lines, split_lines, string_of, trim, trim_vec, views,
};
use crate::worktree::{parse_worktrees, worktree_views, worktrees_of, WorktreeInfo};

verus! {

/// Captured output of one invocation.
#[derive(Debug, Clone)]
pub struct GitOutput {
    pub stdout: String,
    pub stderr: String,
    /// Whether the process exited with status zero.
    pub success: bool,
    /// Exit code; -1 when the process was ended by a signal.
    pub code: i32,
}

/// Error text that only says that the repository has no history yet.
pub open spec fn is_empty_history(err: Seq<char>) -> bool {
    contains(err, "does not have any commits"@) || contains(err, "bad default revision"@)
        || contains(err, "unknown revision"@)
}

/// Whether a failed query's error text only says that there is no history
/// yet, so that its answer is an empty list.
pub fn is_empty_history_error(stderr: &str) -> (r: bool)
    ensures
        r == is_empty_history(stderr@),
{
    let v = chars_of(stderr);
    contains_exec(&v, "does not have any commits") || contains_exec(&v, "bad default revision")
        || contains_exec(&v, "unknown revision")
}

/// `s` without leading and trailing white space.
pub fn trimmed(s: &str) -> (r: String)
    ensures
        r@ == trim(s@),
{
    string_of(&trim_vec(&chars_of(s)))
}

/// The commits of a log query: its listing when it succeeded, none when it
/// failed only for want of history, else its trimmed error text.
pub fn log_result(out: &GitOutput) -> (r: Result<Vec<CommitInfo>, String>)
    ensures
        !out.success && contains(out.stderr@, "does not have any commits"@) ==> (r matches Ok(v)
            && v@.len() == 0),
        match r {
            Ok(v) => if out.success {
                commit_views(v@) == commits(lines(out.stdout@))
            } else {
                is_empty_history(out.stderr@) && v@.len() == 0
            },
            Err(e) => !out.success && !is_empty_history(out.stderr@) && e@ == trim(out.stderr@),
        },
{
    if !out.success {
        if is_empty_history_error(out.stderr.as_str()) {
            return Ok(Vec::new());
        }
        return Err(trimmed(out.stderr.as_str()));
    }
    Ok(parse_log_lines(out.stdout.as_str()))
}

/// The non-empty lines of a text.
pub open spec fn nonempty_lines(ls: Seq<Seq<char>>) -> Seq<Seq<char>>
    decreases ls.len(),
{
    if ls.len() == 0 {
        seq![]
    } else if ls.last().len() > 0 {
        nonempty_lines(ls.drop_last()).push(ls.last())
    } else {
        nonempty_lines(ls.drop_last())
    }
}

pub open spec fn string_views(v: Seq<String>) -> Seq<Seq<char>> {
    v.map_values(|s: String| s@)
}

/// The one-line commit summaries of a query for the commits since a tag:
/// the non-empty lines of its output when it succeeded, none when it failed
/// only for want of history, else its trimmed error text.
pub fn commits_since_result(out: &GitOutput) -> (r: Result<Vec<String>, String>)
    ensures
        !out.success && contains(out.stderr@, "does not have any commits"@) ==> (r matches Ok(v)
            && v@.len() == 0),
        match r {
            Ok(v) => if out.success {
                string_views(v@) == nonempty_lines(lines(out.stdout@))
            } else {
                is_empty_history(out.stderr@) && v@.len() == 0
            },
            Err(e) => !out.success && !is_empty_history(out.stderr@) && e@ == trim(out.stderr@),
        },
{
    if !out.success {
        if is_empty_history_error(out.stderr.as_str()) {
            return Ok(Vec::new());
        }
        return Err(trimmed(out.stderr.as_str()));
    }
    let ls = split_lines(&chars_of(out.stdout.as_str()));
    let mut v: Vec<String> = Vec::new();
    let mut i: usize = 0;
    while i < ls.len()
        invariant
            i <= ls@.len(),
            views(ls@) == lines(out.stdout@),
            string_views(v@) == nonempty_lines(views(ls@).take(i as int)),
        decreases ls@.len() - i,
    {
        proof {
            assert(views(ls@).take(i + 1).drop_last() =~= views(ls@).take(i as int));
            assert(views(ls@)[i as int] == ls@[i as int]@);
        }
        let ghost prev = v@;
        if ls[i].len() > 0 {
            let s = string_of(&ls[i]);
            v.push(s);
            assert(string_views(v@) =~= string_views(prev).push(s@));
        }
        i = i + 1;
    }
    assert(views(ls@).take(i as int) =~= views(ls@));
    Ok(v)
}


/// Whether a staged diff came back empty, so that the file may be newly
/// added to the index and its added-file diff is the one to show.
pub fn needs_added_file_diff(out: &GitOutput, staged: bool) -> (r: bool)
    ensures
        r == (staged && out.stdout@.len() == 0),
{
    staged && out.stdout.as_str().unicode_len() == 0
}

/// The paths of a status query: its listing, unless it failed with error text.
pub fn status_result(out: &GitOutput) -> (r: Result<Vec<FileStatus>, String>)
    ensures
        match r {
            Ok(v) => !(!out.success && out.stderr@.len() > 0) && status_views(v@) == statuses(
                lines(out.stdout@),
            ),
            Err(e) => !out.success && out.stderr@.len() > 0 && e@ == out.stderr@,
        },
{
    if !out.success && out.stderr.as_str().unicode_len() > 0 {
        return Err(out.stderr.clone());
    }
    Ok(parse_status(out.stdout.as_str()))
}

/// The branches of a branch query: its listing when it succeeded, else its
/// error text.
pub fn branches_result(out: &GitOutput) -> (r: Result<Vec<BranchInfo>, String>)
    ensures
        match r {
            Ok(v) => out.success && branch_views(v@) == branches(lines(out.stdout@)),
            Err(e) => !out.success && e@ == out.stderr@,
        },
{
    if !out.success {
        return Err(out.stderr.clone());
    }
    Ok(parse_branches(out.stdout.as_str()))
}

/// The tags of a tag query: its listing when it succeeded, else its trimmed
/// error text.
pub fn tags_result(out: &GitOutput) -> (r: Result<Vec<TagInfo>, String>)
    ensures
        match r {
            Ok(v) => out.success && tag_views(v@) == tags(lines(out.stdout@)),
            Err(e) => !out.success && e@ == trim(out.stderr@),
        },
{
    if !out.success {
        return Err(trimmed(out.stderr.as_str()));
    }
    Ok(parse_tags(out.stdout.as_str()))
}

/// The worktrees of a worktree query: its listing, unless it failed with
/// error text, which comes back trimmed.
pub fn worktrees_result(out: &GitOutput) -> (r: Result<Vec<WorktreeInfo>, String>)
    ensures
        match r {
            Ok(v) => !(!out.success && out.stderr@.len() > 0) && worktree_views(v@)
                == worktrees_of(out.stdout@),
            Err(e) => !out.success && out.stderr@.len() > 0 && e@ == trim(out.stderr@),
        },
{
    if !out.success && out.stderr.as_str().unicode_len() > 0 {
        return Err(trimmed(out.stderr.as_str()));
    }
    Ok(parse_worktrees(out.stdout.as_str()))
}

/// The stashes of a stash query: its listing, unless it failed with error
/// text that is not blank, which comes back trimmed.
pub fn stashes_result(out: &GitOutput) -> (r: Result<Vec<StashInfo>, String>)
    ensures
        match r {
            Ok(v) => !(!out.success && trim(out.stderr@).len() > 0) && stash_views(v@)
                == stashes(lines(out.stdout@)),
            Err(e) => !out.success && trim(out.stderr@).len() > 0 && e@ == trim(out.stderr@),
        },
{
    let err = trimmed(out.stderr.as_str());
    if !out.success && err.as_str().unicode_len() > 0 {
        return Err(err);
    }
    Ok(parse_stashes(out.stdout.as_str()))
}

/// The attributed lines of a blame query when it succeeded, else its trimmed
/// error text.
pub fn blame_result(out: &GitOutput) -> (r: Result<Vec<BlameLine>, String>)
    ensures
        match r {
            Ok(v) => out.success && blame_views(v@) == blame_of(out.stdout@),
            Err(e) => !out.success && e@ == trim(out.stderr@),
        },
{
    if !out.success {
        return Err(trimmed(out.stderr.as_str()));
    }
    Ok(parse_blame_porcelain(out.stdout.as_str()))
}

/// Success of a command that reports nothing, else its error text.
pub fn unit_result(out: &GitOutput) -> (r: Result<(), String>)
    ensures
        match r {
            Ok(_) => out.success,
            Err(e) => !out.success && e@ == out.stderr@,
        },
{
    if out.success {
        Ok(())
    } else {
        Err(out.stderr.clone())
    }
}

/// The trimmed output of a command that succeeded, else its error text.
pub fn stdout_result(out: &GitOutput) -> (r: Result<String, String>)
    ensures
        match r {
            Ok(s) => out.success && s@ == trim(out.stdout@),
            Err(e) => !out.success && e@ == out.stderr@,
        },
{
    if out.success {
        Ok(trimmed(out.stdout.as_str()))
    } else {
        Err(out.stderr.clone())
    }
}

/// For commands that report progress on the error stream: both streams
/// trimmed and joined when it succeeded, else its error text.
pub fn combined_result(out: &GitOutput) -> (r: Result<String, String>)
    ensures
        match r {
            Ok(s) => out.success && s@ == trim(out.stdout@) + trim(out.stderr@),
            Err(e) => !out.success && e@ == out.stderr@,
        },
{
    if out.success {
        let mut v = trim_vec(&chars_of(out.stdout.as_str()));
        let e = trim_vec(&chars_of(out.stderr.as_str()));
        let mut i: usize = 0;
        let ghost base = v@;
        while i < e.len()
            invariant
                i <= e@.len(),
                v@ == base + e@.subrange(0, i as int),
            decreases e@.len() - i,
        {
            v.push(e[i]);
            i = i + 1;
            assert(v@ =~= base + e@.subrange(0, i as int));
        }
        assert(e@.subrange(0, i as int) =~= e@);
        Ok(string_of(&v))
    } else {
        Err(out.stderr.clone())
    }
}

/// What a failed command said on both streams, trimmed; nothing when it
/// succeeded.
pub fn failure_text(out: &GitOutput) -> (r: Option<String>)
    ensures
        match r {
            Some(s) => !out.success && s@ == trim(out.stdout@ + seq!['\n'] + out.stderr@),
            None => out.success,
        },
{
    if out.success {
        return None;
    }
    let mut v = chars_of(out.stdout.as_str());
    v.push('\n');
    let e = chars_of(out.stderr.as_str());
    let mut i: usize = 0;
    let ghost base = v@;
    while i < e.len()
        invariant
            i <= e@.len(),
            v@ == base + e@.subrange(0, i as int),
        decreases e@.len() - i,
    {
        v.push(e[i]);
        i = i + 1;
        assert(v@ =~= base + e@.subrange(0, i as int));
    }
    assert(e@.subrange(0, i as int) =~= e@);
    assert(v@ =~= out.stdout@ + seq!['\n'] + out.stderr@);
    Some(string_of(&trim_vec(&v)))
}

/// For stash commands: the trimmed output when it succeeded, else both
/// streams trimmed.
pub fn stash_command_result(out: &GitOutput) -> (r: Result<String, String>)
    ensures
        match r {
            Ok(s) => out.success && s@ == trim(out.stdout@),
            Err(e) => !out.success && e@ == trim(out.stdout@ + seq!['\n'] + out.stderr@),
        },
{
    match failure_text(out) {
        Some(e) => Err(e),
        None => Ok(trimmed(out.stdout.as_str())),
    }
}

/// The message of a version query: the trimmed version line when it
/// succeeded, else the exit code and the error text.
pub fn version_result(out: &GitOutput) -> (r: Result<String, String>)
    ensures
        match r {
            Ok(s) => out.success && s@ == trim(out.stdout@),
            Err(e) => !out.success && e@ == "git exited with code "@ + padded(out.code as int, 1)
                + ": "@ + out.stderr@,
        },
{
    if out.success {
        return Ok(trimmed(out.stdout.as_str()));
    }
    let mut v: Vec<char> = Vec::new();
    push_str(&mut v, "git exited with code ");
    push_padded(&mut v, out.code as i64, 1);
    push_str(&mut v, ": ");
    push_str(&mut v, out.stderr.as_str());
    Err(string_of(&v))
}

/// The current branch from `symbolic-ref --short HEAD`, when that succeeded.
pub fn symbolic_branch(out: &GitOutput) -> (r: Option<String>)
    ensures
        match r {
            Some(s) => out.success && s@ == trim(out.stdout@),
            None => !out.success,
        },
{
    if out.success {
        Some(trimmed(out.stdout.as_str()))
    } else {
        None
    }
}

/// The label of a detached head from `rev-parse --short HEAD`:
/// `(detached:<id>)`, or empty when that failed too.
pub fn detached_label(out: &GitOutput) -> (r: String)
    ensures
        out.success ==> r@ == "(detached:"@ + trim(out.stdout@) + ")"@,
        !out.success ==> r@.len() == 0,
{
    if !out.success {
        return String::new();
    }
    let mut v: Vec<char> = Vec::new();
    push_str(&mut v, "(detached:");
    let t = trim_vec(&chars_of(out.stdout.as_str()));
    let mut i: usize = 0;
    let ghost base = v@;
    while i < t.len()
        invariant
            i <= t@.len(),
            v@ == base + t@.subrange(0, i as int),
        decreases t@.len() - i,
    {
        v.push(t[i]);
        i = i + 1;
        assert(v@ =~= base + t@.subrange(0, i as int));
    }
    assert(t@.subrange(0, i as int) =~= t@);
    push_str(&mut v, ")");
    string_of(&v)
}

/// `stash@{N}`, the reference of the stash at position `index`.
pub fn stash_reference(index: usize) -> (r: String)
    ensures
        r@ == "stash@{"@ + dec(index as nat) + "}"@,
{
    let mut v: Vec<char> = Vec::new();
    push_str(&mut v, "stash@{");
    let d = dec_vec(index as u64);
    let mut i: usize = 0;
    let ghost base = v@;
    while i < d.len()
        invariant
            i <= d@.len(),
            v@ == base + d@.subrange(0, i as int),
        decreases d@.len() - i,
    {
        v.push(d[i]);
        i = i + 1;
        assert(v@ =~= base + d@.subrange(0, i as int));
    }
    assert(d@.subrange(0, i as int) =~= d@);
    push_str(&mut v, "}");
    string_of(&v)
}

} // verus!
