//! Worktree listings: blocks of `key value` lines separated by blank lines.
use vstd::prelude::*;
use crate::text::{
    chars_of, equals_str, lines, prefix_upto, prefix_upto_vec, split_lines,
    starts_with, string_of, strip_prefix, strip_prefix_vec, trim_end, trim_end_vec, views,
    occurs_at_exec,
};

verus! {

/// One working copy attached to the repository.
#[derive(Debug, Clone)]
pub struct WorktreeInfo {
    pub path: String,
    /// Short branch name; empty when the head is detached.
    pub branch: String,
    pub commit: String,
    pub is_main: bool,
    pub locked: bool,
    pub prunable: bool,
}

pub struct WorktreeView {
    pub path: Seq<char>,
    pub branch: Seq<char>,
    pub commit: Seq<char>,
    pub is_main: bool,
    pub locked: bool,
    pub prunable: bool,
}

impl View for WorktreeInfo {
    type V = WorktreeView;

    open spec fn view(&self) -> WorktreeView {
        WorktreeView {
            path: self.path@,
            branch: self.branch@,
            commit: self.commit@,
            is_main: self.is_main,
            locked: self.locked,
            prunable: self.prunable,
        }
    }
}

pub open spec fn worktree_views(v: Seq<WorktreeInfo>) -> Seq<WorktreeView> {
    v.map_values(|w: WorktreeInfo| w@)
}

/// Where a listing stands after some of its lines: the entries flushed so
/// far, the entry being filled, and whether no entry has begun yet.
pub struct ListingState {
    pub done: Seq<WorktreeView>,
    pub current: Option<WorktreeView>,
    pub first: bool,
}

pub open spec fn flushed(st: ListingState) -> Seq<WorktreeView> {
    match st.current {
        Some(w) => st.done.push(w),
        None => st.done,
    }
}

/// A flag line: the bare word, or the word followed by a reason.
pub open spec fn is_flag(line: Seq<char>, word: Seq<char>) -> bool {
    line == word || starts_with(line, word + seq![' '])
}

/// The effect of one line of the listing.
pub open spec fn listing_step(st: ListingState, raw: Seq<char>) -> ListingState {
    let line = trim_end(raw);
    if line.len() == 0 {
        ListingState { done: flushed(st), current: None, first: st.first }
    } else if strip_prefix(line, "worktree "@) is Some {
        ListingState {
            done: flushed(st),
            current: Some(
                WorktreeView {
                    path: strip_prefix(line, "worktree "@)->0,
                    branch: seq![],
                    commit: seq![],
                    is_main: st.first,
                    locked: false,
                    prunable: false,
                },
            ),
            first: false,
        }
    } else if st.current is None {
        st
    } else {
        let w = st.current->0;
        let w2 = if strip_prefix(line, "HEAD "@) is Some {
            WorktreeView { commit: prefix_upto(strip_prefix(line, "HEAD "@)->0, 8), ..w }
        } else if strip_prefix(line, "branch "@) is Some {
            let r = strip_prefix(line, "branch "@)->0;
            WorktreeView {
                branch: match strip_prefix(r, "refs/heads/"@) {
                    Some(short) => short,
                    None => r,
                },
                ..w
            }
        } else if is_flag(line, "locked"@) {
            WorktreeView { locked: true, ..w }
        } else if is_flag(line, "prunable"@) {
            WorktreeView { prunable: true, ..w }
        } else {
            w
        };
        ListingState { current: Some(w2), ..st }
    }
}

/// The state after the lines `ls`, from an empty start.
pub open spec fn listing_run(ls: Seq<Seq<char>>) -> ListingState
    decreases ls.len(),
{
    if ls.len() == 0 {
        ListingState { done: seq![], current: None, first: true }
    } else {
        listing_step(listing_run(ls.drop_last()), ls.last())
    }
}

/// The entries of a `worktree list --porcelain` output.
pub open spec fn worktrees_of(s: Seq<char>) -> Seq<WorktreeView> {
    flushed(listing_run(lines(s)))
}

fn is_flag_exec(line: &Vec<char>, word: &str, word_sp: &str) -> (r: bool)
    requires
        word_sp@ == word@ + seq![' '],
    ensures
        r == is_flag(line@, word@),
{
    equals_str(line, word) || occurs_at_exec(line, word_sp, 0)
}

/// Parses the output of `worktree list --porcelain`. The first entry is the
/// main working copy; a detached entry has an empty branch.
pub fn parse_worktrees(output: &str) -> (r: Vec<WorktreeInfo>)
    ensures
        worktree_views(r@) == worktrees_of(output@),
{
    let ls = split_lines(&chars_of(output));
    let mut done: Vec<WorktreeInfo> = Vec::new();
    let mut current: Option<WorktreeInfo> = None;
    let mut first = true;
    proof {
        reveal_strlit("locked ");
        reveal_strlit("locked");
        reveal_strlit("prunable ");
        reveal_strlit("prunable");
        assert("locked "@ =~= "locked"@ + seq![' ']);
        assert("prunable "@ =~= "prunable"@ + seq![' ']);
    }
    let mut i: usize = 0;
    while i < ls.len()
        invariant
            i <= ls@.len(),
            views(ls@) == lines(output@),
            "locked "@ == "locked"@ + seq![' '],
            "prunable "@ == "prunable"@ + seq![' '],
            ({
                let st = listing_run(views(ls@).take(i as int));
                &&& worktree_views(done@) == st.done
                &&& st.first == first
                &&& match current {
                    Some(w) => st.current == Some(w@),
                    None => st.current is None,
                }
            }),
        decreases ls@.len() - i,
    {
        proof {
            assert(views(ls@).take(i + 1).drop_last() =~= views(ls@).take(i as int));
            assert(views(ls@)[i as int] == ls@[i as int]@);
        }
        let line = trim_end_vec(&ls[i]);
        let ghost prev_done = done@;
        if line.len() == 0 {
            match current {
                Some(w) => {
                    done.push(w);
                    assert(worktree_views(done@) =~= worktree_views(prev_done).push(w@));
                },
                None => {},
            }
            current = None;
        } else {
            match strip_prefix_vec(&line, "worktree ") {
                Some(path) => {
                    match current {
                        Some(w) => {
                            done.push(w);
                            assert(worktree_views(done@) =~= worktree_views(prev_done).push(
                                w@,
                            ));
                        },
                        None => {},
                    }
                    current = Some(
                        WorktreeInfo {
                            path: string_of(&path),
                            branch: String::new(),
                            commit: String::new(),
                            is_main: first,
                            locked: false,
                            prunable: false,
                        },
                    );
                    first = false;
                },
                None => {
                    match current {
                        Some(w) => {
                            let mut w = w;
                            match strip_prefix_vec(&line, "HEAD ") {
                                Some(hash) => {
                                    w.commit = string_of(&prefix_upto_vec(&hash, 8));
                                },
                                None => {
                                    match strip_prefix_vec(&line, "branch ") {
                                        Some(r) => {
                                            w.branch = match strip_prefix_vec(&r, "refs/heads/") {
                                                Some(short) => string_of(&short),
                                                None => string_of(&r),
                                            };
                                        },
                                        None => {
                                            if is_flag_exec(&line, "locked", "locked ") {
                                                w.locked = true;
                                            } else if is_flag_exec(
                                                &line,
                                                "prunable",
                                                "prunable ",
                                            ) {
                                                w.prunable = true;
                                            }
                                        },
                                    }
                                },
                            }
                            current = Some(w);
                        },
                        None => {},
                    }
                },
            }
        }
        i = i + 1;
    }
    assert(views(ls@).take(i as int) =~= views(ls@));
    let ghost prev_done = done@;
    match current {
        Some(w) => {
            done.push(w);
            assert(worktree_views(done@) =~= worktree_views(prev_done).push(w@));
        },
        None => {},
    }
    done
}

} // verus!
