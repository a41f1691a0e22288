//! Working-tree status: one `XY PATH` line of porcelain v1 output per path.
use vstd::prelude::*;
use crate::text::{
    chars_of, contains, copy_range, lines, occurs_at, split_lines, views, find_str, find_str_exec, lemma_find_str_first, lemma_find_str_found,
    lemma_find_str_none, string_of,
};

verus! {

/// One changed or untracked path.
#[derive(Debug, Clone)]
pub struct FileStatus {
    pub path: String,
    /// Index (staged) status character, or empty.
    pub staged_status: String,
    /// Worktree (unstaged) status character, or empty.
    pub unstaged_status: String,
    pub is_staged: bool,
    pub is_unstaged: bool,
    /// Original path of a rename or copy.
    pub original_path: Option<String>,
}

pub struct FileStatusView {
    pub path: Seq<char>,
    pub staged_status: Seq<char>,
    pub unstaged_status: Seq<char>,
    pub is_staged: bool,
    pub is_unstaged: bool,
    pub original_path: Option<Seq<char>>,
}

pub open spec fn opt_view(o: Option<String>) -> Option<Seq<char>> {
    match o {
        Some(s) => Some(s@),
        None => None,
    }
}

impl View for FileStatus {
    type V = FileStatusView;

    open spec fn view(&self) -> FileStatusView {
        FileStatusView {
            path: self.path@,
            staged_status: self.staged_status@,
            unstaged_status: self.unstaged_status@,
            is_staged: self.is_staged,
            is_unstaged: self.is_unstaged,
            original_path: opt_view(self.original_path),
        }
    }
}

pub open spec fn arrow() -> Seq<char> {
    seq![' ', '-', '>', ' ']
}

/// Whether the index column marks the path as staged.
pub open spec fn staged_code(x: char) -> bool {
    x != ' ' && x != '?'
}

/// Whether the worktree column marks the path as unstaged ("??" is untracked).
pub open spec fn unstaged_code(x: char, y: char) -> bool {
    y != ' ' || (x == '?' && y == '?')
}

/// The record that a status line describes; `None` for a line shorter than
/// the two code columns, the separator and one path character.
pub open spec fn status_of(line: Seq<char>) -> Option<FileStatusView> {
    if line.len() < 4 {
        None
    } else {
        let x = line[0];
        let y = line[1];
        let rest = line.subrange(3, line.len() as int);
        let split = (x == 'R' || x == 'C') && find_str(rest, arrow()) is Some;
        let pos = find_str(rest, arrow())->0;
        Some(
            FileStatusView {
                path: if split {
                    rest.subrange(0, pos)
                } else {
                    rest
                },
                staged_status: if staged_code(x) {
                    seq![x]
                } else {
                    seq![]
                },
                unstaged_status: if x == '?' && y == '?' {
                    seq!['?']
                } else if y != ' ' {
                    seq![y]
                } else {
                    seq![]
                },
                is_staged: staged_code(x),
                is_unstaged: unstaged_code(x, y),
                original_path: if split {
                    Some(rest.subrange(pos + 4, rest.len() as int))
                } else {
                    None
                },
            },
        )
    }
}

fn one_char(c: char) -> (r: String)
    ensures
        r@ == seq![c],
{
    let v: Vec<char> = vec![c];
    assert(v@ =~= seq![c]);
    string_of(&v)
}

fn status_of_chars(line: &Vec<char>) -> (r: Option<FileStatus>)
    ensures
        match r {
            Some(f) => status_of(line@) == Some(f@),
            None => status_of(line@) is None,
        },
{
    if line.len() < 4 {
        return None;
    }
    let x = line[0];
    let y = line[1];
    let rest = copy_range(line, 3, line.len());
    let mut path = string_of(&rest);
    let mut original_path: Option<String> = None;
    if x == 'R' || x == 'C' {
        match find_str_exec(&rest, " -> ") {
            Some(pos) => {
                proof {
                    reveal_strlit(" -> ");
                    lemma_find_str_found(rest@, arrow(), 0);
                    assert(" -> "@ =~= arrow());
                }
                path = string_of(&copy_range(&rest, 0, pos));
                original_path = Some(string_of(&copy_range(&rest, pos + 4, rest.len())));
            },
            None => {
                proof {
                    reveal_strlit(" -> ");
                    assert(" -> "@ =~= arrow());
                }
            },
        }
    }
    let staged_status = if x != ' ' && x != '?' {
        one_char(x)
    } else {
        String::new()
    };
    let unstaged_status = if x == '?' && y == '?' {
        one_char('?')
    } else if y != ' ' {
        one_char(y)
    } else {
        String::new()
    };
    let r = FileStatus {
        path,
        staged_status,
        unstaged_status,
        is_staged: x != ' ' && x != '?',
        is_unstaged: y != ' ' || (x == '?' && y == '?'),
        original_path,
    };
    assert(status_of(line@) == Some(r@));
    Some(r)
}

/// Parses one line of `status --porcelain=v1` output.
pub fn parse_status_line(line: &str) -> (r: Option<FileStatus>)
    ensures
        match r {
            Some(f) => status_of(line@) == Some(f@),
            None => status_of(line@) is None,
        },
{
    status_of_chars(&chars_of(line))
}


pub open spec fn status_views(v: Seq<FileStatus>) -> Seq<FileStatusView> {
    v.map_values(|f: FileStatus| f@)
}

/// The records of all status lines that describe a path, in order.
pub open spec fn statuses(ls: Seq<Seq<char>>) -> Seq<FileStatusView>
    decreases ls.len(),
{
    if ls.len() == 0 {
        seq![]
    } else {
        let prev = statuses(ls.drop_last());
        match status_of(ls.last()) {
            Some(f) => prev.push(f),
            None => prev,
        }
    }
}

/// Parses the whole output of `status --porcelain=v1`, skipping lines that
/// are too short to describe a path.
pub fn parse_status(output: &str) -> (r: Vec<FileStatus>)
    ensures
        status_views(r@) == statuses(lines(output@)),
{
    let ls = split_lines(&chars_of(output));
    let mut out: Vec<FileStatus> = Vec::new();
    let mut i: usize = 0;
    while i < ls.len()
        invariant
            i <= ls@.len(),
            views(ls@) == lines(output@),
            status_views(out@) == statuses(views(ls@).take(i as int)),
        decreases ls@.len() - i,
    {
        let ghost prev = out@;
        let entry = status_of_chars(&ls[i]);
        proof {
            assert(views(ls@).take(i + 1).drop_last() =~= views(ls@).take(i as int));
            assert(views(ls@)[i as int] == ls@[i as int]@);
        }
        match entry {
            Some(f) => {
                out.push(f);
                assert(status_views(out@) =~= status_views(prev).push(f@));
            },
            None => {},
        }
        i = i + 1;
    }
    assert(views(ls@).take(i as int) =~= views(ls@));
    out
}

/// Any status line with codes `x`, `y` and a path `p` that holds no arrow
/// describes `p` itself, staged exactly when `x` is neither blank nor `?`, and
/// unstaged exactly when `y` is not blank or the pair is `??`.
pub proof fn status_line_codes(x: char, y: char, p: Seq<char>)
    requires
        p.len() > 0,
        !contains(p, arrow()),
    ensures
        status_of(seq![x, y, ' '] + p) matches Some(f) && f.path == p
            && f.original_path is None && f.is_staged == staged_code(x)
            && f.is_unstaged == unstaged_code(x, y)
            && f.staged_status == (if staged_code(x) { seq![x] } else { seq![] }),
{
    let line = seq![x, y, ' '] + p;
    let rest = line.subrange(3, line.len() as int);
    assert(rest =~= p);
    assert forall|t: int| 0 <= t implies !occurs_at(rest, arrow(), t) by {}
    lemma_find_str_none(rest, arrow(), 0);
}

proof fn lemma_first_arrow(new_path: Seq<char>, rest: Seq<char>)
    requires
        !contains(new_path + seq![' ', '-', '>'], arrow()),
        rest.len() >= new_path.len() + 4,
        rest.subrange(0, new_path.len() as int) == new_path,
        rest.subrange(new_path.len() as int, new_path.len() + 4 as int) == arrow(),
    ensures
        find_str(rest, arrow()) == Some(new_path.len() as int),
{
    let k = new_path.len() as int;
    let head = new_path + seq![' ', '-', '>'];
    assert(head =~= rest.subrange(0, k + 3));
    assert forall|t: int| 0 <= t < k implies !occurs_at(rest, arrow(), t) by {
        if occurs_at(rest, arrow(), t) {
            assert(rest.subrange(t, t + 4) =~= head.subrange(t, t + 4));
            assert(occurs_at(head, arrow(), t));
        }
    }
    assert(occurs_at(rest, arrow(), k));
    lemma_find_str_first(rest, arrow(), 0, k);
}

/// A rename or copy line `new -> old` is split at the arrow, as long as the
/// new path together with the arrow's first three characters holds no arrow
/// (so that the first arrow is the one after it).
pub proof fn status_line_rename(x: char, y: char, new_path: Seq<char>, old_path: Seq<char>)
    requires
        x == 'R' || x == 'C',
        !contains(new_path + seq![' ', '-', '>'], arrow()),
    ensures
        status_of(seq![x, y, ' '] + new_path + arrow() + old_path) matches Some(f)
            && f.path == new_path && f.original_path == Some(old_path) && f.is_staged
            && f.is_unstaged == (y != ' '),
{
    let line = seq![x, y, ' '] + new_path + arrow() + old_path;
    let rest = line.subrange(3, line.len() as int);
    let k = new_path.len() as int;
    assert(rest =~= new_path + arrow() + old_path);
    assert(rest.subrange(0, k) =~= new_path);
    assert(rest.subrange(k, k + 4) =~= arrow());
    assert(rest.subrange(k + 4, rest.len() as int) =~= old_path);
    lemma_first_arrow(new_path, rest);
}

} // verus!
