//! One-record-per-line listings with `|`-separated fields: commits, branches,
//! tags and stashes; and the tab-separated remote listing.
use vstd::prelude::*;
use crate::status::opt_view;
use crate::text::{
    chars_of, copy_range, equals_str, find_char, find_from, first_word, first_word_vec,
    lemma_find_from_bounds, lines, prefix_upto, prefix_upto_vec, same_chars, split_lines, splitn,
    splitn_vec, string_of, trim, trim_vec, views,
};

verus! {

/// One commit of a log listing.
#[derive(Debug, Clone)]
pub struct CommitInfo {
    pub hash: String,
    pub short_hash: String,
    pub author: String,
    /// Date part of the author timestamp.
    pub date: String,
    pub message: String,
}

pub struct CommitView {
    pub hash: Seq<char>,
    pub short_hash: Seq<char>,
    pub author: Seq<char>,
    pub date: Seq<char>,
    pub message: Seq<char>,
}

impl View for CommitInfo {
    type V = CommitView;

    open spec fn view(&self) -> CommitView {
        CommitView {
            hash: self.hash@,
            short_hash: self.short_hash@,
            author: self.author@,
            date: self.date@,
            message: self.message@,
        }
    }
}

pub open spec fn commit_views(v: Seq<CommitInfo>) -> Seq<CommitView> {
    v.map_values(|c: CommitInfo| c@)
}

/// End of the date part of a timestamp from position `i` on: the first `T`
/// or space, or the end of the text.
pub open spec fn date_end(s: Seq<char>, i: int) -> int
    decreases s.len() - i,
{
    if i < 0 || i >= s.len() {
        s.len() as int
    } else if s[i] == 'T' || s[i] == ' ' {
        i
    } else {
        date_end(s, i + 1)
    }
}

/// The date part of a timestamp such as `2024-01-02 10:00:00 +0100` or
/// `2024-01-02T10:00:00Z`.
pub open spec fn date_part(s: Seq<char>) -> Seq<char> {
    s.subrange(0, date_end(s, 0))
}

fn date_part_vec(v: &Vec<char>) -> (r: Vec<char>)
    ensures
        r@ == date_part(v@),
{
    let mut i: usize = 0;
    while i < v.len() && v[i] != 'T' && v[i] != ' '
        invariant
            i <= v@.len(),
            date_end(v@, 0) == date_end(v@, i as int),
        decreases v@.len() - i,
    {
        i = i + 1;
    }
    copy_range(v, 0, i)
}

/// The commit that a `<id>|<short id>|<author>|<timestamp>|<subject>` line
/// describes; the subject keeps any further `|`, and the timestamp keeps only
/// its date part. `None` for a line with fewer than five fields.
pub open spec fn commit_of(line: Seq<char>) -> Option<CommitView> {
    let parts = splitn(line, 5, '|');
    if parts.len() < 5 {
        None
    } else {
        Some(
            CommitView {
                hash: parts[0],
                short_hash: parts[1],
                author: parts[2],
                date: date_part(parts[3]),
                message: parts[4],
            },
        )
    }
}

pub open spec fn commits(ls: Seq<Seq<char>>) -> Seq<CommitView>
    decreases ls.len(),
{
    if ls.len() == 0 {
        seq![]
    } else {
        let prev = commits(ls.drop_last());
        match commit_of(ls.last()) {
            Some(c) => prev.push(c),
            None => prev,
        }
    }
}

fn commit_of_chars(line: &Vec<char>) -> (r: Option<CommitInfo>)
    ensures
        match r {
            Some(c) => commit_of(line@) == Some(c@),
            None => commit_of(line@) is None,
        },
{
    let parts = splitn_vec(line, 5, '|');
    if parts.len() < 5 {
        return None;
    }
    proof {
        assert(views(parts@)[0] == parts@[0]@);
        assert(views(parts@)[1] == parts@[1]@);
        assert(views(parts@)[2] == parts@[2]@);
        assert(views(parts@)[3] == parts@[3]@);
        assert(views(parts@)[4] == parts@[4]@);
    }
    Some(
        CommitInfo {
            hash: string_of(&parts[0]),
            short_hash: string_of(&parts[1]),
            author: string_of(&parts[2]),
            date: string_of(&date_part_vec(&parts[3])),
            message: string_of(&parts[4]),
        },
    )
}

/// Parses `log --format=%H|%h|%an|%ai|%s` output, skipping lines with fewer
/// than five fields.
pub fn parse_log_lines(output: &str) -> (r: Vec<CommitInfo>)
    ensures
        commit_views(r@) == commits(lines(output@)),
{
    let ls = split_lines(&chars_of(output));
    let mut out: Vec<CommitInfo> = Vec::new();
    let mut i: usize = 0;
    while i < ls.len()
        invariant
            i <= ls@.len(),
            views(ls@) == lines(output@),
            commit_views(out@) == commits(views(ls@).take(i as int)),
        decreases ls@.len() - i,
    {
        proof {
            assert(views(ls@).take(i + 1).drop_last() =~= views(ls@).take(i as int));
            assert(views(ls@)[i as int] == ls@[i as int]@);
        }
        let ghost prev = out@;
        match commit_of_chars(&ls[i]) {
            Some(c) => {
                out.push(c);
                assert(commit_views(out@) =~= commit_views(prev).push(c@));
            },
            None => {},
        }
        i = i + 1;
    }
    assert(views(ls@).take(i as int) =~= views(ls@));
    out
}


/// One local branch.
#[derive(Debug, Clone)]
pub struct BranchInfo {
    pub name: String,
    pub current: bool,
    pub upstream: Option<String>,
}

pub struct BranchView {
    pub name: Seq<char>,
    pub current: bool,
    pub upstream: Option<Seq<char>>,
}

impl View for BranchInfo {
    type V = BranchView;

    open spec fn view(&self) -> BranchView {
        BranchView { name: self.name@, current: self.current, upstream: opt_view(self.upstream) }
    }
}

pub open spec fn branch_views(v: Seq<BranchInfo>) -> Seq<BranchView> {
    v.map_values(|b: BranchInfo| b@)
}

/// The branch that a non-empty `<head marker>|<name>|<upstream>` line
/// describes: current when the marker is `*`, a missing name empty; the
/// upstream is the text after the second `|` up to the next `|`, absent when
/// that is empty or missing.
pub open spec fn branch_of(line: Seq<char>) -> Option<BranchView> {
    let parts = splitn(line, 3, '|');
    if line.len() == 0 {
        None
    } else {
        Some(
            BranchView {
                name: if parts.len() > 1 {
                    parts[1]
                } else {
                    seq![]
                },
                current: parts[0] == seq!['*'],
                upstream: if parts.len() > 2 && find_from(parts[2], '|', 0) > 0 {
                    Some(parts[2].subrange(0, find_from(parts[2], '|', 0)))
                } else {
                    None
                },
            },
        )
    }
}

pub open spec fn branches(ls: Seq<Seq<char>>) -> Seq<BranchView>
    decreases ls.len(),
{
    if ls.len() == 0 {
        seq![]
    } else {
        let prev = branches(ls.drop_last());
        match branch_of(ls.last()) {
            Some(b) => prev.push(b),
            None => prev,
        }
    }
}

fn branch_of_chars(line: &Vec<char>) -> (r: Option<BranchInfo>)
    ensures
        match r {
            Some(b) => branch_of(line@) == Some(b@),
            None => branch_of(line@) is None,
        },
{
    if line.len() == 0 {
        return None;
    }
    let parts = splitn_vec(line, 3, '|');
    proof {
        reveal_strlit("*");
        assert("*"@ =~= seq!['*']);
        assert(views(parts@).len() == parts@.len());
        assert(forall|k: int| 0 <= k < parts@.len() ==> views(parts@)[k] == parts@[k]@);
    }
    let name = if parts.len() > 1 {
        string_of(&parts[1])
    } else {
        String::new()
    };
    let upstream = if parts.len() > 2 && find_char(&parts[2], '|', 0) > 0 {
        proof {
            lemma_find_from_bounds(parts@[2]@, '|', 0);
        }
        Some(string_of(&copy_range(&parts[2], 0, find_char(&parts[2], '|', 0))))
    } else {
        None
    };
    Some(BranchInfo { name, current: equals_str(&parts[0], "*"), upstream })
}

/// Parses `for-each-ref --format=%(HEAD)|%(refname:short)|%(upstream:short)`
/// output, one branch per non-empty line.
pub fn parse_branches(output: &str) -> (r: Vec<BranchInfo>)
    ensures
        branch_views(r@) == branches(lines(output@)),
{
    let ls = split_lines(&chars_of(output));
    let mut out: Vec<BranchInfo> = Vec::new();
    let mut i: usize = 0;
    while i < ls.len()
        invariant
            i <= ls@.len(),
            views(ls@) == lines(output@),
            branch_views(out@) == branches(views(ls@).take(i as int)),
        decreases ls@.len() - i,
    {
        proof {
            assert(views(ls@).take(i + 1).drop_last() =~= views(ls@).take(i as int));
            assert(views(ls@)[i as int] == ls@[i as int]@);
        }
        let ghost prev = out@;
        match branch_of_chars(&ls[i]) {
            Some(b) => {
                out.push(b);
                assert(branch_views(out@) =~= branch_views(prev).push(b@));
            },
            None => {},
        }
        i = i + 1;
    }
    assert(views(ls@).take(i as int) =~= views(ls@));
    out
}

/// One tag.
#[derive(Debug, Clone)]
pub struct TagInfo {
    pub name: String,
    pub commit_hash: String,
    pub date: String,
    /// Subject of the tag; absent when blank.
    pub message: Option<String>,
}

pub struct TagView {
    pub name: Seq<char>,
    pub commit_hash: Seq<char>,
    pub date: Seq<char>,
    pub message: Option<Seq<char>>,
}

impl View for TagInfo {
    type V = TagView;

    open spec fn view(&self) -> TagView {
        TagView {
            name: self.name@,
            commit_hash: self.commit_hash@,
            date: self.date@,
            message: opt_view(self.message),
        }
    }
}

pub open spec fn tag_views(v: Seq<TagInfo>) -> Seq<TagView> {
    v.map_values(|t: TagInfo| t@)
}

/// Field `k` of a tag line, trimmed; empty when missing.
pub open spec fn tag_field(parts: Seq<Seq<char>>, k: int) -> Seq<char> {
    if parts.len() > k {
        trim(parts[k])
    } else {
        seq![]
    }
}

/// The tag that a non-blank `<name>|<short id>|<date>|<subject>` line
/// describes, each field trimmed; a blank subject is no message.
pub open spec fn tag_of(line: Seq<char>) -> Option<TagView> {
    let parts = splitn(line, 4, '|');
    if trim(line).len() == 0 {
        None
    } else {
        Some(
            TagView {
                name: tag_field(parts, 0),
                commit_hash: tag_field(parts, 1),
                date: tag_field(parts, 2),
                message: if tag_field(parts, 3).len() == 0 {
                    None
                } else {
                    Some(tag_field(parts, 3))
                },
            },
        )
    }
}

pub open spec fn tags(ls: Seq<Seq<char>>) -> Seq<TagView>
    decreases ls.len(),
{
    if ls.len() == 0 {
        seq![]
    } else {
        let prev = tags(ls.drop_last());
        match tag_of(ls.last()) {
            Some(t) => prev.push(t),
            None => prev,
        }
    }
}

fn tag_field_exec(parts: &Vec<Vec<char>>, k: usize) -> (r: Vec<char>)
    ensures
        r@ == tag_field(views(parts@), k as int),
{
    if parts.len() > k {
        assert(views(parts@)[k as int] == parts@[k as int]@);
        trim_vec(&parts[k])
    } else {
        Vec::new()
    }
}

fn tag_of_chars(line: &Vec<char>) -> (r: Option<TagInfo>)
    ensures
        match r {
            Some(t) => tag_of(line@) == Some(t@),
            None => tag_of(line@) is None,
        },
{
    if trim_vec(line).len() == 0 {
        return None;
    }
    let parts = splitn_vec(line, 4, '|');
    let msg = tag_field_exec(&parts, 3);
    Some(
        TagInfo {
            name: string_of(&tag_field_exec(&parts, 0)),
            commit_hash: string_of(&tag_field_exec(&parts, 1)),
            date: string_of(&tag_field_exec(&parts, 2)),
            message: if msg.len() == 0 {
                None
            } else {
                Some(string_of(&msg))
            },
        },
    )
}

/// Parses `tag -l --format=%(refname:short)|%(objectname:short)|%(creatordate:short)|%(contents:subject)`
/// output, one tag per non-blank line, in the listed order.
pub fn parse_tags(output: &str) -> (r: Vec<TagInfo>)
    ensures
        tag_views(r@) == tags(lines(output@)),
{
    let ls = split_lines(&chars_of(output));
    let mut out: Vec<TagInfo> = Vec::new();
    let mut i: usize = 0;
    while i < ls.len()
        invariant
            i <= ls@.len(),
            views(ls@) == lines(output@),
            tag_views(out@) == tags(views(ls@).take(i as int)),
        decreases ls@.len() - i,
    {
        proof {
            assert(views(ls@).take(i + 1).drop_last() =~= views(ls@).take(i as int));
            assert(views(ls@)[i as int] == ls@[i as int]@);
        }
        let ghost prev = out@;
        match tag_of_chars(&ls[i]) {
            Some(t) => {
                out.push(t);
                assert(tag_views(out@) =~= tag_views(prev).push(t@));
            },
            None => {},
        }
        i = i + 1;
    }
    assert(views(ls@).take(i as int) =~= views(ls@));
    out
}


/// One stash entry.
#[derive(Debug, Clone)]
pub struct StashInfo {
    /// Position in the listing, 0 for the most recent.
    pub index: usize,
    /// `stash@{N}`.
    pub reference: String,
    pub message: String,
    /// First eight characters of the stash commit id.
    pub hash: String,
}

pub struct StashView {
    pub index: usize,
    pub reference: Seq<char>,
    pub message: Seq<char>,
    pub hash: Seq<char>,
}

impl View for StashInfo {
    type V = StashView;

    open spec fn view(&self) -> StashView {
        StashView {
            index: self.index,
            reference: self.reference@,
            message: self.message@,
            hash: self.hash@,
        }
    }
}

pub open spec fn stash_views(v: Seq<StashInfo>) -> Seq<StashView> {
    v.map_values(|t: StashInfo| t@)
}

/// The stash that a `<id>|<reference>|<description>` line describes, given
/// its position among the entries; `None` for fewer than three fields.
pub open spec fn stash_of(line: Seq<char>, index: usize) -> Option<StashView> {
    let parts = splitn(line, 3, '|');
    if parts.len() < 3 {
        None
    } else {
        Some(
            StashView {
                index,
                reference: parts[1],
                message: parts[2],
                hash: prefix_upto(parts[0], 8),
            },
        )
    }
}

pub open spec fn stashes(ls: Seq<Seq<char>>) -> Seq<StashView>
    decreases ls.len(),
{
    if ls.len() == 0 {
        seq![]
    } else {
        let prev = stashes(ls.drop_last());
        match stash_of(ls.last(), prev.len() as usize) {
            Some(t) => prev.push(t),
            None => prev,
        }
    }
}

proof fn lemma_stashes_len(ls: Seq<Seq<char>>)
    ensures
        stashes(ls).len() <= ls.len(),
    decreases ls.len(),
{
    if ls.len() > 0 {
        lemma_stashes_len(ls.drop_last());
    }
}

fn stash_of_chars(line: &Vec<char>, index: usize) -> (r: Option<StashInfo>)
    ensures
        match r {
            Some(t) => stash_of(line@, index) == Some(t@),
            None => stash_of(line@, index) is None,
        },
{
    let parts = splitn_vec(line, 3, '|');
    if parts.len() < 3 {
        return None;
    }
    proof {
        assert(views(parts@)[0] == parts@[0]@);
        assert(views(parts@)[1] == parts@[1]@);
        assert(views(parts@)[2] == parts@[2]@);
    }
    Some(
        StashInfo {
            index,
            reference: string_of(&parts[1]),
            message: string_of(&parts[2]),
            hash: string_of(&prefix_upto_vec(&parts[0], 8)),
        },
    )
}

/// Parses `stash list --format=%H|%gd|%gs` output. Entries are numbered by
/// their position among the entries, most recent first.
pub fn parse_stashes(output: &str) -> (r: Vec<StashInfo>)
    ensures
        stash_views(r@) == stashes(lines(output@)),
{
    let ls = split_lines(&chars_of(output));
    let mut out: Vec<StashInfo> = Vec::new();
    let mut i: usize = 0;
    while i < ls.len()
        invariant
            i <= ls@.len(),
            views(ls@) == lines(output@),
            stash_views(out@) == stashes(views(ls@).take(i as int)),
        decreases ls@.len() - i,
    {
        proof {
            assert(views(ls@).take(i + 1).drop_last() =~= views(ls@).take(i as int));
            assert(views(ls@)[i as int] == ls@[i as int]@);
            lemma_stashes_len(views(ls@).take(i as int));
        }
        let ghost prev = out@;
        match stash_of_chars(&ls[i], out.len()) {
            Some(t) => {
                out.push(t);
                assert(stash_views(out@) =~= stash_views(prev).push(t@));
            },
            None => {},
        }
        i = i + 1;
    }
    assert(views(ls@).take(i as int) =~= views(ls@));
    out
}

/// One configured remote.
#[derive(Debug, Clone)]
pub struct RemoteInfo {
    pub name: String,
    pub url: String,
}

pub struct RemoteView {
    pub name: Seq<char>,
    pub url: Seq<char>,
}

impl View for RemoteInfo {
    type V = RemoteView;

    open spec fn view(&self) -> RemoteView {
        RemoteView { name: self.name@, url: self.url@ }
    }
}

pub open spec fn remote_views(v: Seq<RemoteInfo>) -> Seq<RemoteView> {
    v.map_values(|t: RemoteInfo| t@)
}

/// The remote that a `<name>\t<url> (<direction>)` line describes: the name
/// trimmed, the url the first word after the tab.
pub open spec fn remote_of(line: Seq<char>) -> RemoteView {
    let parts = splitn(line, 2, '\t');
    RemoteView {
        name: trim(parts[0]),
        url: if parts.len() > 1 {
            first_word(parts[1])
        } else {
            seq![]
        },
    }
}

pub open spec fn has_remote(v: Seq<RemoteView>, name: Seq<char>) -> bool {
    exists|j: int| 0 <= j < v.len() && v[j].name == name
}

/// Each remote once, at its first line, in order.
pub open spec fn remotes(ls: Seq<Seq<char>>) -> Seq<RemoteView>
    decreases ls.len(),
{
    if ls.len() == 0 {
        seq![]
    } else {
        let prev = remotes(ls.drop_last());
        let r = remote_of(ls.last());
        if has_remote(prev, r.name) {
            prev
        } else {
            prev.push(r)
        }
    }
}

fn remote_of_chars(line: &Vec<char>) -> (r: (Vec<char>, Vec<char>))
    ensures
        r.0@ == remote_of(line@).name,
        r.1@ == remote_of(line@).url,
{
    let parts = splitn_vec(line, 2, '\t');
    proof {
        assert(views(parts@)[0] == parts@[0]@);
    }
    let name = trim_vec(&parts[0]);
    let url = if parts.len() > 1 {
        assert(views(parts@)[1] == parts@[1]@);
        first_word_vec(&parts[1])
    } else {
        Vec::new()
    };
    (name, url)
}

/// Parses `remote -v` output, which names each remote twice (fetch and
/// push), into one record per remote, in order of first appearance.
pub fn parse_remotes(output: &str) -> (r: Vec<RemoteInfo>)
    ensures
        remote_views(r@) == remotes(lines(output@)),
{
    let ls = split_lines(&chars_of(output));
    let mut out: Vec<RemoteInfo> = Vec::new();
    let mut names: Vec<Vec<char>> = Vec::new();
    let mut i: usize = 0;
    while i < ls.len()
        invariant
            i <= ls@.len(),
            views(ls@) == lines(output@),
            remote_views(out@) == remotes(views(ls@).take(i as int)),
            names@.len() == out@.len(),
            forall|k: int| 0 <= k < out@.len() ==> #[trigger] names@[k]@ == out@[k].name@,
        decreases ls@.len() - i,
    {
        proof {
            assert(views(ls@).take(i + 1).drop_last() =~= views(ls@).take(i as int));
            assert(views(ls@)[i as int] == ls@[i as int]@);
        }
        let ghost prev = out@;
        let (name, url) = remote_of_chars(&ls[i]);
        let mut known = false;
        let mut k: usize = 0;
        while k < names.len()
            invariant
                k <= names@.len(),
                names@.len() == out@.len(),
                forall|t: int| 0 <= t < out@.len() ==> #[trigger] names@[t]@ == out@[t].name@,
                known == (exists|j: int| 0 <= j < k && names@[j]@ == name@),
            decreases names@.len() - k,
        {
            if same_chars(&names[k], &name) {
                known = true;
            }
            k = k + 1;
        }
        proof {
            assert(known == has_remote(remote_views(out@), name@)) by {
                if known {
                    let j = choose|j: int| 0 <= j < k && names@[j]@ == name@;
                    assert(remote_views(out@)[j].name == name@);
                }
                if has_remote(remote_views(out@), name@) {
                    let j = choose|j: int|
                        0 <= j < remote_views(out@).len() && remote_views(out@)[j].name == name@;
                    assert(names@[j]@ == name@);
                }
            }
        }
        if !known {
            let r = RemoteInfo { name: string_of(&name), url: string_of(&url) };
            out.push(r);
            names.push(name);
            assert(remote_views(out@) =~= remote_views(prev).push(r@));
        }
        i = i + 1;
    }
    assert(views(ls@).take(i as int) =~= views(ls@));
    out
}

} // verus!
