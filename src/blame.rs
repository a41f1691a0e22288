//! Line attribution in the porcelain format: for each line of the file, a
//! header naming its commit, the commit's metadata the first time that commit
//! appears, and the line itself after a tab.
use vstd::prelude::*;
use crate::calendar::{date_of, epoch_to_date};
use crate::number::{i64_of, parse_i64_chars, parse_u32_chars, u32_of};
use crate::text::{
    chars_of, copy_range, same_chars, lines, split_lines, splitn, splitn_vec, string_of, strip_prefix,
    strip_prefix_vec, trim, trim_vec, views,
};

verus! {

/// Attribution of one line of the file.
#[derive(Debug, Clone)]
pub struct BlameLine {
    /// 1-based line number in the final file.
    pub line_number: u32,
    /// First eight characters of the commit id.
    pub hash: String,
    pub author: String,
    /// `YYYY-MM-DD` of the author time.
    pub date: String,
    pub content: String,
}

pub struct BlameView {
    pub line_number: u32,
    pub hash: Seq<char>,
    pub author: Seq<char>,
    pub date: Seq<char>,
    pub content: Seq<char>,
}

impl View for BlameLine {
    type V = BlameView;

    open spec fn view(&self) -> BlameView {
        BlameView {
            line_number: self.line_number,
            hash: self.hash@,
            author: self.author@,
            date: self.date@,
            content: self.content@,
        }
    }
}

pub open spec fn blame_views(v: Seq<BlameLine>) -> Seq<BlameView> {
    v.map_values(|b: BlameLine| b@)
}

pub open spec fn is_hex(c: char) -> bool {
    ('0' <= c && c <= '9') || ('a' <= c && c <= 'f') || ('A' <= c && c <= 'F')
}

/// A header line: it begins with a full forty-digit commit id.
pub open spec fn is_header(line: Seq<char>) -> bool {
    line.len() >= 40 && forall|i: int| 0 <= i < 40 ==> is_hex(#[trigger] line[i])
}

/// The final line number that a header names: its third field, or 0.
pub open spec fn header_line_number(line: Seq<char>) -> u32 {
    let parts = splitn(line, 4, ' ');
    if parts.len() > 2 && u32_of(parts[2]) is Some {
        u32_of(parts[2])->0
    } else {
        0
    }
}

/// Author and date recorded for commit `h` in `seen[i..]`, first match first.
pub open spec fn recall_from(
    seen: Seq<(Seq<char>, Seq<char>, Seq<char>)>,
    h: Seq<char>,
    i: int,
) -> Option<(Seq<char>, Seq<char>)>
    decreases seen.len() - i,
{
    if i < 0 || i >= seen.len() {
        None
    } else if seen[i].0 == h {
        Some((seen[i].1, seen[i].2))
    } else {
        recall_from(seen, h, i + 1)
    }
}

pub open spec fn recall(seen: Seq<(Seq<char>, Seq<char>, Seq<char>)>, h: Seq<char>) -> Option<
    (Seq<char>, Seq<char>),
> {
    recall_from(seen, h, 0)
}

/// The parse so far: the lines emitted, the metadata recorded per short
/// commit id, and the block being read.
pub struct BlameState {
    pub out: Seq<BlameView>,
    pub seen: Seq<(Seq<char>, Seq<char>, Seq<char>)>,
    pub hash: Seq<char>,
    pub line_number: u32,
    pub author: Seq<char>,
    pub date: Seq<char>,
}

pub open spec fn blame_start() -> BlameState {
    BlameState {
        out: seq![],
        seen: seq![],
        hash: seq![],
        line_number: 0,
        author: seq![],
        date: seq![],
    }
}

/// The effect of one line of porcelain output.
pub open spec fn blame_step(st: BlameState, line: Seq<char>) -> BlameState {
    if is_header(line) {
        let h = line.subrange(0, 8);
        let (a, d) = match recall(st.seen, h) {
            Some(m) => m,
            None => (seq![], seq![]),
        };
        BlameState { hash: h, line_number: header_line_number(line), author: a, date: d, ..st }
    } else if strip_prefix(line, "author "@) is Some {
        BlameState { author: trim(strip_prefix(line, "author "@)->0), ..st }
    } else if strip_prefix(line, "author-time "@) is Some {
        match i64_of(trim(strip_prefix(line, "author-time "@)->0)) {
            Some(e) => BlameState { date: date_of(e as int), ..st },
            None => st,
        }
    } else if strip_prefix(line, "\t"@) is Some {
        BlameState {
            out: st.out.push(
                BlameView {
                    line_number: st.line_number,
                    hash: st.hash,
                    author: st.author,
                    date: st.date,
                    content: strip_prefix(line, "\t"@)->0,
                },
            ),
            seen: if recall(st.seen, st.hash) is None {
                st.seen.push((st.hash, st.author, st.date))
            } else {
                st.seen
            },
            ..st
        }
    } else {
        st
    }
}

pub open spec fn blame_run(ls: Seq<Seq<char>>) -> BlameState
    decreases ls.len(),
{
    if ls.len() == 0 {
        blame_start()
    } else {
        blame_step(blame_run(ls.drop_last()), ls.last())
    }
}

/// The attributed lines of a porcelain blame output.
pub open spec fn blame_of(s: Seq<char>) -> Seq<BlameView> {
    blame_run(lines(s)).out
}


type SeenEntry = (Vec<char>, String, String);

pub open spec fn seen_views(v: Seq<(Vec<char>, String, String)>) -> Seq<
    (Seq<char>, Seq<char>, Seq<char>),
> {
    v.map_values(|e: (Vec<char>, String, String)| (e.0@, e.1@, e.2@))
}

fn recall_exec(seen: &Vec<SeenEntry>, h: &Vec<char>) -> (r: Option<(String, String)>)
    ensures
        match r {
            Some((a, d)) => recall(seen_views(seen@), h@) == Some((a@, d@)),
            None => recall(seen_views(seen@), h@) is None,
        },
{
    let ghost sv = seen_views(seen@);
    let mut i: usize = 0;
    while i < seen.len()
        invariant
            i <= seen@.len(),
            sv == seen_views(seen@),
            recall(sv, h@) == recall_from(sv, h@, i as int),
        decreases seen@.len() - i,
    {
        if same_chars(&seen[i].0, h) {
            return Some((seen[i].1.clone(), seen[i].2.clone()));
        }
        i = i + 1;
    }
    None
}

fn is_header_exec(line: &Vec<char>) -> (r: bool)
    ensures
        r == is_header(line@),
{
    if line.len() < 40 {
        return false;
    }
    let mut i: usize = 0;
    while i < 40
        invariant
            line@.len() >= 40,
            i <= 40,
            forall|k: int| 0 <= k < i ==> is_hex(#[trigger] line@[k]),
        decreases 40 - i,
    {
        let c = line[i];
        if !(('0' <= c && c <= '9') || ('a' <= c && c <= 'f') || ('A' <= c && c <= 'F')) {
            return false;
        }
        i = i + 1;
    }
    true
}

fn header_line_number_exec(line: &Vec<char>) -> (r: u32)
    ensures
        r == header_line_number(line@),
{
    let parts = splitn_vec(line, 4, ' ');
    if parts.len() > 2 {
        assert(views(parts@)[2] == parts@[2]@);
        match parse_u32_chars(&parts[2]) {
            Some(n) => n,
            None => 0,
        }
    } else {
        0
    }
}

/// Parses `blame --porcelain` output into one record per line of the file, in
/// order. A block that names an already seen commit without metadata of its
/// own takes the author and date recorded when that commit was first emitted.
pub fn parse_blame_porcelain(output: &str) -> (r: Vec<BlameLine>)
    ensures
        blame_views(r@) == blame_of(output@),
{
    let ls = split_lines(&chars_of(output));
    let mut out: Vec<BlameLine> = Vec::new();
    let mut seen: Vec<SeenEntry> = Vec::new();
    let mut hash: Vec<char> = Vec::new();
    let mut line_number: u32 = 0;
    let mut author = String::new();
    let mut date = String::new();
    let mut i: usize = 0;
    while i < ls.len()
        invariant
            i <= ls@.len(),
            views(ls@) == lines(output@),
            ({
                let st = blame_run(views(ls@).take(i as int));
                &&& blame_views(out@) == st.out
                &&& seen_views(seen@) == st.seen
                &&& hash@ == st.hash
                &&& line_number == st.line_number
                &&& author@ == st.author
                &&& date@ == st.date
            }),
        decreases ls@.len() - i,
    {
        proof {
            assert(views(ls@).take(i + 1).drop_last() =~= views(ls@).take(i as int));
            assert(views(ls@)[i as int] == ls@[i as int]@);
        }
        let line = &ls[i];
        if is_header_exec(line) {
            hash = copy_range(line, 0, 8);
            line_number = header_line_number_exec(line);
            match recall_exec(&seen, &hash) {
                Some((a, d)) => {
                    author = a;
                    date = d;
                },
                None => {
                    author = String::new();
                    date = String::new();
                },
            }
        } else {
            match strip_prefix_vec(line, "author ") {
                Some(rest) => {
                    author = string_of(&trim_vec(&rest));
                },
                None => match strip_prefix_vec(line, "author-time ") {
                    Some(rest) => {
                        match parse_i64_chars(&trim_vec(&rest)) {
                            Some(e) => {
                                date = epoch_to_date(e);
                            },
                            None => {},
                        }
                    },
                    None => match strip_prefix_vec(line, "\t") {
                        Some(content) => {
                            let ghost prev_seen = seen@;
                            let ghost prev_out = out@;
                            match recall_exec(&seen, &hash) {
                                Some(_) => {},
                                None => {
                                    seen.push((copy_range(&hash, 0, hash.len()), author.clone(), date.clone()));
                                    assert(hash@.subrange(0, hash@.len() as int) =~= hash@);
                                    assert(seen_views(seen@) =~= seen_views(prev_seen).push(
                                        (hash@, author@, date@),
                                    ));
                                },
                            }
                            let b = BlameLine {
                                line_number,
                                hash: string_of(&hash),
                                author: author.clone(),
                                date: date.clone(),
                                content: string_of(&content),
                            };
                            out.push(b);
                            assert(blame_views(out@) =~= blame_views(prev_out).push(b@));
                        },
                        None => {},
                    },
                },
            }
        }
        i = i + 1;
    }
    assert(views(ls@).take(i as int) =~= views(ls@));
    out
}


/// Two blocks of one commit share its metadata: from any point where the
/// commit is not yet recorded, a block with `author` and `author-time` lines
/// and a later block of the same commit without them give two lines with the
/// same commit id, author and date.
pub proof fn blame_shared_commit(
    st: BlameState,
    header1: Seq<char>,
    name: Seq<char>,
    time: Seq<char>,
    content1: Seq<char>,
    header2: Seq<char>,
    content2: Seq<char>,
)
    requires
        is_header(header1),
        is_header(header2),
        header1.subrange(0, 8) == header2.subrange(0, 8),
        recall(st.seen, header1.subrange(0, 8)) is None,
    ensures
        ({
            let s1 = blame_step(st, header1);
            let s2 = blame_step(s1, "author "@ + name);
            let s3 = blame_step(s2, "author-time "@ + time);
            let s4 = blame_step(s3, "\t"@ + content1);
            let s5 = blame_step(s4, header2);
            let s6 = blame_step(s5, "\t"@ + content2);
            let n = st.out.len() as int;
            &&& s6.out.len() == n + 2
            &&& s6.out[n].hash == s6.out[n + 1].hash
            &&& s6.out[n].author == s6.out[n + 1].author
            &&& s6.out[n].date == s6.out[n + 1].date
            &&& s6.out[n].content == content1
            &&& s6.out[n + 1].content == content2
        }),
{
    reveal_strlit("author ");
    reveal_strlit("author-time ");
    reveal_strlit("\t");
    let la = "author "@ + name;
    let lt = "author-time "@ + time;
    let l1 = "\t"@ + content1;
    let l2 = "\t"@ + content2;
    assert(!is_hex(la[1]));
    assert(!is_hex(lt[1]));
    assert(!is_hex(l1[0]));
    assert(!is_hex(l2[0]));
    assert(la.subrange(0, 7) =~= "author "@);
    assert(lt.subrange(0, 12) =~= "author-time "@);
    assert(lt.subrange(0, 7) != "author "@) by {
        assert(lt.subrange(0, 7)[6] != "author "@[6]);
    }
    assert(l1.subrange(0, 1) =~= "\t"@);
    assert(l2.subrange(0, 1) =~= "\t"@);
    assert(l1.subrange(0, 7) != "author "@ || l1.len() < 7) by {
        if l1.len() >= 7 {
            assert(l1.subrange(0, 7)[0] != "author "@[0]);
        }
    }
    assert(l1.subrange(0, 12) != "author-time "@ || l1.len() < 12) by {
        if l1.len() >= 12 {
            assert(l1.subrange(0, 12)[0] != "author-time "@[0]);
        }
    }
    assert(l2.subrange(0, 7) != "author "@ || l2.len() < 7) by {
        if l2.len() >= 7 {
            assert(l2.subrange(0, 7)[0] != "author "@[0]);
        }
    }
    assert(l2.subrange(0, 12) != "author-time "@ || l2.len() < 12) by {
        if l2.len() >= 12 {
            assert(l2.subrange(0, 12)[0] != "author-time "@[0]);
        }
    }
    assert(l1.subrange(1, l1.len() as int) =~= content1);
    assert(l2.subrange(1, l2.len() as int) =~= content2);
    let s1 = blame_step(st, header1);
    let s2 = blame_step(s1, la);
    let s3 = blame_step(s2, lt);
    let s4 = blame_step(s3, l1);
    let h = header1.subrange(0, 8);
    assert(s4.seen == st.seen.push((h, s3.author, s3.date)));
    assert(recall_from(s4.seen, h, st.seen.len() as int) == Some((s3.author, s3.date)));
    lemma_recall_after_push(st.seen, h, s3.author, s3.date);
}

proof fn lemma_recall_after_push(
    seen: Seq<(Seq<char>, Seq<char>, Seq<char>)>,
    h: Seq<char>,
    a: Seq<char>,
    d: Seq<char>,
)
    requires
        recall(seen, h) is None,
    ensures
        recall(seen.push((h, a, d)), h) == Some((a, d)),
{
    lemma_recall_push_from(seen, h, a, d, 0);
}

proof fn lemma_recall_push_from(
    seen: Seq<(Seq<char>, Seq<char>, Seq<char>)>,
    h: Seq<char>,
    a: Seq<char>,
    d: Seq<char>,
    i: int,
)
    requires
        0 <= i <= seen.len(),
        recall_from(seen, h, i) is None,
    ensures
        recall_from(seen.push((h, a, d)), h, i) == Some((a, d)),
    decreases seen.len() - i,
{
    if i < seen.len() {
        lemma_recall_push_from(seen, h, a, d, i + 1);
    }
}


/// What the table of seen commits holds after any run: an entry for each
/// commit that has been emitted, none for any other, and for each commit the
/// author and date of its first emitted line.
pub open spec fn table_records_first(st: BlameState) -> bool {
    &&& forall|k: int| 0 <= k < st.out.len() ==> (#[trigger] recall(st.seen, st.out[k].hash)) is Some
    &&& forall|h: Seq<char>| #[trigger] recall(st.seen, h) is Some ==> exists|k: int|
        0 <= k < st.out.len() && st.out[k].hash == h
    &&& forall|k: int|
        0 <= k < st.out.len() && (forall|j: int| 0 <= j < k ==> st.out[j].hash != st.out[k].hash)
            ==> recall(st.seen, #[trigger] st.out[k].hash) == Some((st.out[k].author, st.out[k].date))
}

proof fn lemma_recall_push_other(
    seen: Seq<(Seq<char>, Seq<char>, Seq<char>)>,
    e: (Seq<char>, Seq<char>, Seq<char>),
    h: Seq<char>,
    i: int,
)
    requires
        0 <= i <= seen.len(),
        recall_from(seen, h, i) is Some || e.0 != h,
    ensures
        recall_from(seen.push(e), h, i) == recall_from(seen, h, i),
    decreases seen.len() - i,
{
    if i < seen.len() && seen[i].0 != h {
        lemma_recall_push_other(seen, e, h, i + 1);
    }
}

proof fn lemma_table_step(st: BlameState, line: Seq<char>)
    requires
        table_records_first(st),
    ensures
        table_records_first(blame_step(st, line)),
{
    let st2 = blame_step(st, line);
    if !is_header(line) && strip_prefix(line, "author "@) is None && strip_prefix(
        line,
        "author-time "@,
    ) is None && strip_prefix(line, "\t"@) is Some {
        let n = st.out.len() as int;
        let fresh = recall(st.seen, st.hash) is None;
        assert(st2.out.len() == n + 1);
        assert forall|k: int| 0 <= k < n implies st2.out[k] == st.out[k] by {}
        assert forall|h: Seq<char>| recall(st.seen, h) is Some implies recall(st2.seen, h) == recall(
            st.seen,
            h,
        ) by {
            if fresh {
                lemma_recall_push_other(st.seen, (st.hash, st.author, st.date), h, 0);
            }
        }
        if fresh {
            lemma_recall_after_push(st.seen, st.hash, st.author, st.date);
            assert forall|h: Seq<char>| recall(st2.seen, h) is Some implies exists|k: int|
                0 <= k < st2.out.len() && st2.out[k].hash == h by {
                if h == st.hash {
                    assert(st2.out[n].hash == h);
                } else {
                    lemma_recall_push_other(st.seen, (st.hash, st.author, st.date), h, 0);
                    let k = choose|k: int| 0 <= k < st.out.len() && st.out[k].hash == h;
                    assert(st2.out[k].hash == h);
                }
            }
        } else {
            assert forall|h: Seq<char>| recall(st2.seen, h) is Some implies exists|k: int|
                0 <= k < st2.out.len() && st2.out[k].hash == h by {
                let k = choose|k: int| 0 <= k < st.out.len() && st.out[k].hash == h;
                assert(st2.out[k].hash == h);
            }
            let k = choose|k: int| 0 <= k < st.out.len() && st.out[k].hash == st.hash;
            assert(st2.out[k].hash == st2.out[n].hash);
        }
        assert forall|k: int| 0 <= k < st2.out.len() implies (#[trigger] recall(
            st2.seen,
            st2.out[k].hash,
        )) is Some by {
            if k < n {
                assert(recall(st.seen, st.out[k].hash) is Some);
            }
        }
        assert forall|k: int|
            0 <= k < st2.out.len() && (forall|j: int|
                0 <= j < k ==> st2.out[j].hash != st2.out[k].hash) implies recall(
            st2.seen,
            #[trigger] st2.out[k].hash,
        ) == Some((st2.out[k].author, st2.out[k].date)) by {
            if k < n {
                assert(recall(st.seen, st.out[k].hash) is Some);
                assert(forall|j: int| 0 <= j < k ==> st.out[j].hash != st.out[k].hash);
            } else if !fresh {
                let j = choose|j: int| 0 <= j < st.out.len() && st.out[j].hash == st.hash;
                assert(st2.out[j].hash == st2.out[k].hash);
            }
        }
    }
}

proof fn lemma_table_run(ls: Seq<Seq<char>>)
    ensures
        table_records_first(blame_run(ls)),
    decreases ls.len(),
{
    if ls.len() > 0 {
        lemma_table_run(ls.drop_last());
        lemma_table_step(blame_run(ls.drop_last()), ls.last());
    }
}

/// Over a whole stream: after any lines `ls`, a block of a commit that was
/// already emitted, a header and then the line itself with no metadata in
/// between, carries the author and date of that commit's first line.
pub proof fn blame_block_reuses_first(ls: Seq<Seq<char>>, header: Seq<char>, content: Seq<char>, first: int)
    requires
        is_header(header),
        0 <= first < blame_run(ls).out.len(),
        blame_run(ls).out[first].hash == header.subrange(0, 8),
        forall|j: int| 0 <= j < first ==> blame_run(ls).out[j].hash != header.subrange(0, 8),
    ensures
        ({
            let out = blame_run(ls + seq![header, "\t"@ + content]).out;
            let f = blame_run(ls).out[first];
            &&& out.len() == blame_run(ls).out.len() + 1
            &&& out.last().hash == f.hash
            &&& out.last().author == f.author
            &&& out.last().date == f.date
            &&& out.last().content == content
        }),
{
    reveal_strlit("author ");
    reveal_strlit("author-time ");
    reveal_strlit("\t");
    lemma_table_run(ls);
    let st = blame_run(ls);
    let l1 = "\t"@ + content;
    let all = ls + seq![header, l1];
    assert(all.drop_last() =~= ls.push(header));
    assert(all.drop_last().drop_last() =~= ls);
    assert(all.last() == l1);
    assert(ls.push(header).last() == header);
    assert(!is_hex(l1[0]));
    assert(l1.subrange(0, 1) =~= "\t"@);
    assert(l1.subrange(1, l1.len() as int) =~= content);
    assert(l1.len() < 7 || l1.subrange(0, 7) != "author "@) by {
        if l1.len() >= 7 {
            assert(l1.subrange(0, 7)[0] != "author "@[0]);
        }
    }
    assert(l1.len() < 12 || l1.subrange(0, 12) != "author-time "@) by {
        if l1.len() >= 12 {
            assert(l1.subrange(0, 12)[0] != "author-time "@[0]);
        }
    }
    assert(recall(st.seen, st.out[first].hash) == Some((st.out[first].author, st.out[first].date)));
    let s1 = blame_step(st, header);
    assert(blame_run(ls.push(header)) == s1);
    assert(s1.hash == header.subrange(0, 8));
    assert(s1.author == st.out[first].author && s1.date == st.out[first].date);
    assert(s1.out == st.out);
    let s2 = blame_step(s1, l1);
    assert(blame_run(all) == s2);
    assert(s2.out == s1.out.push(
        BlameView {
            line_number: s1.line_number,
            hash: s1.hash,
            author: s1.author,
            date: s1.date,
            content,
        },
    ));
}

} // verus!
