//! Progress of a long-running command read from its error stream. The tool
//! rewrites a status line in place with carriage returns and ends it with a
//! line feed; the reader hands each line-feed-delimited segment to
//! `CloneProgress::feed`, which yields the updates to show.
use vstd::prelude::*;
use crate::invocation::string_views;
use crate::text::{chars_of, push_str, string_of, trim, trim_vec};

verus! {

/// Whether `c` separates pieces: carriage returns for `kind` 0, line feeds
/// for `kind` 1, either for `kind` 2.
pub open spec fn is_sep(c: char, kind: int) -> bool {
    (c == '\r' && kind != 1) || (c == '\n' && kind != 0)
}

/// The pieces of `s` between separators of `kind`, empty ones included; there
/// is always at least one.
pub open spec fn pieces(s: Seq<char>, kind: int) -> Seq<Seq<char>>
    decreases s.len(),
{
    if s.len() == 0 {
        seq![seq![]]
    } else {
        let p = pieces(s.drop_last(), kind);
        if is_sep(s.last(), kind) {
            p.push(seq![])
        } else {
            p.drop_last().push(p.last().push(s.last()))
        }
    }
}

/// The pieces that show: each trimmed, the empty ones left out.
pub open spec fn shown(ps: Seq<Seq<char>>) -> Seq<Seq<char>>
    decreases ps.len(),
{
    if ps.len() == 0 {
        seq![]
    } else if trim(ps.last()).len() > 0 {
        shown(ps.drop_last()).push(trim(ps.last()))
    } else {
        shown(ps.drop_last())
    }
}

/// The progress updates in one segment of the error stream: its pieces
/// between carriage returns, trimmed, the empty ones left out.
pub open spec fn fragments(s: Seq<char>) -> Seq<Seq<char>> {
    shown(pieces(s, 0))
}

proof fn lemma_pieces_nonempty(s: Seq<char>, kind: int)
    ensures
        pieces(s, kind).len() >= 1,
    decreases s.len(),
{
    if s.len() > 0 {
        lemma_pieces_nonempty(s.drop_last(), kind);
    }
}

/// The progress updates in one segment of the error stream, in order.
pub fn segment_fragments(segment: &str) -> (r: Vec<String>)
    ensures
        string_views(r@) == fragments(segment@),
{
    let v = chars_of(segment);
    let mut out: Vec<String> = Vec::new();
    let mut piece: Vec<char> = Vec::new();
    let mut i: usize = 0;
    while i < v.len()
        invariant
            i <= v@.len(),
            string_views(out@) == shown(pieces(v@.take(i as int), 0).drop_last()),
            piece@ == pieces(v@.take(i as int), 0).last(),
        decreases v@.len() - i,
    {
        proof {
            assert(v@.take(i + 1).drop_last() =~= v@.take(i as int));
            lemma_pieces_nonempty(v@.take(i as int), 0);
        }
        let ghost p = pieces(v@.take(i as int), 0);
        if v[i] == '\r' {
            let t = trim_vec(&piece);
            let ghost prev = out@;
            if t.len() > 0 {
                let s = string_of(&t);
                out.push(s);
                assert(string_views(out@) =~= string_views(prev).push(s@));
            }
            assert(p.push(seq![]).drop_last() =~= p);
            piece = Vec::new();
        } else {
            piece.push(v[i]);
            assert(p.drop_last().push(p.last().push(v@[i as int])).drop_last() =~= p.drop_last());
        }
        i = i + 1;
    }
    proof {
        assert(v@.take(i as int) =~= v@);
        lemma_pieces_nonempty(v@, 0);
        assert(pieces(v@, 0).drop_last().push(pieces(v@, 0).last()) =~= pieces(v@, 0));
    }
    let t = trim_vec(&piece);
    if t.len() > 0 {
        let ghost prev = out@;
        let s = string_of(&t);
        out.push(s);
        assert(string_views(out@) =~= string_views(prev).push(s@));
    }
    out
}

/// The updates of a sequence of segments, fed in order.
pub open spec fn fed(segments: Seq<Seq<char>>) -> Seq<Seq<char>>
    decreases segments.len(),
{
    if segments.len() == 0 {
        seq![]
    } else {
        fed(segments.drop_last()) + fragments(segments.last())
    }
}

proof fn lemma_fed_step(s: Seq<char>)
    ensures
        pieces(s, 2).last() == pieces(pieces(s, 1).last(), 0).last(),
        fed(pieces(s, 1).drop_last()) + shown(pieces(pieces(s, 1).last(), 0).drop_last())
            == shown(pieces(s, 2).drop_last()),
    decreases s.len(),
{
    lemma_pieces_nonempty(s, 1);
    lemma_pieces_nonempty(s, 2);
    if s.len() > 0 {
        let t = s.drop_last();
        let c = s.last();
        lemma_fed_step(t);
        lemma_pieces_nonempty(t, 1);
        lemma_pieces_nonempty(t, 2);
        let segs = pieces(t, 1);
        let seg = segs.last();
        lemma_pieces_nonempty(seg, 0);
        let p = pieces(seg, 0);
        let q = pieces(t, 2);
        let a = fed(segs.drop_last()) + shown(p.drop_last());
        assert(a == shown(q.drop_last()));
        assert(p.drop_last().push(p.last()) =~= p);
        assert(q.drop_last().push(q.last()) =~= q);
        assert(fed(segs) == fed(segs.drop_last()) + shown(p));
        if c == '\n' {
            assert(pieces(s, 1) == segs.push(seq![]));
            assert(pieces(s, 1).drop_last() =~= segs);
            let e = Seq::<char>::empty();
            assert(pieces(e, 0) == seq![e]);
            assert(pieces(e, 0).drop_last() =~= Seq::<Seq<char>>::empty());
            assert(pieces(s, 2) == q.push(seq![]));
            assert(pieces(s, 2).drop_last() =~= q);
            if trim(p.last()).len() > 0 {
                assert(fed(segs) =~= a.push(trim(p.last())));
                assert(shown(q) =~= shown(q.drop_last()).push(trim(q.last())));
            } else {
                assert(fed(segs) =~= a);
            }
        } else if c == '\r' {
            let seg2 = seg.push('\r');
            assert(seg2.drop_last() =~= seg);
            assert(pieces(s, 1) == segs.drop_last().push(seg2));
            assert(pieces(s, 1).drop_last() =~= segs.drop_last());
            assert(pieces(s, 1).last() == seg2);
            assert(pieces(seg2, 0) == p.push(seq![]));
            assert(pieces(seg2, 0).drop_last() =~= p);
            assert(pieces(s, 2) == q.push(seq![]));
            assert(pieces(s, 2).drop_last() =~= q);
            if trim(p.last()).len() > 0 {
                assert(fed(segs.drop_last()) + shown(p) =~= a.push(trim(p.last())));
            } else {
                assert(fed(segs.drop_last()) + shown(p) =~= a);
            }
        } else {
            let seg2 = seg.push(c);
            assert(seg2.drop_last() =~= seg);
            assert(pieces(s, 1) == segs.drop_last().push(seg2));
            assert(pieces(s, 1).drop_last() =~= segs.drop_last());
            assert(pieces(s, 1).last() == seg2);
            assert(pieces(seg2, 0) == p.drop_last().push(p.last().push(c)));
            assert(pieces(seg2, 0).drop_last() =~= p.drop_last());
            assert(pieces(s, 2) == q.drop_last().push(q.last().push(c)));
            assert(pieces(s, 2).drop_last() =~= q.drop_last());
        }
    }
}

/// Feeding the error stream segment by segment, split at line feeds, yields
/// its normalized form: the trimmed, non-empty pieces of the whole stream
/// between line breaks of either kind, in order. Each carriage return ends a
/// piece, so every state of an overwritten status line shows in turn.
pub proof fn fed_segments_normalize(s: Seq<char>)
    ensures
        fed(pieces(s, 1)) == shown(pieces(s, 2)),
{
    lemma_fed_step(s);
    lemma_pieces_nonempty(s, 1);
    lemma_pieces_nonempty(s, 2);
    let segs = pieces(s, 1);
    let p = pieces(segs.last(), 0);
    let q = pieces(s, 2);
    lemma_pieces_nonempty(segs.last(), 0);
    assert(p.drop_last().push(p.last()) =~= p);
    assert(q.drop_last().push(q.last()) =~= q);
    let a = fed(segs.drop_last()) + shown(p.drop_last());
    if trim(p.last()).len() > 0 {
        assert(fed(segs) =~= a.push(trim(p.last())));
    } else {
        assert(fed(segs) =~= a);
    }
}

/// What a clone has reported so far: the last update seen.
pub struct CloneProgress {
    last: String,
}

impl View for CloneProgress {
    type V = Seq<char>;

    closed spec fn view(&self) -> Seq<char> {
        self.last@
    }
}

impl CloneProgress {
    /// Nothing reported yet.
    pub fn new() -> (r: CloneProgress)
        ensures
            r@.len() == 0,
    {
        CloneProgress { last: String::new() }
    }

    /// Takes one line-feed-delimited segment of the error stream and returns
    /// the updates to show, in order; the last of them becomes the last
    /// update seen.
    pub fn feed(&mut self, segment: &str) -> (r: Vec<String>)
        ensures
            string_views(r@) == fragments(segment@),
            final(self)@ == if r@.len() > 0 {
                r@.last()@
            } else {
                old(self)@
            },
    {
        let r = segment_fragments(segment);
        if r.len() > 0 {
            self.last = r[r.len() - 1].clone();
        }
        r
    }

    /// The last update seen.
    pub fn last_line(&self) -> (r: String)
        ensures
            r@ == self@,
    {
        self.last.clone()
    }

    /// The outcome once the process has ended: the destination when it
    /// succeeded, else the last update seen, or a generic message when there
    /// was none.
    pub fn finish(self, success: bool, dest: String) -> (r: Result<String, String>)
        ensures
            success ==> r == Ok::<String, String>(dest),
            !success ==> (r matches Err(e) && e@ == if self@.len() == 0 {
                "git clone failed"@
            } else {
                self@
            }),
    {
        if success {
            Ok(dest)
        } else if self.last.as_str().unicode_len() == 0 {
            let mut v: Vec<char> = Vec::new();
            push_str(&mut v, "git clone failed");
            Err(string_of(&v))
        } else {
            Err(self.last)
        }
    }
}

} // verus!
