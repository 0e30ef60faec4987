//! Splitting a colon-delimited search path into its non-empty segments,
//! without allocating.

use vstd::prelude::*;
use vstd::slice::slice_subrange;

verus! {

/// The byte that separates the segments of a search path.
pub const COLON: u8 = 58;

/// Length of the longest prefix of `s` that holds no colon.
pub open spec fn run_len(s: Seq<u8>) -> nat
    decreases s.len(),
{
    if s.len() == 0 || s[0] == COLON {
        0
    } else {
        1 + run_len(s.skip(1))
    }
}

/// The non-empty maximal colon-free runs of `s`, in order.
pub open spec fn segments(s: Seq<u8>) -> Seq<Seq<u8>>
    decreases s.len(),
    via segments_decreases
{
    if s.len() == 0 {
        Seq::empty()
    } else if s[0] == COLON {
        segments(s.skip(1))
    } else {
        seq![s.take(run_len(s) as int)] + segments(s.skip(run_len(s) as int))
    }
}

#[via_fn]
proof fn segments_decreases(s: Seq<u8>) {
    lemma_run_len(s);
}

/// `t` can be a segment: it is non-empty and holds no colon.
pub open spec fn is_segment(t: Seq<u8>) -> bool {
    t.len() > 0 && forall|i: int| 0 <= i < t.len() ==> t[i] != COLON
}

/// `n` colons in a row.
pub open spec fn colons(n: nat) -> Seq<u8> {
    Seq::new(n, |i: int| COLON)
}

/// The segments `segs` written one after another, `gaps[i]` colons after the
/// `i`-th of them.
pub open spec fn joined(segs: Seq<Seq<u8>>, gaps: Seq<nat>) -> Seq<u8>
    decreases segs.len(),
{
    if segs.len() == 0 {
        Seq::empty()
    } else {
        segs[0] + colons(gaps[0]) + joined(segs.skip(1), gaps.skip(1))
    }
}

/// Length of the longest sequence in `segs`, 0 where there is none.
pub open spec fn longest(segs: Seq<Seq<u8>>) -> nat
    decreases segs.len(),
{
    if segs.len() == 0 {
        0
    } else {
        let rest = longest(segs.drop_last());
        if segs.last().len() > rest {
            segs.last().len()
        } else {
            rest
        }
    }
}

/// The leading run ends inside `s`, holds no colon, and is followed by a colon
/// or by the end of `s`.
pub proof fn lemma_run_len(s: Seq<u8>)
    ensures
        run_len(s) <= s.len(),
        forall|i: int| 0 <= i < run_len(s) ==> s[i] != COLON,
        run_len(s) < s.len() ==> s[run_len(s) as int] == COLON,
    decreases s.len(),
{
    if s.len() == 0 || s[0] == COLON {
    } else {
        let t = s.skip(1);
        lemma_run_len(t);
        assert forall|i: int| 0 <= i < run_len(s) implies s[i] != COLON by {
            if i > 0 {
                assert(s[i] == t[i - 1]);
            }
        }
        if run_len(s) < s.len() {
            assert(s[run_len(s) as int] == t[run_len(t) as int]);
        }
    }
}

/// A colon-free `seg` in front of something that does not continue it is the
/// whole leading run.
pub proof fn lemma_run_len_prefix(seg: Seq<u8>, t: Seq<u8>)
    requires
        forall|i: int| 0 <= i < seg.len() ==> seg[i] != COLON,
        t.len() == 0 || t[0] == COLON,
    ensures
        run_len(seg + t) == seg.len(),
    decreases seg.len(),
{
    if seg.len() == 0 {
        assert(seg + t =~= t);
    } else {
        assert((seg + t)[0] == seg[0]);
        assert((seg + t).skip(1) =~= seg.skip(1) + t);
        lemma_run_len_prefix(seg.skip(1), t);
    }
}

/// Colons in front change nothing.
pub proof fn lemma_leading_colons(n: nat, t: Seq<u8>)
    ensures
        segments(colons(n) + t) == segments(t),
    decreases n,
{
    if n == 0 {
        assert(colons(n) + t =~= t);
    } else {
        let s = colons(n) + t;
        assert(s[0] == COLON);
        assert(s.skip(1) =~= colons((n - 1) as nat) + t);
        lemma_leading_colons((n - 1) as nat, t);
    }
}

/// A segment in front of a colon, or of the end, comes out first and whole.
pub proof fn lemma_leading_segment(seg: Seq<u8>, t: Seq<u8>)
    requires
        is_segment(seg),
        t.len() == 0 || t[0] == COLON,
    ensures
        segments(seg + t) == seq![seg] + segments(t),
{
    let s = seg + t;
    lemma_run_len_prefix(seg, t);
    assert(s[0] == seg[0]);
    assert(s.take(seg.len() as int) =~= seg);
    assert(s.skip(seg.len() as int) =~= t);
}

/// Writing segments down with a colon between neighbours, and then adding
/// colons in front, at the end or beside the ones between neighbours, gives
/// a path that splits into exactly those segments again.
pub proof fn lemma_segments_of_joined(lead: nat, segs: Seq<Seq<u8>>, gaps: Seq<nat>)
    requires
        forall|i: int| 0 <= i < segs.len() ==> is_segment(#[trigger] segs[i]),
        is_gaps(gaps, segs.len()),
    ensures
        segments(colons(lead) + joined(segs, gaps)) == segs,
    decreases segs.len(),
{
    lemma_leading_colons(lead, joined(segs, gaps));
    if segs.len() == 0 {
        assert(segments(joined(segs, gaps)) =~= segs);
    } else {
        let rest = segs.skip(1);
        let rest_gaps = gaps.skip(1);
        let tail = joined(rest, rest_gaps);
        let t = colons(gaps[0]) + tail;
        assert forall|i: int| 0 <= i < rest.len() implies is_segment(#[trigger] rest[i]) by {
            assert(rest[i] == segs[i + 1]);
        }
        assert forall|i: int| 0 <= i < rest.len() - 1 implies #[trigger] rest_gaps[i] >= 1 by {
            assert(rest_gaps[i] == gaps[i + 1]);
        }
        lemma_segments_of_joined(0, rest, rest_gaps);
        assert(colons(0) + tail =~= tail);
        lemma_leading_colons(gaps[0], tail);
        if rest.len() == 0 {
            assert(tail.len() == 0);
        } else {
            assert(gaps[0] >= 1);
        }
        assert(t.len() == 0 || t[0] == COLON);
        assert(segs[0] + colons(gaps[0]) + tail =~= segs[0] + t);
        lemma_leading_segment(segs[0], t);
        assert(seq![segs[0]] + rest =~= segs);
    }
}

/// `gaps` can stand between and after `n` segments: one count for each
/// segment, and at least one colon between neighbours.
pub open spec fn is_gaps(gaps: Seq<nat>, n: nat) -> bool {
    gaps.len() == n && forall|i: int| 0 <= i < n - 1 ==> #[trigger] gaps[i] >= 1
}

/// Every path is its own segments, written down with colons in front and
/// after each of them: nothing but colons is left out by splitting.
pub proof fn lemma_joined_of_segments(s: Seq<u8>) -> (r: (nat, Seq<nat>))
    ensures
        is_gaps(r.1, segments(s).len()),
        s == colons(r.0) + joined(segments(s), r.1),
    decreases s.len(),
{
    if s.len() == 0 {
        let gaps = Seq::<nat>::empty();
        assert(s =~= colons(0) + joined(segments(s), gaps));
        (0, gaps)
    } else if s[0] == COLON {
        let (lead, gaps) = lemma_joined_of_segments(s.skip(1));
        let body = joined(segments(s), gaps);
        assert(s =~= seq![COLON] + s.skip(1));
        assert(colons(lead + 1) + body =~= seq![COLON] + (colons(lead) + body));
        (lead + 1, gaps)
    } else {
        let k = run_len(s) as int;
        lemma_run_len(s);
        let seg = s.take(k);
        let rest = s.skip(k);
        let (lead, rest_gaps) = lemma_joined_of_segments(rest);
        let segs = segments(s);
        let gaps = seq![lead] + rest_gaps;
        lemma_segments_are_segments(rest);
        assert(segs.skip(1) =~= segments(rest));
        assert(gaps.skip(1) =~= rest_gaps);
        assert(s =~= seg + rest);
        if segments(rest).len() > 0 && lead == 0 {
            assert(colons(0) + joined(segments(rest), rest_gaps) =~= joined(
                segments(rest),
                rest_gaps,
            ));
            assert(is_segment(segments(rest)[0]));
            assert(rest[0] == segments(rest)[0][0]);
        }
        assert forall|i: int| 0 <= i < segs.len() - 1 implies #[trigger] gaps[i] >= 1 by {
            if i > 0 {
                assert(gaps[i] == rest_gaps[i - 1]);
            }
        }
        assert(joined(segs, gaps) =~= seg + (colons(lead) + joined(segments(rest), rest_gaps)));
        assert(s =~= colons(0) + joined(segs, gaps));
        (0, gaps)
    }
}

/// Every segment of a path is non-empty, holds no colon, and is no longer
/// than the path.
pub proof fn lemma_segments_are_segments(s: Seq<u8>)
    ensures
        forall|i: int| 0 <= i < segments(s).len() ==> is_segment(#[trigger] segments(s)[i]),
        longest(segments(s)) <= s.len(),
    decreases s.len(),
{
    if s.len() == 0 {
    } else if s[0] == COLON {
        lemma_segments_are_segments(s.skip(1));
    } else {
        let k = run_len(s) as int;
        lemma_run_len(s);
        lemma_segments_are_segments(s.skip(k));
        let rest = segments(s.skip(k));
        lemma_longest_push_front(s.take(k), rest);
    }
}

/// The byte `b` does not occur in `t`.
pub open spec fn lacks(t: Seq<u8>, b: u8) -> bool {
    forall|i: int| 0 <= i < t.len() ==> t[i] != b
}

/// A segment holds no byte that its path does not hold.
pub proof fn lemma_segments_hold_path_bytes(s: Seq<u8>, b: u8)
    requires
        lacks(s, b),
    ensures
        forall|k: int| 0 <= k < segments(s).len() ==> lacks(#[trigger] segments(s)[k], b),
    decreases s.len(),
{
    if s.len() == 0 {
        assert(segments(s).len() == 0);
    } else if s[0] == COLON {
        assert(lacks(s.skip(1), b));
        lemma_segments_hold_path_bytes(s.skip(1), b);
        assert(segments(s) == segments(s.skip(1)));
    } else {
        let n = run_len(s) as int;
        lemma_run_len(s);
        assert(lacks(s.skip(n), b));
        assert(lacks(s.take(n), b));
        lemma_segments_hold_path_bytes(s.skip(n), b);
        let rest = segments(s.skip(n));
        assert forall|k: int| 0 <= k < segments(s).len() implies lacks(
            #[trigger] segments(s)[k],
            b,
        ) by {
            if k == 0 {
                assert(segments(s)[0] == s.take(n));
            } else {
                assert(segments(s)[k] == rest[k - 1]);
            }
        }
    }
}

/// The longest of a sequence with one more in front.
pub proof fn lemma_longest_push_front(first: Seq<u8>, rest: Seq<Seq<u8>>)
    ensures
        longest(seq![first] + rest) == if first.len() > longest(rest) {
            first.len()
        } else {
            longest(rest)
        },
    decreases rest.len(),
{
    let all = seq![first] + rest;
    if rest.len() == 0 {
        assert(all.drop_last() =~= Seq::<Seq<u8>>::empty());
        assert(all.last() == first);
        assert(longest(all.drop_last()) == 0);
        assert(longest(rest) == 0);
    } else {
        assert(all.drop_last() =~= seq![first] + rest.drop_last());
        assert(all.last() == rest.last());
        lemma_longest_push_front(first, rest.drop_last());
    }
}

/// A cursor over a borrowed search path that hands out its segments one by
/// one. Its view is the sequence of segments still to come.
pub struct SplitPath<'a> {
    path: &'a [u8],
    last: usize,
    current: usize,
}

impl<'a> SplitPath<'a> {
    /// The cursor stands inside the path, at the start of a segment or of the
    /// colons before it.
    pub closed spec fn wf(&self) -> bool {
        self.last == self.current && self.current <= self.path@.len()
    }

    /// The segments still to come.
    pub closed spec fn view(&self) -> Seq<Seq<u8>> {
        segments(self.path@.skip(self.current as int))
    }

    /// The path that the cursor runs over.
    pub closed spec fn path(&self) -> Seq<u8> {
        self.path@
    }

    /// Where the cursor stands in the path.
    pub closed spec fn offset(&self) -> int {
        self.current as int
    }

    /// Where the cursor stands: a place from which `split_path_from` goes on.
    pub fn position(&self) -> (pos: usize)
        requires
            self.wf(),
        ensures
            pos == self.offset(),
            pos <= self.path().len(),
            self@ == segments(self.path().skip(pos as int)),
    {
        self.current
    }

    /// Hands out the next segment, if there is one.
    pub fn next(&mut self) -> (piece: Option<&'a [u8]>)
        requires
            old(self).wf(),
        ensures
            final(self).wf(),
            final(self).path() == old(self).path(),
            old(self)@.len() == 0 ==> piece is None && final(self)@.len() == 0,
            old(self)@.len() > 0 ==> piece is Some && piece.unwrap()@ == old(self)@[0]
                && final(self)@ == old(self)@.skip(1),
    {
        let path: &'a [u8] = self.path;
        let n: usize = path.len();
        let mut i: usize = self.current;
        while i < n
            invariant
                n == path@.len(),
                self.path == path,
                path == old(self).path,
                self.last <= i <= n,
                forall|j: int| self.last <= j < i ==> path@[j] != COLON,
                segments(path@.skip(self.last as int)) == old(self)@,
            decreases n - i,
        {
            if path[i] == COLON {
                let start: usize = self.last;
                proof {
                    let s = path@.skip(start as int);
                    if start < i {
                        let seg = path@.subrange(start as int, i as int);
                        let t = path@.skip(i as int);
                        assert(s =~= seg + t);
                        lemma_leading_segment(seg, t);
                        assert(t.skip(1) =~= path@.skip(i + 1));
                    } else {
                        assert(s.skip(1) =~= path@.skip(i + 1));
                    }
                }
                self.last = i + 1;
                if start < i {
                    self.current = i + 1;
                    let piece = slice_subrange(path, start, i);
                    proof {
                        let seg = piece@;
                        let rest = segments(path@.skip(i + 1));
                        assert((seq![seg] + rest).skip(1) =~= rest);
                    }
                    return Some(piece);
                }
            }
            i += 1;
        }
        let start: usize = self.last;
        self.current = n;
        proof {
            let s = path@.skip(start as int);
            assert(path@.skip(n as int).len() == 0);
            if start != n {
                lemma_leading_segment(s, Seq::empty());
                assert(s + Seq::<u8>::empty() =~= s);
                assert((seq![s] + Seq::<Seq<u8>>::empty()).skip(1) =~= Seq::<Seq<u8>>::empty());
            }
        }
        if start != n {
            let piece = slice_subrange(path, start, n);
            self.last = n;
            return Some(piece);
        }
        None
    }
}

/// A cursor at the start of `path`.
pub fn split_path<'a>(path: &'a [u8]) -> (sp: SplitPath<'a>)
    ensures
        sp.wf(),
        sp.path() == path@,
        sp.offset() == 0,
        sp@ == segments(path@),
{
    proof {
        assert(path@.skip(0) =~= path@);
    }
    SplitPath { path, last: 0, current: 0 }
}

/// A cursor that stands at `pos` in `path`.
pub fn split_path_from<'a>(path: &'a [u8], pos: usize) -> (sp: SplitPath<'a>)
    requires
        pos <= path@.len(),
    ensures
        sp.wf(),
        sp.path() == path@,
        sp.offset() == pos,
        sp@ == segments(path@.skip(pos as int)),
{
    SplitPath { path, last: pos, current: pos }
}

/// No sequence of `segs` is longer than the longest.
pub proof fn lemma_longest_bounds(segs: Seq<Seq<u8>>, k: int)
    requires
        0 <= k < segs.len(),
    ensures
        segs[k].len() <= longest(segs),
    decreases segs.len(),
{
    if k < segs.len() - 1 {
        lemma_longest_bounds(segs.drop_last(), k);
    }
}

} // verus!
