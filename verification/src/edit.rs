//! Grapheme-precise editing of words: insertion, removal, splitting and
//! merging, keeping the style segments consistent with the text.

use vstd::prelude::*;

use crate::props::props_eq_spec;
use crate::word::{
    is_chain, lemma_adj_distinct_push, lemma_chain_push, merge_segs, segs_of, GlyphsView, SegV,
    Word,
};

verus! {

/// Text after inserting `data` at grapheme position `p`.
pub open spec fn spec_insert_text(
    text: Seq<Seq<char>>,
    p: int,
    data: Seq<Seq<char>>,
) -> Seq<Seq<char>> {
    text.take(p) + data + text.skip(p)
}

/// Segments after inserting `k` graphemes at position `p`: every boundary
/// at or after `p` shifts right by `k`, except that a segment's start of
/// zero never moves, so the insertion lands inside the covering segment.
pub open spec fn spec_insert_segs(segs: Seq<SegV>, p: int, k: int) -> Seq<SegV> {
    segs.map_values(
        |s: SegV| SegV {
            start: if s.start >= p && s.start != 0 {
                s.start + k
            } else {
                s.start
            },
            end: if s.end >= p {
                s.end + k
            } else {
                s.end
            },
            props: s.props,
        },
    )
}

/// Text after removing the grapheme at `idx`.
pub open spec fn spec_remove_text(text: Seq<Seq<char>>, idx: int) -> Seq<Seq<char>> {
    text.take(idx) + text.skip(idx + 1)
}

/// Segments after removing the grapheme at `idx`: boundaries beyond `idx`
/// shift left by one, and a segment emptied by the removal disappears.
#[verifier::opaque]
pub open spec fn shrink_segs(s: Seq<SegV>, idx: int) -> Seq<SegV>
    decreases s.len(),
{
    if s.len() == 0 {
        s
    } else {
        let m = shrink_segs(s.drop_last(), idx);
        let x = s.last();
        let ns = if x.start > idx {
            x.start - 1
        } else {
            x.start
        };
        let ne = if x.end > idx {
            x.end - 1
        } else {
            x.end
        };
        if ns == ne {
            m
        } else {
            m.push(SegV { start: ns, end: ne, props: x.props })
        }
    }
}

/// One unfolding step of `shrink_segs`.
proof fn lemma_shrink_snoc(s: Seq<SegV>, k: int, idx: int)
    requires
        0 <= k < s.len(),
    ensures
        shrink_segs(s.take(k + 1), idx) == ({
            let m = shrink_segs(s.take(k), idx);
            let x = s[k];
            let ns = if x.start > idx {
                x.start - 1
            } else {
                x.start
            };
            let ne = if x.end > idx {
                x.end - 1
            } else {
                x.end
            };
            if ns == ne {
                m
            } else {
                m.push(SegV { start: ns, end: ne, props: x.props })
            }
        }),
{
    reveal_with_fuel(shrink_segs, 2);
    assert(s.take(k + 1).drop_last() =~= s.take(k));
    assert(s.take(k + 1).last() == s[k]);
}

/// Inserting preserves the partition shape: the shifted segments are
/// still a chain from `0` to `n + k`, with unchanged properties.
proof fn lemma_insert_segs_wf(olds: Seq<SegV>, p: int, k: int, n: int)
    requires
        olds.len() >= 1,
        olds[0].start == 0,
        olds.last().end == n,
        is_chain(olds),
        forall|i: int| 0 <= i < olds.len() ==> (#[trigger] olds[i]).start >= 0,
        0 <= p <= n,
        0 <= k,
    ensures
        ({
            let news = spec_insert_segs(olds, p, k);
            &&& news.len() == olds.len()
            &&& news[0].start == 0
            &&& news.last().end == n + k
            &&& is_chain(news)
            &&& forall|i: int| 0 <= i < news.len() ==> (#[trigger] news[i]).props == olds[i].props
        }),
{
    let news = spec_insert_segs(olds, p, k);
    assert forall|i: int| 0 <= i < news.len() implies (#[trigger] news[i]).start < news[i].end by {
        assert(olds[i].start < olds[i].end);
    };
    assert forall|i: int|
        #![trigger news[i], news[i + 1]]
        0 <= i < news.len() - 1 implies news[i + 1].start == news[i].end by {
        assert(olds[i + 1].start == olds[i].end);
        assert(olds[i].start < olds[i].end);
        assert(olds[i].start >= 0);
        assert(olds[i].end >= 1);
    };
    assert(news.last().end == n + k);
}

impl Word {
    /// Splice `data` into the word at grapheme position `p` (`0` prepends,
    /// the text length appends).  The covering segment widens to absorb
    /// the new graphemes; all later boundaries shift right.
    #[verifier::rlimit(100)]
    pub fn insert_graphemes(&mut self, p: usize, data: Vec<String>)
        requires
            old(self).wf(),
            old(self).text().len() > 0,
            p <= old(self).text().len(),
        ensures
            final(self).text() == spec_insert_text(
                old(self).text(),
                p as int,
                data@.map_values(|g: String| g@),
            ),
            final(self).segs() == spec_insert_segs(old(self).segs(), p as int, data@.len() as int),
            final(self).wf(),
            old(self).merged() ==> final(self).merged(),
            old(self).metrics_wf() ==> final(self).metrics_wf(),
    {
        let k = data.len();
        let n = self.word.len();
        let ghost oldsegs = self.segs();
        let ghost oldtext = self.text();
        // splice the text: rebuild it as prefix + data + suffix
        let mut neww: Vec<String> = Vec::new();
        let mut i: usize = 0;
        while i < p
            invariant
                i <= p,
                p <= n,
                n == self.word@.len(),
                self.word@ == old(self).word@,
                neww@ =~= self.word@.take(i as int),
            decreases p - i,
        {
            neww.push(self.word[i].clone());
            i += 1;
        }
        let mut di: usize = 0;
        while di < k
            invariant
                di <= k,
                k == data@.len(),
                p <= n,
                n == self.word@.len(),
                self.word@ == old(self).word@,
                neww@ =~= self.word@.take(p as int) + data@.take(di as int),
            decreases k - di,
        {
            neww.push(data[di].clone());
            di += 1;
        }
        let mut i: usize = p;
        while i < n
            invariant
                p <= i <= n,
                k == data@.len(),
                n == self.word@.len(),
                self.word@ == old(self).word@,
                neww@ =~= self.word@.take(p as int) + data@ + self.word@.subrange(
                    p as int,
                    i as int,
                ),
            decreases n - i,
        {
            neww.push(self.word[i].clone());
            i += 1;
        }
        self.word = neww;
        let _spliced_len = self.word.len();
        proof {
            assert(self.word@ =~= old(self).word@.take(p as int) + data@ + old(self).word@.skip(
                p as int,
            ));
            assert(self.text() =~= spec_insert_text(
                oldtext,
                p as int,
                data@.map_values(|g: String| g@),
            ));
            assert(self.word@.len() == n + k);
            assert(_spliced_len == n + k);
            assert(n + k <= usize::MAX);
        }
        // shift the segment boundaries
        proof {
            assert forall|q: int| 0 <= q < oldsegs.len() implies (#[trigger] oldsegs[q]).end
                <= n by {
                if q < oldsegs.len() - 1 {
                    crate::word::lemma_segs_monotone_pub(*old(self), q, oldsegs.len() - 1);
                    assert(oldsegs.last().start < oldsegs.last().end);
                }
            };
            assert forall|q: int|
                0 <= q < old(self).glyphs_views@.len() implies (#[trigger] old(
                self,
            ).glyphs_views@[q]).end <= n by {
                assert(oldsegs[q].end <= n);
            };
        }
        let m = self.glyphs_views.len();
        let mut j: usize = 0;
        while j < m
            invariant
                j <= m,
                m == old(self).glyphs_views@.len(),
                self.glyphs_views@.len() == m,
                self.word@.len() == n + k,
                n == oldtext.len(),
                p <= n,
                oldsegs == segs_of(old(self).glyphs_views@),
                forall|q: int|
                    0 <= q < m ==> ({
                        let og = old(self).glyphs_views@[q];
                        let ng = (#[trigger] self.glyphs_views@[q]);
                        &&& ng.properties == og.properties
                        &&& ng.primitive == og.primitive
                        &&& og.end <= n
                    }),
                forall|q: int|
                    j <= q < m ==> (#[trigger] self.glyphs_views@[q]).start == old(
                        self,
                    ).glyphs_views@[q].start && self.glyphs_views@[q].end == old(
                        self,
                    ).glyphs_views@[q].end,
                forall|q: int|
                    0 <= q < j ==> ({
                        let og = old(self).glyphs_views@[q];
                        let ng = (#[trigger] self.glyphs_views@[q]);
                        &&& ng.start as int == if og.start >= p && og.start != 0 {
                            og.start + k
                        } else {
                            og.start as int
                        }
                        &&& ng.end as int == if og.end >= p {
                            og.end + k
                        } else {
                            og.end as int
                        }
                    }),
                self.text() == spec_insert_text(
                    oldtext,
                    p as int,
                    data@.map_values(|g: String| g@),
                ),
                n + k <= usize::MAX,
                forall|q: int| 0 <= q < oldsegs.len() ==> (#[trigger] oldsegs[q]).end <= n,
                oldsegs.len() == m,
                old(self).wf(),
                p <= n,
            decreases m - j,
        {
            proof {
                assert(oldsegs[j as int].end <= n);
            }
            let gs = self.glyphs_views[j].start;
            let ge = self.glyphs_views[j].end;
            if gs >= p && gs != 0 {
                self.glyphs_views[j].start = gs + k;
            }
            if ge >= p {
                self.glyphs_views[j].end = ge + k;
            }
            j += 1;
        }
        proof {
            assert(self.segs() =~= spec_insert_segs(oldsegs, p as int, k as int));
            let news = self.segs();
            if oldsegs.len() > 0 {
                lemma_insert_segs_wf(oldsegs, p as int, k as int, n as int);
            }
            assert forall|i: int|
                0 <= i < news.len() - 1 && old(self).merged() implies !props_eq_spec(
                (#[trigger] news[i]).props,
                news[i + 1].props,
            ) by {
                assert(news[i].props == oldsegs[i].props);
                assert(news[i + 1].props == oldsegs[i + 1].props);
            };
        }
    }

    /// Delete the grapheme at `idx`: later boundaries shift left, a
    /// segment emptied by the deletion disappears, and equal-style
    /// neighbours re-merge.
    pub fn remove_grapheme(&mut self, idx: usize)
        requires
            old(self).wf(),
            idx < old(self).text().len(),
        ensures
            final(self).text() == spec_remove_text(old(self).text(), idx as int),
            final(self).segs() == merge_segs(shrink_segs(old(self).segs(), idx as int)),
            final(self).wf(),
            final(self).merged(),
            final(self).metrics_wf(),
            forall|i: int|
                0 <= i < final(self).glyphs_views@.len() ==> (#[trigger] final(self).glyphs_views@[i]).primitive.prop is Empty,
    {
        let ghost oldsegs = self.segs();
        let ghost oldtext = self.text();
        let n = self.word.len();
        self.word.remove(idx);
        proof {
            assert(self.text() =~= spec_remove_text(oldtext, idx as int));
        }
        let m = self.glyphs_views.len();
        let mut out: Vec<GlyphsView> = Vec::new();
        let mut j: usize = 0;
        proof {
            reveal_with_fuel(shrink_segs, 1);
            assert(oldsegs.take(0) =~= Seq::<SegV>::empty());
        }
        while j < m
            invariant
                j <= m,
                m == self.glyphs_views@.len(),
                oldsegs == segs_of(self.glyphs_views@),
                idx < n,
                n == oldtext.len(),
                old(self).wf(),
                oldsegs == old(self).segs(),
                segs_of(out@) == shrink_segs(oldsegs.take(j as int), idx as int),
                forall|q: int| 0 <= q < out@.len() ==> (#[trigger] out@[q]).primitive.prop is Empty,
                is_chain(segs_of(out@)),
                out@.len() > 0 ==> segs_of(out@)[0].start == 0,
                out@.len() > 0 ==> segs_of(out@).last().end == ({
                    let oe = oldsegs[j - 1].end;
                    if oe > idx {
                        oe - 1
                    } else {
                        oe
                    }
                }),
                out@.len() == 0 && j > 0 ==> oldsegs[j - 1].end as int == idx + 1 && oldsegs[j
                    - 1].start == idx,
                out@.len() == 0 && j > 0 ==> j == 1 && idx == 0,
            decreases m - j,
        {
            proof {
                lemma_shrink_snoc(oldsegs, j as int, idx as int);
                reveal_with_fuel(shrink_segs, 1);
                assert(oldsegs[j as int].start < oldsegs[j as int].end);
                if j == 0 {
                    assert(oldsegs.take(0) =~= Seq::<SegV>::empty());
                    assert(segs_of(out@).len() == 0);
                }
                if j > 0 {
                    assert(oldsegs[(j - 1) as int + 1].start == oldsegs[(j - 1) as int].end);
                }
            }
            let gv = &self.glyphs_views[j];
            let gs = gv.start;
            let ge = gv.end;
            let ns: usize = if gs > idx {
                gs - 1
            } else {
                gs
            };
            let ne: usize = if ge > idx {
                ge - 1
            } else {
                ge
            };
            proof {
                if j > 0 {
                    let jm = j as int - 1;
                    assert(oldsegs[jm + 1].start == oldsegs[jm].end);
                }
            }
            if ns != ne {
                let ghost prevout = segs_of(out@);
                let ghost v = SegV { start: ns as int, end: ne as int, props: oldsegs[j as int].props };
                proof {
                    if prevout.len() > 0 {
                        assert(prevout.last().end == ({
                            let oe = oldsegs[j as int - 1].end;
                            if oe > idx {
                                oe - 1
                            } else {
                                oe
                            }
                        }));
                        assert(v.start == prevout.last().end);
                    } else {
                        if j > 0 {
                            assert(oldsegs[j as int - 1].end == idx + 1 && oldsegs[j as int
                                - 1].start == idx);
                            assert(v.start == 0);
                        } else {
                            assert(gs == 0);
                        }
                    }
                }
                out.push(
                    GlyphsView {
                        start: ns,
                        end: ne,
                        properties: gv.properties.clone(),
                        primitive: crate::primitives::Primitive::empty(),
                    },
                );
                proof {
                    assert(segs_of(out@) =~= prevout.push(v));
                    lemma_chain_push(prevout, v);
                }
            } else {
                proof {
                    assert(oldsegs[j as int].start == idx as int && oldsegs[j as int].end == idx
                        + 1);
                    if out@.len() == 0 {
                        assert(oldsegs[j as int].start == 0 ==> idx == 0);
                        if j > 0 {
                            assert(oldsegs[0].start == 0);
                        }
                    }
                }
            }
            j += 1;
        }
        proof {
            assert(oldsegs.take(m as int) =~= oldsegs);
        }
        self.glyphs_views = out;
        self.clear_glyphs();
        proof {
            assert(self.text() == spec_remove_text(oldtext, idx as int));
        }
    }
}

/// Segments kept by the left half of a split at `p`: ranges at or before
/// `p`, the straddling one truncated to `p`.
#[verifier::opaque]
pub open spec fn left_segs(s: Seq<SegV>, p: int) -> Seq<SegV>
    decreases s.len(),
{
    if s.len() == 0 {
        s
    } else {
        let m = left_segs(s.drop_last(), p);
        let x = s.last();
        if x.end <= p {
            m.push(x)
        } else if x.start < p {
            m.push(SegV { start: x.start, end: p, props: x.props })
        } else {
            m
        }
    }
}

/// Segments kept by the right half of a split at `p`, re-based to zero:
/// ranges at or after `p`, the straddling one starting at zero.
#[verifier::opaque]
pub open spec fn right_segs(s: Seq<SegV>, p: int) -> Seq<SegV>
    decreases s.len(),
{
    if s.len() == 0 {
        s
    } else {
        let m = right_segs(s.drop_last(), p);
        let x = s.last();
        if x.end <= p {
            m
        } else if x.start >= p {
            m.push(SegV { start: x.start - p, end: x.end - p, props: x.props })
        } else {
            m.push(SegV { start: 0, end: x.end - p, props: x.props })
        }
    }
}

/// One unfolding step of `left_segs`.
proof fn lemma_left_snoc(s: Seq<SegV>, k: int, p: int)
    requires
        0 <= k < s.len(),
    ensures
        left_segs(s.take(k + 1), p) == ({
            let m = left_segs(s.take(k), p);
            let x = s[k];
            if x.end <= p {
                m.push(x)
            } else if x.start < p {
                m.push(SegV { start: x.start, end: p, props: x.props })
            } else {
                m
            }
        }),
{
    reveal_with_fuel(left_segs, 2);
    assert(s.take(k + 1).drop_last() =~= s.take(k));
    assert(s.take(k + 1).last() == s[k]);
}

/// One unfolding step of `right_segs`.
proof fn lemma_right_snoc(s: Seq<SegV>, k: int, p: int)
    requires
        0 <= k < s.len(),
    ensures
        right_segs(s.take(k + 1), p) == ({
            let m = right_segs(s.take(k), p);
            let x = s[k];
            if x.end <= p {
                m
            } else if x.start >= p {
                m.push(SegV { start: x.start - p, end: x.end - p, props: x.props })
            } else {
                m.push(SegV { start: 0, end: x.end - p, props: x.props })
            }
        }),
{
    reveal_with_fuel(right_segs, 2);
    assert(s.take(k + 1).drop_last() =~= s.take(k));
    assert(s.take(k + 1).last() == s[k]);
}

impl Word {
    /// Split the word at grapheme position `p`, keeping `[0, p)` and
    /// returning the rest as a new word; a style segment straddling `p`
    /// is split between the halves.
    #[verifier::rlimit(100)]
    pub fn split_at(&mut self, p: usize) -> (r: Word)
        requires
            old(self).wf(),
            1 <= p <= old(self).text().len(),
        ensures
            final(self).text() == old(self).text().take(p as int),
            r.text() == old(self).text().skip(p as int),
            final(self).segs() == left_segs(old(self).segs(), p as int),
            r.segs() == right_segs(old(self).segs(), p as int),
            final(self).wf(),
            r.wf(),
            old(self).merged() ==> final(self).merged() && r.merged(),
            final(self).metrics_wf(),
            r.metrics_wf(),
            forall|i: int|
                0 <= i < final(self).glyphs_views@.len() ==> (#[trigger] final(self).glyphs_views@[i]).primitive.prop is Empty,
            forall|i: int|
                0 <= i < r.glyphs_views@.len() ==> (#[trigger] r.glyphs_views@[i]).primitive.prop is Empty,
    {
        let ghost oldsegs = self.segs();
        let ghost oldtext = self.text();
        let n = self.word.len();
        // split the text
        let mut right_text: Vec<String> = Vec::new();
        let mut i: usize = p;
        while i < n
            invariant
                p <= i <= n,
                n == self.word@.len(),
                self.word@ == old(self).word@,
                right_text@ =~= self.word@.subrange(p as int, i as int),
            decreases n - i,
        {
            right_text.push(self.word[i].clone());
            i += 1;
        }
        self.word.truncate(p);
        proof {
            assert(self.word@ =~= old(self).word@.take(p as int));
            assert(right_text@ =~= old(self).word@.skip(p as int));
            assert(self.text() =~= oldtext.take(p as int));
        }
        // split the segments
        let m = self.glyphs_views.len();
        let mut left: Vec<GlyphsView> = Vec::new();
        let mut right: Vec<GlyphsView> = Vec::new();
        let mut j: usize = 0;
        proof {
            reveal_with_fuel(left_segs, 1);
            reveal_with_fuel(right_segs, 1);
            assert(oldsegs.take(0) =~= Seq::<SegV>::empty());
        }
        while j < m
            invariant
                j <= m,
                m == self.glyphs_views@.len(),
                oldsegs == segs_of(self.glyphs_views@),
                oldsegs == old(self).segs(),
                old(self).wf(),
                1 <= p <= n,
                n == oldtext.len(),
                segs_of(left@) == left_segs(oldsegs.take(j as int), p as int),
                segs_of(right@) == right_segs(oldsegs.take(j as int), p as int),
                forall|q: int| 0 <= q < left@.len() ==> (#[trigger] left@[q]).primitive.prop is Empty,
                forall|q: int| 0 <= q < right@.len() ==> (#[trigger] right@[q]).primitive.prop is Empty,
                is_chain(segs_of(left@)),
                is_chain(segs_of(right@)),
                left@.len() > 0 ==> segs_of(left@)[0].start == 0,
                right@.len() > 0 ==> segs_of(right@)[0].start == 0,
                j > 0 && oldsegs[j - 1].start < p ==> left@.len() > 0 && segs_of(
                    left@,
                ).last().end == ({
                    let oe = oldsegs[j - 1].end;
                    if oe <= p {
                        oe
                    } else {
                        p as int
                    }
                }),
                j > 0 && oldsegs[j - 1].start >= p ==> left@.len() > 0 && segs_of(
                    left@,
                ).last().end == p as int,
                j > 0 && oldsegs[j - 1].end > p ==> right@.len() > 0 && segs_of(
                    right@,
                ).last().end == oldsegs[j - 1].end - p,
                j > 0 && oldsegs[j - 1].end <= p ==> right@.len() == 0,
                old(self).merged() ==> crate::word::adj_distinct(segs_of(left@)),
                old(self).merged() ==> crate::word::adj_distinct(segs_of(right@)),
                j > 0 && oldsegs[j - 1].start < p ==> left@.len() > 0 && segs_of(
                    left@,
                ).last().props == oldsegs[j - 1].props,
                j > 0 && oldsegs[j - 1].end > p ==> right@.len() > 0 && segs_of(
                    right@,
                ).last().props == oldsegs[j - 1].props,
            decreases m - j,
        {
            proof {
                lemma_left_snoc(oldsegs, j as int, p as int);
                lemma_right_snoc(oldsegs, j as int, p as int);
                assert(oldsegs[j as int].start < oldsegs[j as int].end);
                if j > 0 {
                    let jm = j as int - 1;
                    assert(oldsegs[jm + 1].start == oldsegs[jm].end);
                }
                if old(self).merged() && j > 0 {
                    let jm = j as int - 1;
                    assert(!props_eq_spec(oldsegs[jm].props, oldsegs[jm + 1].props));
                }
            }
            let gv = &self.glyphs_views[j];
            let gs = gv.start;
            let ge = gv.end;
            proof {
                reveal_with_fuel(left_segs, 1);
                reveal_with_fuel(right_segs, 1);
                assert(oldsegs[j as int].start == gs as int && oldsegs[j as int].end == ge as int);
                if j == 0 {
                    assert(oldsegs.take(0) =~= Seq::<SegV>::empty());
                    assert(segs_of(left@).len() == 0);
                    assert(segs_of(right@).len() == 0);
                }
            }
            if ge <= p {
                let ghost prevl = segs_of(left@);
                proof {
                    if j > 0 {
                        assert(oldsegs[j as int - 1].end == gs);
                        assert(oldsegs[j as int - 1].start < oldsegs[j as int - 1].end);
                        assert(oldsegs[j as int - 1].start < p);
                        assert(prevl.len() > 0 && prevl.last().end == gs as int);
                        assert(prevl.last().props == oldsegs[j as int - 1].props);
                    }
                }
                left.push(
                    GlyphsView {
                        start: gs,
                        end: ge,
                        properties: gv.properties.clone(),
                        primitive: crate::primitives::Primitive::empty(),
                    },
                );
                proof {
                    assert(segs_of(left@) =~= prevl.push(oldsegs[j as int]));
                    lemma_chain_push(prevl, oldsegs[j as int]);
                    if old(self).merged() {
                        lemma_adj_distinct_push(prevl, oldsegs[j as int]);
                    }
                }
            } else if gs < p {
                let ghost prevl = segs_of(left@);
                let ghost prevr = segs_of(right@);
                let ghost lv = SegV {
                    start: gs as int,
                    end: p as int,
                    props: oldsegs[j as int].props,
                };
                let ghost rv = SegV {
                    start: 0,
                    end: ge - p,
                    props: oldsegs[j as int].props,
                };
                proof {
                    if j > 0 {
                        assert(oldsegs[j as int - 1].end == gs);
                        assert(oldsegs[j as int - 1].start < p);
                        assert(prevl.len() > 0 && prevl.last().end == gs as int);
                        assert(prevl.last().props == oldsegs[j as int - 1].props);
                        assert(prevr.len() == 0);
                    }
                }
                left.push(
                    GlyphsView {
                        start: gs,
                        end: p,
                        properties: gv.properties.clone(),
                        primitive: crate::primitives::Primitive::empty(),
                    },
                );
                right.push(
                    GlyphsView {
                        start: 0,
                        end: ge - p,
                        properties: gv.properties.clone(),
                        primitive: crate::primitives::Primitive::empty(),
                    },
                );
                proof {
                    assert(segs_of(left@) =~= prevl.push(lv));
                    assert(segs_of(right@) =~= prevr.push(rv));
                    lemma_chain_push(prevl, lv);
                    lemma_chain_push(prevr, rv);
                    if old(self).merged() {
                        lemma_adj_distinct_push(prevl, lv);
                        lemma_adj_distinct_push(prevr, rv);
                    }
                }
            } else {
                let ghost prevr = segs_of(right@);
                let ghost rv = SegV {
                    start: gs - p,
                    end: ge - p,
                    props: oldsegs[j as int].props,
                };
                proof {
                    assert(j > 0);
                    assert(oldsegs[j as int - 1].end == gs);
                    if prevr.len() == 0 {
                        assert(oldsegs[j as int - 1].end <= p);
                        assert(gs == p);
                    } else {
                        assert(oldsegs[j as int - 1].end > p);
                        assert(rv.start == prevr.last().end);
                        assert(prevr.last().props == oldsegs[j as int - 1].props);
                    }
                }
                right.push(
                    GlyphsView {
                        start: gs - p,
                        end: ge - p,
                        properties: gv.properties.clone(),
                        primitive: crate::primitives::Primitive::empty(),
                    },
                );
                proof {
                    assert(segs_of(right@) =~= prevr.push(rv));
                    lemma_chain_push(prevr, rv);
                    if old(self).merged() {
                        lemma_adj_distinct_push(prevr, rv);
                    }
                }
            }
            j += 1;
        }
        proof {
            assert(oldsegs.take(m as int) =~= oldsegs);
        }
        self.glyphs_views = left;
        let r = Word { word: right_text, glyphs_views: right };
        proof {
            assert(r.text() =~= oldtext.skip(p as int));
        }
        r
    }
}

/// Segments shifted right by `d` on both boundaries.
pub open spec fn shift_segs(s: Seq<SegV>, d: int) -> Seq<SegV> {
    s.map_values(|x: SegV| SegV { start: x.start + d, end: x.end + d, props: x.props })
}

impl Word {
    /// Append another word: its text follows this word's text and its
    /// style segments follow, re-based past this word's length; adjacent
    /// equal-style segments at the seam re-merge.
    #[verifier::rlimit(100)]
    pub fn merge_with(&mut self, other: &Word)
        requires
            old(self).wf(),
            other.wf(),
            old(self).text().len() + other.text().len() <= usize::MAX,
        ensures
            final(self).text() == old(self).text() + other.text(),
            final(self).segs() == merge_segs(
                old(self).segs() + shift_segs(other.segs(), old(self).text().len() as int),
            ),
            final(self).wf(),
            final(self).merged(),
            final(self).metrics_wf(),
            forall|i: int|
                0 <= i < final(self).glyphs_views@.len() ==> (#[trigger] final(self).glyphs_views@[i]).primitive.prop is Empty,
    {
        let ghost oldsegs = self.segs();
        let ghost oldtext = self.text();
        let n = self.word.len();
        let on = other.word.len();
        let mut i: usize = 0;
        while i < on
            invariant
                i <= on,
                on == other.word@.len(),
                n == oldtext.len(),
                self.word@.len() == n + i,
                self.word@ =~= old(self).word@ + other.word@.take(i as int),
                self.glyphs_views@ == old(self).glyphs_views@,
                n + on <= usize::MAX,
            decreases on - i,
        {
            self.word.push(other.word[i].clone());
            proof {
                assert(self.word@ =~= old(self).word@ + other.word@.take(i as int + 1));
            }
            i += 1;
        }
        proof {
            assert(other.word@.take(on as int) =~= other.word@);
            assert(self.text() =~= oldtext + other.text());
        }
        let om = other.glyphs_views.len();
        let mut j: usize = 0;
        while j < om
            invariant
                j <= om,
                om == other.glyphs_views@.len(),
                n == oldtext.len(),
                self.word@.len() == n + on,
                on == other.text().len(),
                oldsegs == old(self).segs(),
                old(self).wf(),
                other.wf(),
                self.word@ == old(self).word@ + other.word@,
                n + on <= usize::MAX,
                segs_of(self.glyphs_views@) =~= oldsegs + shift_segs(
                    other.segs().take(j as int),
                    n as int,
                ),
                forall|q: int|
                    0 <= q < old(self).glyphs_views@.len() ==> (#[trigger] self.glyphs_views@[q])
                        == old(self).glyphs_views@[q],
            decreases om - j,
        {
            let gv = &other.glyphs_views[j];
            proof {
                if (j as int) < other.segs().len() - 1 {
                    crate::word::lemma_segs_monotone_pub(*other, j as int, other.segs().len() - 1);
                    assert(other.segs().last().start < other.segs().last().end);
                }
                assert(other.segs()[j as int].end <= on);
                assert(other.segs()[j as int].start < other.segs()[j as int].end);
                assert(other.segs()[j as int].start == gv.start as int && other.segs()[j as int].end
                    == gv.end as int);
                assert(gv.end <= on);
            }
            let ghost prevsegs = segs_of(self.glyphs_views@);
            self.glyphs_views.push(
                GlyphsView {
                    start: n + gv.start,
                    end: n + gv.end,
                    properties: gv.properties.clone(),
                    primitive: crate::primitives::Primitive::empty(),
                },
            );
            proof {
                assert(segs_of(self.glyphs_views@) =~= prevsegs.push(
                    SegV {
                        start: n + other.segs()[j as int].start,
                        end: n + other.segs()[j as int].end,
                        props: other.segs()[j as int].props,
                    },
                ));
                assert(shift_segs(other.segs().take(j as int + 1), n as int) =~= shift_segs(
                    other.segs().take(j as int),
                    n as int,
                ).push(
                    SegV {
                        start: n + other.segs()[j as int].start,
                        end: n + other.segs()[j as int].end,
                        props: other.segs()[j as int].props,
                    },
                ));
            }
            j += 1;
        }
        proof {
            assert(other.segs().take(om as int) =~= other.segs());
            let combined = oldsegs + shift_segs(other.segs(), n as int);
            assert(segs_of(self.glyphs_views@) =~= combined);
            // the combined segments form a partition of the combined text
            let w = *self;
            if self.text().len() > 0 {
                assert forall|q: int| 0 <= q < combined.len() implies (#[trigger] combined[q]).start
                    < combined[q].end by {
                    if q < oldsegs.len() {
                        assert(combined[q] == oldsegs[q]);
                        assert(oldsegs[q].start < oldsegs[q].end);
                    } else {
                        assert(other.segs()[q - oldsegs.len()].start < other.segs()[q
                            - oldsegs.len()].end);
                    }
                };
                assert forall|q: int|
                    #![trigger combined[q], combined[q + 1]]
                    0 <= q < combined.len() - 1 implies combined[q + 1].start
                    == combined[q].end by {
                    if q + 1 < oldsegs.len() {
                        assert(combined[q] == oldsegs[q] && combined[q + 1] == oldsegs[q + 1]);
                        assert(oldsegs[q + 1].start == oldsegs[q].end);
                    } else if q + 1 == oldsegs.len() {
                        assert(combined[q] == oldsegs[q]);
                        assert(oldsegs.last().end == n);
                        assert(other.segs()[0].start == 0);
                    } else {
                        let qq = q - oldsegs.len();
                        assert(other.segs()[qq + 1].start == other.segs()[qq].end);
                    }
                };
            }
        }
        self.clear_glyphs();
    }
}

/// Structural target a line-relative grapheme offset resolves to; word
/// indices are relative to the line's first word.
#[derive(Clone, Copy, Debug, PartialEq, Eq, Structural)]
pub enum CursorTargetIdx {
    WordTarget { word: usize, idx: usize },
    WhiteSpace { prev: usize, next: usize },
    LineEnd { end: usize },
    Nothing,
}

/// Ghost form of a cursor target.
pub enum TargetV {
    Word { word: int, idx: int },
    Gap { prev: int, next: int },
    LineEnd { end: int },
    Nothing,
}

/// Walk the line's words consuming `c` units: each word spends its
/// grapheme count, each inter-word gap one unit, and the line end one
/// final unit.  `k` counts the words already passed.
pub open spec fn locate_from(words: Seq<Word>, s: int, e: int, k: int, c: int) -> TargetV
    decreases e - s,
{
    if s >= e {
        TargetV::Nothing
    } else {
        let len = words[s].text().len() as int;
        if c < len {
            TargetV::Word { word: k, idx: c }
        } else if s + 1 < e {
            if c == len {
                TargetV::Gap { prev: k, next: k + 1 }
            } else {
                locate_from(words, s + 1, e, k + 1, c - len - 1)
            }
        } else {
            if c == len {
                TargetV::LineEnd { end: k }
            } else {
                TargetV::Nothing
            }
        }
    }
}

/// The exec target mirrors the ghost target.
pub open spec fn target_matches(r: CursorTargetIdx, v: TargetV) -> bool {
    match v {
        TargetV::Word { word, idx } => r matches CursorTargetIdx::WordTarget {
            word: w,
            idx: i,
        } && w as int == word && i as int == idx,
        TargetV::Gap { prev, next } => r matches CursorTargetIdx::WhiteSpace {
            prev: a,
            next: b,
        } && a as int == prev && b as int == next,
        TargetV::LineEnd { end } => r matches CursorTargetIdx::LineEnd { end: x } && x as int
            == end,
        TargetV::Nothing => r is Nothing,
    }
}

/// Resolve a line-relative grapheme offset to a structural target: inside
/// a word, on the gap between two words, at the line's end, or nothing
/// for an offset past the end (or an empty line).
pub fn get_cursor_target(
    words: &Vec<Word>,
    range_start: usize,
    range_end: usize,
    char_idx: usize,
) -> (r: CursorTargetIdx)
    requires
        range_start <= range_end,
        range_end as int <= words@.len(),
    ensures
        target_matches(
            r,
            locate_from(
                words@,
                range_start as int,
                range_end as int,
                0,
                char_idx as int,
            ),
        ),
{
    let mut s = range_start;
    let mut k: usize = 0;
    let mut c = char_idx;
    while s < range_end
        invariant
            range_start <= s <= range_end,
            range_end as int <= words@.len(),
            k == s - range_start,
            locate_from(words@, range_start as int, range_end as int, 0, char_idx as int)
                == locate_from(words@, s as int, range_end as int, k as int, c as int),
        decreases range_end - s,
    {
        let len = words[s].word.len();
        if c < len {
            return CursorTargetIdx::WordTarget { word: k, idx: c };
        }
        if s + 1 < range_end {
            if c == len {
                return CursorTargetIdx::WhiteSpace { prev: k, next: k + 1 };
            }
            c = c - len - 1;
            s += 1;
            k += 1;
        } else {
            if c == len {
                return CursorTargetIdx::LineEnd { end: k };
            }
            return CursorTargetIdx::Nothing;
        }
    }
    CursorTargetIdx::Nothing
}

/// A resolved target always points inside the line: a word target names
/// an existing word and a grapheme inside it, a gap lies between two
/// words of the line, and the line end names its last word.
pub proof fn lemma_locate_bounds(words: Seq<Word>, s: int, e: int, k: int, c: int)
    requires
        0 <= s,
        e <= words.len(),
        0 <= k,
        0 <= c,
    ensures
        match locate_from(words, s, e, k, c) {
            TargetV::Word { word, idx } => k <= word && s + (word - k) < e && 0 <= idx
                && idx < words[s + (word - k)].text().len(),
            TargetV::Gap { prev, next } => next == prev + 1 && k <= prev && s + (prev - k) + 1
                < e,
            TargetV::LineEnd { end } => end - k == e - s - 1 && s < e,
            TargetV::Nothing => true,
        },
    decreases e - s,
{
    if s < e {
        let len = words[s].text().len() as int;
        if c < len {
        } else if s + 1 < e {
            if c == len {
            } else {
                lemma_locate_bounds(words, s + 1, e, k + 1, c - len - 1);
            }
        }
    }
}

/// The clamped unit length of a line: each word's grapheme count plus one.
pub open spec fn line_units(words: Seq<Word>, s: int, e: int) -> int
    decreases e - s,
{
    if e <= s {
        0
    } else {
        let rest = line_units(words, s, e - 1);
        let add = words[e - 1].text().len() + 1;
        if rest + add > usize::MAX as int {
            usize::MAX as int
        } else {
            rest + add
        }
    }
}

/// The unit length of a line: the sum over its words of grapheme count
/// plus one (for the trailing gap or line end), clamped at `usize::MAX`.
pub fn get_curr_line_len(words: &Vec<Word>, range_start: usize, range_end: usize) -> (r: usize)
    requires
        range_start <= range_end,
        range_end as int <= words@.len(),
    ensures
        r as int == line_units(words@, range_start as int, range_end as int),
{
    let mut len: usize = 0;
    let mut s = range_start;
    while s < range_end
        invariant
            range_start <= s <= range_end,
            range_end as int <= words@.len(),
            len as int == line_units(words@, range_start as int, s as int),
        decreases range_end - s,
    {
        let wl = words[s].word.len();
        if len >= usize::MAX - wl {
            len = usize::MAX;
        } else {
            len = len + wl + 1;
        }
        proof {
            assert(len as int == line_units(words@, range_start as int, s as int + 1));
        }
        s += 1;
    }
    len
}

/// Inserting one grapheme at `p` and deleting the grapheme at `p` again
/// restores both the text and the segment layout of any well-formed,
/// merged word exactly.
pub proof fn lemma_insert_remove_round_trip(w: Word, p: int, g: Seq<char>)
    requires
        w.wf(),
        w.merged(),
        0 <= p <= w.text().len(),
    ensures
        spec_insert_text(w.text(), p, seq![g])[p] == g,
        spec_remove_text(spec_insert_text(w.text(), p, seq![g]), p) == w.text(),
        merge_segs(shrink_segs(spec_insert_segs(w.segs(), p, 1), p)) == w.segs(),
{
    assert(spec_remove_text(spec_insert_text(w.text(), p, seq![g]), p) =~= w.text());
    lemma_shrink_insert(w.segs(), p);
    crate::word::lemma_merge_identity(w.segs());
}

/// Deleting at `p` undoes an insertion of one grapheme at `p` on the
/// segment level: no segment empties, and every boundary returns.
proof fn lemma_shrink_insert(s: Seq<SegV>, p: int)
    requires
        forall|i: int| 0 <= i < s.len() ==> (#[trigger] s[i]).start >= 0,
        forall|i: int| 0 <= i < s.len() ==> (#[trigger] s[i]).start < s[i].end,
        0 <= p,
    ensures
        shrink_segs(spec_insert_segs(s, p, 1), p) == s,
    decreases s.len(),
{
    reveal_with_fuel(shrink_segs, 2);
    if s.len() == 0 {
        assert(spec_insert_segs(s, p, 1) =~= Seq::<SegV>::empty());
    } else {
        let d = s.drop_last();
        assert forall|i: int| 0 <= i < d.len() implies (#[trigger] d[i]).start >= 0 && d[i].start
            < d[i].end by {
            assert(d[i] == s[i]);
        };
        lemma_shrink_insert(d, p);
        let ins = spec_insert_segs(s, p, 1);
        assert(ins.drop_last() =~= spec_insert_segs(d, p, 1));
        let x = s.last();
        let xi = ins.last();
        assert(xi.props == x.props);
        assert(shrink_segs(ins, p) =~= s);
    }
}

} // verus!
