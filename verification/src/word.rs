//! Words and their style segments.
//!
//! A `Word` is a run of non-whitespace graphemes; its text is stored one
//! grapheme cluster per entry, so cursor positions and style ranges are
//! grapheme indices.  Each `GlyphsView` covers a contiguous range of the
//! word's graphemes with uniform visual properties; the ranges are sorted,
//! non-overlapping, and cover the word exactly.

use vstd::prelude::*;

use crate::primitives::Primitive;
use crate::props::{props_eq_spec, TextProperties};

verus! {

/// One style segment of a word: a grapheme range, its visual properties,
/// and the text primitive materialised for it (if any).
#[derive(Debug)]
pub struct GlyphsView {
    pub start: usize,
    pub end: usize,
    pub properties: TextProperties,
    pub primitive: Primitive,
}

/// A word: grapheme clusters plus style segments.
#[derive(Debug)]
pub struct Word {
    pub word: Vec<String>,
    pub glyphs_views: Vec<GlyphsView>,
}

/// Ghost form of a style segment: a grapheme range and its properties.
pub struct SegV {
    pub start: int,
    pub end: int,
    pub props: TextProperties,
}

/// The segment contains grapheme position `p`.
pub open spec fn seg_contains(s: SegV, p: int) -> bool {
    s.start <= p < s.end
}

/// The segments are non-empty and contiguous.
pub open spec fn is_chain(s: Seq<SegV>) -> bool {
    &&& forall|i: int| 0 <= i < s.len() ==> (#[trigger] s[i]).start < s[i].end
    &&& forall|i: int|
        #![trigger s[i], s[i + 1]]
        0 <= i < s.len() - 1 ==> s[i + 1].start == s[i].end
}

/// Merge adjacent segments with equal properties, left to right.
#[verifier::opaque]
pub open spec fn merge_segs(s: Seq<SegV>) -> Seq<SegV>
    decreases s.len(),
{
    if s.len() == 0 {
        s
    } else {
        let m = merge_segs(s.drop_last());
        if m.len() > 0 && props_eq_spec(m.last().props, s.last().props) {
            m.update(
                m.len() - 1,
                SegV { start: m.last().start, end: s.last().end, props: m.last().props },
            )
        } else {
            m.push(s.last())
        }
    }
}

/// The ghost segments of a sequence of glyph views.
pub open spec fn segs_of(s: Seq<GlyphsView>) -> Seq<SegV> {
    s.map_values(
        |g: GlyphsView| SegV { start: g.start as int, end: g.end as int, props: g.properties },
    )
}

impl Word {
    /// The word's text, one grapheme cluster per entry.
    pub open spec fn text(self) -> Seq<Seq<char>> {
        self.word@.map_values(|g: String| g@)
    }

    /// The word's style segments, in ghost form.
    pub open spec fn segs(self) -> Seq<SegV> {
        segs_of(self.glyphs_views@)
    }

    /// Structural well-formedness: the segments are sorted, contiguous and
    /// non-empty, and cover `[0, text length)` exactly.
    pub open spec fn wf(self) -> bool {
        let n = self.text().len() as int;
        let s = self.segs();
        &&& if n == 0 {
            s.len() == 0
        } else {
            &&& s.len() >= 1
            &&& s[0].start == 0
            &&& s.last().end == n
            &&& is_chain(s)
        }
    }

    /// No two adjacent segments have equal properties.
    pub open spec fn merged(self) -> bool {
        adj_distinct(self.segs())
    }

    /// Every segment's primitive satisfies the metric bounds.
    pub open spec fn metrics_wf(self) -> bool {
        forall|i: int|
            0 <= i < self.glyphs_views@.len() ==> (#[trigger] self.glyphs_views@[i]).primitive.metric_wf()
    }

    /// An empty word.
    pub fn new_empty() -> (r: Word)
        ensures
            r.text().len() == 0,
            r.segs().len() == 0,
            r.wf(),
            r.merged(),
            r.metrics_wf(),
    {
        let r = Word { word: Vec::new(), glyphs_views: Vec::new() };
        proof {
            assert(r.text() =~= Seq::<Seq<char>>::empty());
            assert(r.segs() =~= Seq::<SegV>::empty());
        }
        r
    }
}

/// Later segments start no earlier than earlier segments end.
pub proof fn lemma_segs_monotone_pub(w: Word, i: int, j: int)
    requires
        w.wf(),
        0 <= i < j < w.segs().len(),
    ensures
        w.segs()[j].start >= w.segs()[i].end,
    decreases j - i,
{
    if j > i + 1 {
        lemma_segs_monotone_pub(w, i, j - 1);
    }
    let jm = j - 1;
    assert(w.segs()[jm + 1].start == w.segs()[jm].end);
}

/// Find the segment that contains position `p`, scanning from `k`.
proof fn find_seg_from(w: Word, p: int, k: int) -> (i: int)
    requires
        w.wf(),
        0 <= p < w.text().len(),
        0 <= k < w.segs().len(),
        w.segs()[k].start <= p,
    ensures
        k <= i < w.segs().len(),
        seg_contains(w.segs()[i], p),
    decreases w.segs().len() - k,
{
    let s = w.segs();
    if p < s[k].end {
        k
    } else {
        assert(k + 1 < s.len());
        assert(s[k + 1].start == s[k].end);
        find_seg_from(w, p, k + 1)
    }
}

/// Segment coverage: in a well-formed word, every grapheme position lies
/// in exactly one style segment — the segment ranges partition
/// `[0, text length)` with no gaps and no overlaps.
#[verifier::rlimit(50)]
pub proof fn lemma_segment_coverage(w: Word, p: int) -> (i: int)
    requires
        w.wf(),
        0 <= p < w.text().len(),
    ensures
        0 <= i < w.segs().len(),
        seg_contains(w.segs()[i], p),
        forall|j: int|
            0 <= j < w.segs().len() && seg_contains(#[trigger] w.segs()[j], p) ==> j == i,
{
    let s = w.segs();
    let i = find_seg_from(w, p, 0);
    assert forall|j: int| 0 <= j < s.len() && seg_contains(#[trigger] s[j], p) implies j == i by {
        if j < i {
            lemma_segs_monotone_pub(w, j, i);
        } else if j > i {
            lemma_segs_monotone_pub(w, i, j);
        }
    };
    i
}

/// Merging a sequence with no adjacent equal properties leaves it unchanged.
pub proof fn lemma_merge_identity(s: Seq<SegV>)
    requires
        adj_distinct(s),
    ensures
        merge_segs(s) == s,
    decreases s.len(),
{
    reveal_with_fuel(merge_segs, 2);
    if s.len() > 0 {
        let d = s.drop_last();
        assert(adj_distinct(d)) by {
            assert forall|i: int|
                #![trigger d[i], d[i + 1]]
                0 <= i < d.len() - 1 implies !props_eq_spec(d[i].props, d[i + 1].props) by {
                assert(d[i] == s[i]);
                assert(d[i + 1] == s[i + 1]);
            };
        };
        lemma_merge_identity(d);
        if s.len() > 1 {
            let n2 = s.len() - 2;
            assert(!props_eq_spec(s[n2].props, s[n2 + 1].props));
            assert(d[n2] == s[n2]);
        }
        assert(merge_segs(s) =~= s);
    } else {
        assert(merge_segs(s) =~= s);
    }
}

/// One unfolding step of `merge_segs` over a prefix.
proof fn lemma_merge_snoc(s: Seq<SegV>, k: int)
    requires
        0 <= k < s.len(),
    ensures
        ({
            let m = merge_segs(s.take(k));
            merge_segs(s.take(k + 1)) == if m.len() > 0 && props_eq_spec(m.last().props, s[k].props) {
                m.update(
                    m.len() - 1,
                    SegV { start: m.last().start, end: s[k].end, props: m.last().props },
                )
            } else {
                m.push(s[k])
            }
        }),
{
    reveal_with_fuel(merge_segs, 2);
    assert(s.take(k + 1).drop_last() =~= s.take(k));
    assert(s.take(k + 1).last() == s[k]);
}

/// No two adjacent segments have equal properties.
pub open spec fn adj_distinct(s: Seq<SegV>) -> bool {
    forall|i: int|
        #![trigger s[i], s[i + 1]]
        0 <= i < s.len() - 1 ==> !props_eq_spec(s[i].props, s[i + 1].props)
}

/// Widening the last segment preserves adjacent distinctness.
pub proof fn lemma_adj_distinct_update(s: Seq<SegV>, u: SegV)
    requires
        adj_distinct(s),
        s.len() > 0,
        u.props == s.last().props,
    ensures
        adj_distinct(s.update(s.len() - 1, u)),
{
    let r = s.update(s.len() - 1, u);
    assert forall|i: int|
        0 <= i < r.len() - 1 implies !props_eq_spec((#[trigger] r[i]).props, r[i + 1].props) by {
        assert(r[i] == s[i]);
        assert(r[i + 1].props == s[i + 1].props);
    };
}

/// Widening the last segment preserves the chain shape.
pub proof fn lemma_chain_update(s: Seq<SegV>, u: SegV)
    requires
        is_chain(s),
        s.len() > 0,
        u.start == s.last().start,
        u.start < u.end,
    ensures
        is_chain(s.update(s.len() - 1, u)),
{
    let r = s.update(s.len() - 1, u);
    assert forall|i: int| 0 <= i < r.len() implies (#[trigger] r[i]).start < r[i].end by {
        if i < s.len() - 1 {
            assert(r[i] == s[i]);
        }
    };
    assert forall|i: int|
        #![trigger r[i], r[i + 1]]
        0 <= i < r.len() - 1 implies r[i + 1].start == r[i].end by {
        assert(s[i + 1].start == s[i].end);
        assert(r[i] == s[i]);
        if i + 1 < s.len() - 1 {
            assert(r[i + 1] == s[i + 1]);
        }
    };
}

/// Appending a distinct segment preserves adjacent distinctness.
pub proof fn lemma_adj_distinct_push(s: Seq<SegV>, v: SegV)
    requires
        adj_distinct(s),
        s.len() > 0 ==> !props_eq_spec(s.last().props, v.props),
    ensures
        adj_distinct(s.push(v)),
{
    let r = s.push(v);
    assert forall|i: int|
        0 <= i < r.len() - 1 implies !props_eq_spec((#[trigger] r[i]).props, r[i + 1].props) by {
        assert(r[i] == s[i]);
        if i + 1 < s.len() {
            assert(r[i + 1] == s[i + 1]);
        } else {
            assert(r[i + 1] == v);
        }
    };
}

/// Appending a contiguous segment preserves the chain shape.
pub proof fn lemma_chain_push(s: Seq<SegV>, v: SegV)
    requires
        is_chain(s),
        v.start < v.end,
        s.len() > 0 ==> v.start == s.last().end,
    ensures
        is_chain(s.push(v)),
{
    let r = s.push(v);
    assert forall|i: int| 0 <= i < r.len() implies (#[trigger] r[i]).start < r[i].end by {
        if i < s.len() {
            assert(r[i] == s[i]);
        } else {
            assert(r[i] == v);
        }
    };
    assert forall|i: int|
        #![trigger r[i], r[i + 1]]
        0 <= i < r.len() - 1 implies r[i + 1].start == r[i].end by {
        assert(r[i] == s[i]);
        if i + 1 < s.len() {
            assert(s[i + 1].start == s[i].end);
            assert(r[i + 1] == s[i + 1]);
        } else {
            assert(r[i + 1] == v);
        }
    };
}

impl Word {
    /// Re-merge adjacent style segments with equal properties, dropping all
    /// materialised primitives.  The text is unchanged; the segments become
    /// the merge of the old segments, so no two neighbours share properties.
    #[verifier::rlimit(100)]
    pub fn clear_glyphs(&mut self)
        ensures
            final(self).word@ == old(self).word@,
            final(self).text() == old(self).text(),
            final(self).segs() == merge_segs(old(self).segs()),
            final(self).merged(),
            old(self).wf() ==> final(self).wf(),
            final(self).metrics_wf(),
            forall|i: int|
                0 <= i < final(self).glyphs_views@.len() ==> (#[trigger] final(self).glyphs_views@[i]).primitive.prop is Empty,
    {
        let ghost orig = self.segs();
        let mut glyphs: Vec<GlyphsView> = Vec::new();
        proof {
            reveal_with_fuel(merge_segs, 1);
            assert(orig.take(0) =~= Seq::<SegV>::empty());
            assert(segs_of(glyphs@) =~= merge_segs(orig.take(0)));
        }
        let mut k: usize = 0;
        let m = self.glyphs_views.len();
        while k < m
            invariant
                k <= m,
                m == self.glyphs_views@.len(),
                segs_of(glyphs@) == merge_segs(orig.take(k as int)),
                orig == self.segs(),
                forall|i: int| 0 <= i < glyphs@.len() ==> (#[trigger] glyphs@[i]).primitive.prop is Empty,
                adj_distinct(segs_of(glyphs@)),
                old(self).wf() ==> is_chain(segs_of(glyphs@)),
                old(self).wf() && k == 0 ==> glyphs@.len() == 0,
                old(self).wf() && k > 0 ==> glyphs@.len() >= 1 && glyphs@[0].start == orig[0].start
                    && glyphs@.last().end as int == orig[k - 1].end,
            decreases m - k,
        {
            let gv = &self.glyphs_views[k];
            proof {
                lemma_merge_snoc(orig, k as int);
                if old(self).wf() {
                    assert(orig[k as int].start < orig[k as int].end);
                    if k > 0 {
                        assert(orig[(k - 1) as int + 1].start == orig[(k - 1) as int].end);
                    }
                }
            }
            let ghost prev = segs_of(glyphs@);
            let glen = glyphs.len();
            if glen > 0 && glyphs[glen - 1].properties.props_eq(&gv.properties) {
                glyphs[glen - 1].end = gv.end;
                proof {
                    let u = SegV {
                        start: prev.last().start,
                        end: orig[k as int].end,
                        props: prev.last().props,
                    };
                    assert(segs_of(glyphs@) =~= prev.update(prev.len() - 1, u));
                    lemma_adj_distinct_update(prev, u);
                    if old(self).wf() {
                        lemma_chain_update(prev, u);
                    }
                }
            } else {
                glyphs.push(
                    GlyphsView {
                        start: gv.start,
                        end: gv.end,
                        properties: gv.properties.clone(),
                        primitive: Primitive::empty(),
                    },
                );
                proof {
                    assert(segs_of(glyphs@) =~= prev.push(orig[k as int]));
                    lemma_adj_distinct_push(prev, orig[k as int]);
                    if old(self).wf() {
                        lemma_chain_push(prev, orig[k as int]);
                    }
                }
            }
            k += 1;
        }
        proof {
            assert(orig.take(m as int) =~= orig);
        }
        self.glyphs_views = glyphs;
    }
}

impl Word {
    /// A copy of the word without materialised primitives.
    #[verifier::rlimit(100)]
    pub fn clone_without_primitive(&self) -> (r: Word)
        ensures
            r.text() == self.text(),
            r.segs() == self.segs(),
            r.wf() == self.wf(),
            r.merged() == self.merged(),
            r.metrics_wf(),
            forall|i: int|
                0 <= i < r.glyphs_views@.len() ==> (#[trigger] r.glyphs_views@[i]).primitive.prop is Empty,
    {
        let mut word: Vec<String> = Vec::new();
        let mut k: usize = 0;
        let n = self.word.len();
        while k < n
            invariant
                k <= n,
                n == self.word@.len(),
                word@.len() == k as int,
                forall|i: int| 0 <= i < k ==> #[trigger] word@[i] == self.word@[i],
            decreases n - k,
        {
            word.push(self.word[k].clone());
            k += 1;
        }
        let mut glyphs_views: Vec<GlyphsView> = Vec::new();
        let mut k: usize = 0;
        let m = self.glyphs_views.len();
        while k < m
            invariant
                k <= m,
                m == self.glyphs_views@.len(),
                glyphs_views@.len() == k as int,
                forall|i: int|
                    0 <= i < k ==> (#[trigger] glyphs_views@[i]).start
                        == self.glyphs_views@[i].start && glyphs_views@[i].end
                        == self.glyphs_views@[i].end && glyphs_views@[i].properties
                        == self.glyphs_views@[i].properties
                        && glyphs_views@[i].primitive.prop is Empty,
            decreases m - k,
        {
            let gv = &self.glyphs_views[k];
            glyphs_views.push(
                GlyphsView {
                    start: gv.start,
                    end: gv.end,
                    properties: gv.properties.clone(),
                    primitive: Primitive::empty(),
                },
            );
            k += 1;
        }
        let r = Word { word, glyphs_views };
        proof {
            assert(r.word@ =~= self.word@);
            assert(r.segs() =~= self.segs());
        }
        r
    }
}

} // verus!
