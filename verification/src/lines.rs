//! The line breaker and line metrics.
//!
//! Words are packed greedily into lines bounded by the content width.  A
//! line records its word range and cached metrics: greatest word height,
//! total width without spacing, width with default inter-word spacing, and
//! the scale of its last word.

use vstd::prelude::*;

use crate::num::{cadd, clip, cmul, cmuldiv, in_range, tdiv, MAX_COORD};
use crate::props::Justification;
use crate::primitives::{prim_height, prim_scale, prim_width, MAX_DIM};
use crate::word::{GlyphsView, Word};

verus! {

/// One laid-out line: a half-open range of word indices plus cached metrics.
#[derive(Clone, Copy, Debug, PartialEq, Eq, Structural)]
pub struct Line {
    pub height: i64,
    pub min_width: i64,
    pub width_with_spacing: i64,
    pub last_scale: i64,
    pub range_start: usize,
    pub range_end: usize,
}

/// Vertical-spacing policy chosen by justification: `Relative` spacing is
/// scaled by each word's own scale, `Absolute` spacing is a fixed amount.
#[derive(Clone, Copy, Debug, PartialEq, Eq, Structural)]
pub enum VerticalSpacing {
    Relative(i64),
    Absolute(i64),
}

/// Total width of a word: the clamped sum of its segments' widths.
#[verifier::opaque]
pub open spec fn width_sum(s: Seq<GlyphsView>) -> int
    decreases s.len(),
{
    if s.len() == 0 {
        0
    } else {
        clip(width_sum(s.drop_last()) + prim_width(s.last().primitive.prop))
    }
}

/// Height of a word: the greatest of its segments' heights.
#[verifier::opaque]
pub open spec fn height_max(s: Seq<GlyphsView>) -> int
    decreases s.len(),
{
    if s.len() == 0 {
        0
    } else {
        let h = height_max(s.drop_last());
        let lh = prim_height(s.last().primitive.prop);
        if lh >= h {
            lh
        } else {
            h
        }
    }
}

/// Scale of a word: the scale of its final segment (zero when empty).
pub open spec fn last_scale_of(s: Seq<GlyphsView>) -> int {
    if s.len() == 0 {
        0
    } else {
        prim_scale(s.last().primitive.prop)
    }
}

/// One unfolding step of `width_sum`.
proof fn lemma_width_snoc(s: Seq<GlyphsView>, k: int)
    requires
        0 <= k < s.len(),
    ensures
        width_sum(s.take(k + 1)) == clip(width_sum(s.take(k)) + prim_width(s[k].primitive.prop)),
{
    reveal_with_fuel(width_sum, 2);
    assert(s.take(k + 1).drop_last() =~= s.take(k));
    assert(s.take(k + 1).last() == s[k]);
}

/// One unfolding step of `height_max`.
proof fn lemma_height_snoc(s: Seq<GlyphsView>, k: int)
    requires
        0 <= k < s.len(),
    ensures
        height_max(s.take(k + 1)) == ({
            let h = height_max(s.take(k));
            let lh = prim_height(s[k].primitive.prop);
            if lh >= h {
                lh
            } else {
                h
            }
        }),
{
    reveal_with_fuel(height_max, 2);
    assert(s.take(k + 1).drop_last() =~= s.take(k));
    assert(s.take(k + 1).last() == s[k]);
}

/// Word metrics stay inside the coordinate range and are non-negative.
pub proof fn lemma_word_metrics_bounds(s: Seq<GlyphsView>)
    requires
        forall|i: int| 0 <= i < s.len() ==> (#[trigger] s[i]).primitive.metric_wf(),
    ensures
        0 <= width_sum(s) <= MAX_COORD as int,
        0 <= height_max(s) <= MAX_COORD as int,
        0 <= last_scale_of(s) <= MAX_COORD as int,
    decreases s.len(),
{
    reveal_with_fuel(width_sum, 2);
    reveal_with_fuel(height_max, 2);
    if s.len() > 0 {
        let d = s.drop_last();
        assert forall|i: int| 0 <= i < d.len() implies (#[trigger] d[i]).primitive.metric_wf() by {
            assert(d[i] == s[i]);
        };
        lemma_word_metrics_bounds(d);
    }
}

/// Measure a word: total width, greatest height, and last segment's scale.
pub fn get_words_sizes(word: &Word) -> (r: (i64, i64, i64))
    requires
        word.metrics_wf(),
    ensures
        r.0 as int == width_sum(word.glyphs_views@),
        r.1 as int == height_max(word.glyphs_views@),
        r.2 as int == last_scale_of(word.glyphs_views@),
        0 <= r.0,
        0 <= r.1,
        0 <= r.2,
{
    proof {
        reveal_with_fuel(width_sum, 1);
        reveal_with_fuel(height_max, 1);
        assert(word.glyphs_views@.take(0) =~= Seq::<GlyphsView>::empty());
        lemma_word_metrics_bounds(word.glyphs_views@);
    }
    let mut width: i64 = 0;
    let mut height: i64 = 0;
    let mut scale: i64 = 0;
    let mut k: usize = 0;
    let m = word.glyphs_views.len();
    while k < m
        invariant
            k <= m,
            m == word.glyphs_views@.len(),
            word.metrics_wf(),
            width as int == width_sum(word.glyphs_views@.take(k as int)),
            height as int == height_max(word.glyphs_views@.take(k as int)),
            scale as int == last_scale_of(word.glyphs_views@.take(k as int)),
            0 <= width <= MAX_COORD as int,
            0 <= height <= MAX_COORD as int,
            0 <= scale <= MAX_COORD as int,
        decreases m - k,
    {
        let gv = &word.glyphs_views[k];
        proof {
            lemma_width_snoc(word.glyphs_views@, k as int);
            lemma_height_snoc(word.glyphs_views@, k as int);
            assert(word.glyphs_views@.take(k as int + 1).last() == word.glyphs_views@[k as int]);
            assert(word.glyphs_views@[k as int].primitive.metric_wf());
        }
        let (w, h, sc) = match &gv.primitive.prop {
            crate::primitives::PrimitiveProperties::Rect { rect, .. } => {
                let w = crate::num::csub(rect.right_bottom.x, rect.left_top.x);
                let h = crate::num::csub(rect.right_bottom.y, rect.left_top.y);
                (w, h, h)
            },
            crate::primitives::PrimitiveProperties::PlainText(pt) => (
                pt.size.width,
                pt.size.height,
                pt.scale,
            ),
            crate::primitives::PrimitiveProperties::Empty => (0i64, 0i64, 0i64),
        };
        width = cadd(width, w);
        height = crate::num::imax(height, h);
        scale = sc;
        k += 1;
    }
    proof {
        assert(word.glyphs_views@.take(m as int) =~= word.glyphs_views@);
    }
    (width, height, scale)
}

/// Width-with-spacing of the words in `[s, e)`: the word widths plus the
/// default spacing after every word except the last, each spacing scaled
/// by the word before it (clamped).
#[verifier::opaque]
pub open spec fn line_ws(words: Seq<Word>, s: int, e: int, vs: int) -> int
    decreases e - s,
{
    if e <= s {
        0
    } else if e == s + 1 {
        width_sum(words[s].glyphs_views@)
    } else {
        clip(
            line_ws(words, s, e - 1, vs) + clip(
                clip(vs * last_scale_of(words[e - 2].glyphs_views@)) + width_sum(
                    words[e - 1].glyphs_views@,
                ),
            ),
        )
    }
}

/// One unfolding step of `line_ws`: the first word contributes its width
/// alone; each later word adds the spacing after its predecessor plus its
/// own width.
proof fn lemma_ws_snoc(words: Seq<Word>, s: int, k: int, vs: int)
    requires
        s <= k,
    ensures
        line_ws(words, s, k + 1, vs) == if k == s {
            width_sum(words[s].glyphs_views@)
        } else {
            clip(
                line_ws(words, s, k, vs) + clip(
                    clip(vs * last_scale_of(words[k - 1].glyphs_views@)) + width_sum(
                        words[k].glyphs_views@,
                    ),
                ),
            )
        },
{
    reveal_with_fuel(line_ws, 2);
}

/// Minimum width (no spacing) of the words in `[s, e)`.
#[verifier::opaque]
pub open spec fn line_min_width(words: Seq<Word>, s: int, e: int) -> int
    decreases e - s,
{
    if e <= s {
        0
    } else {
        clip(line_min_width(words, s, e - 1) + width_sum(words[e - 1].glyphs_views@))
    }
}

/// Greatest word height of the words in `[s, e)`.
#[verifier::opaque]
pub open spec fn line_height(words: Seq<Word>, s: int, e: int) -> int
    decreases e - s,
{
    if e <= s {
        0
    } else {
        let h = line_height(words, s, e - 1);
        let lh = height_max(words[e - 1].glyphs_views@);
        if lh >= h {
            lh
        } else {
            h
        }
    }
}

/// Scale of the last word of `[s, e)` (zero when empty).
pub open spec fn line_last_scale(words: Seq<Word>, s: int, e: int) -> int {
    if e <= s {
        0
    } else {
        last_scale_of(words[e - 1].glyphs_views@)
    }
}

/// Line metric folds are non-negative and stay in the coordinate range.
pub proof fn lemma_line_metric_bounds(words: Seq<Word>, s: int, e: int, vs: int)
    requires
        forall|i: int| 0 <= i < words.len() ==> (#[trigger] words[i]).metrics_wf(),
        0 <= s,
        e <= words.len(),
        0 <= vs,
    ensures
        0 <= line_ws(words, s, e, vs) <= MAX_COORD as int,
        0 <= line_min_width(words, s, e) <= MAX_COORD as int,
        0 <= line_height(words, s, e) <= MAX_COORD as int,
        0 <= line_last_scale(words, s, e) <= MAX_COORD as int,
    decreases e - s,
{
    reveal_with_fuel(line_ws, 2);
    reveal_with_fuel(line_min_width, 2);
    reveal_with_fuel(line_height, 2);
    if e > s {
        lemma_line_metric_bounds(words, s, e - 1, vs);
        lemma_word_metrics_bounds(words[e - 1].glyphs_views@);
        if e > s + 1 {
            lemma_word_metrics_bounds(words[e - 2].glyphs_views@);
            assert(vs * last_scale_of(words[e - 2].glyphs_views@) >= 0) by (nonlinear_arith)
                requires
                    0 <= vs,
                    0 <= last_scale_of(words[e - 2].glyphs_views@),
            ;
        }
    }
}

/// Two segment lists whose primitives measure the same.
pub open spec fn same_gv_metrics(a: Seq<GlyphsView>, b: Seq<GlyphsView>) -> bool {
    &&& a.len() == b.len()
    &&& forall|j: int|
        0 <= j < a.len() ==> prim_width((#[trigger] a[j]).primitive.prop) == prim_width(
            b[j].primitive.prop,
        ) && prim_height(a[j].primitive.prop) == prim_height(b[j].primitive.prop) && prim_scale(
            a[j].primitive.prop,
        ) == prim_scale(b[j].primitive.prop)
}

/// Two word lists whose segments measure the same, word by word.
pub open spec fn same_metrics(a: Seq<Word>, b: Seq<Word>) -> bool {
    &&& a.len() == b.len()
    &&& forall|i: int| 0 <= i < a.len() ==> same_gv_metrics((#[trigger] a[i]).glyphs_views@, b[i].glyphs_views@)
}

/// The word folds depend only on the measured metrics.
pub proof fn lemma_word_folds_congruent(a: Seq<GlyphsView>, b: Seq<GlyphsView>)
    requires
        same_gv_metrics(a, b),
    ensures
        width_sum(a) == width_sum(b),
        height_max(a) == height_max(b),
        last_scale_of(a) == last_scale_of(b),
    decreases a.len(),
{
    reveal_with_fuel(width_sum, 2);
    reveal_with_fuel(height_max, 2);
    if a.len() > 0 {
        assert(same_gv_metrics(a.drop_last(), b.drop_last()));
        lemma_word_folds_congruent(a.drop_last(), b.drop_last());
    }
}

/// The line folds depend only on the words' measured metrics.
pub proof fn lemma_line_folds_congruent(a: Seq<Word>, b: Seq<Word>, s: int, e: int, vs: int)
    requires
        same_metrics(a, b),
        0 <= s,
        e <= a.len(),
    ensures
        line_ws(a, s, e, vs) == line_ws(b, s, e, vs),
        line_min_width(a, s, e) == line_min_width(b, s, e),
        line_height(a, s, e) == line_height(b, s, e),
        line_last_scale(a, s, e) == line_last_scale(b, s, e),
    decreases e - s,
{
    reveal_with_fuel(line_ws, 2);
    reveal_with_fuel(line_min_width, 2);
    reveal_with_fuel(line_height, 2);
    if e > s {
        lemma_line_folds_congruent(a, b, s, e - 1, vs);
        lemma_word_folds_congruent(a[e - 1].glyphs_views@, b[e - 1].glyphs_views@);
        if e > s + 1 {
            lemma_word_folds_congruent(a[e - 2].glyphs_views@, b[e - 2].glyphs_views@);
        }
    }
}

/// The greedy discipline and the cached metrics carry over to any word
/// list with the same measured metrics.
pub proof fn lemma_lines_congruent(lines: Seq<Line>, a: Seq<Word>, b: Seq<Word>, cw: int, vs: int)
    requires
        same_metrics(a, b),
        lines_partition(lines, a.len() as int),
        a.len() > 0 ==> forall|i: int|
            0 <= i < lines.len() ==> (#[trigger] lines[i]).range_start < lines[i].range_end,
        a.len() == 0 ==> lines.len() == 1,
        lines_greedy(lines, a, cw, vs),
        forall|i: int| 0 <= i < lines.len() ==> line_metrics_ok(a, #[trigger] lines[i], vs),
    ensures
        lines_greedy(lines, b, cw, vs),
        forall|i: int| 0 <= i < lines.len() ==> line_metrics_ok(b, #[trigger] lines[i], vs),
{
    assert forall|i: int, j: int|
        #![trigger line_ws(b, lines[i].range_start as int, j, vs)]
        0 <= i < lines.len() && lines[i].range_start < j < lines[i].range_end implies clip(
        line_ws(b, lines[i].range_start as int, j, vs) + width_sum(b[j].glyphs_views@),
    ) <= cw by {
        lemma_line_range_in_bounds(lines, a.len() as int, i);
        lemma_line_folds_congruent(a, b, lines[i].range_start as int, j, vs);
        lemma_word_folds_congruent(a[j].glyphs_views@, b[j].glyphs_views@);
        assert(clip(
            line_ws(a, lines[i].range_start as int, j, vs) + width_sum(a[j].glyphs_views@),
        ) <= cw);
    };
    assert forall|i: int|
        0 <= i < lines.len() - 1 implies clip(
        line_ws(b, (#[trigger] lines[i]).range_start as int, lines[i].range_end as int, vs)
            + width_sum(b[lines[i].range_end as int].glyphs_views@),
    ) > cw by {
        lemma_line_range_in_bounds(lines, a.len() as int, i);
        lemma_line_range_in_bounds(lines, a.len() as int, i + 1);
        assert(lines[i + 1].range_start == lines[i].range_end);
        assert((lines[i].range_end as int) < a.len()) by {
            assert(a.len() > 0) by {
                if a.len() == 0 {
                    assert(lines.len() == 1);
                }
            }
            assert(lines[i + 1].range_start < lines[i + 1].range_end);
        }
        lemma_line_folds_congruent(
            a,
            b,
            lines[i].range_start as int,
            lines[i].range_end as int,
            vs,
        );
        lemma_word_folds_congruent(
            a[lines[i].range_end as int].glyphs_views@,
            b[lines[i].range_end as int].glyphs_views@,
        );
    };
    assert forall|i: int| 0 <= i < lines.len() implies line_metrics_ok(
        b,
        #[trigger] lines[i],
        vs,
    ) by {
        lemma_line_range_in_bounds(lines, a.len() as int, i);
        lemma_line_folds_congruent(
            a,
            b,
            lines[i].range_start as int,
            lines[i].range_end as int,
            vs,
        );
    };
}

/// The line's cached metrics agree with the fold over its word range.
pub open spec fn line_metrics_ok(words: Seq<Word>, l: Line, vs: int) -> bool {
    &&& l.min_width as int == line_min_width(words, l.range_start as int, l.range_end as int)
    &&& l.height as int == line_height(words, l.range_start as int, l.range_end as int)
    &&& l.width_with_spacing as int == line_ws(
        words,
        l.range_start as int,
        l.range_end as int,
        vs,
    )
    &&& l.last_scale as int == line_last_scale(words, l.range_start as int, l.range_end as int)
}

/// The lines partition `[0, word count)`: ranges are contiguous, start at
/// zero and end at the word count.
pub open spec fn lines_partition(lines: Seq<Line>, n: int) -> bool {
    &&& lines.len() >= 1
    &&& lines[0].range_start == 0
    &&& lines.last().range_end == n
    &&& forall|i: int| 0 <= i < lines.len() ==> (#[trigger] lines[i]).range_start <= lines[i].range_end
    &&& forall|i: int|
        #![trigger lines[i], lines[i + 1]]
        0 <= i < lines.len() - 1 ==> lines[i + 1].range_start == lines[i].range_end
}

/// The greedy breaking discipline: every word that joined a line fitted at
/// the moment it was added, and the word after a closed line would not
/// have fitted.
pub open spec fn lines_greedy(lines: Seq<Line>, words: Seq<Word>, cw: int, vs: int) -> bool {
    &&& forall|i: int, j: int|
        #![trigger line_ws(words, lines[i].range_start as int, j, vs)]
        0 <= i < lines.len() && lines[i].range_start < j < lines[i].range_end ==> clip(
            line_ws(words, lines[i].range_start as int, j, vs) + width_sum(
                words[j].glyphs_views@,
            ),
        ) <= cw
    &&& forall|i: int|
        0 <= i < lines.len() - 1 ==> clip(
            line_ws(
                words,
                (#[trigger] lines[i]).range_start as int,
                lines[i].range_end as int,
                vs,
            ) + width_sum(words[lines[i].range_end as int].glyphs_views@),
        ) > cw
}

/// Break the words greedily into lines of at most `content_width`.
///
/// The returned ranges partition the word list.  The first word always
/// starts the first line; a later word starts a new line exactly when
/// the running width-with-spacing plus its width would exceed the
/// content width.  No line is empty unless the word list is (then one
/// empty line results).
pub fn get_lines(words: &Vec<Word>, content_width: i64, vertical_space: i64) -> (r: Vec<Line>)
    requires
        forall|i: int| 0 <= i < words@.len() ==> (#[trigger] words@[i]).metrics_wf(),
        in_range(content_width as int),
        0 <= vertical_space as int <= MAX_DIM as int,
    ensures
        lines_partition(r@, words@.len() as int),
        forall|i: int| 0 <= i < r@.len() ==> line_metrics_ok(words@, #[trigger] r@[i], vertical_space as int),
        lines_greedy(r@, words@, content_width as int, vertical_space as int),
        words@.len() > 0 ==> forall|i: int|
            0 <= i < r@.len() ==> (#[trigger] r@[i]).range_start < r@[i].range_end,
        words@.len() == 0 ==> r@.len() == 1,
{
    let mut lines: Vec<Line> = Vec::new();
    let mut curr = Line {
        height: 0,
        min_width: 0,
        width_with_spacing: 0,
        last_scale: 0,
        range_start: 0,
        range_end: 0,
    };
    proof {
        reveal_with_fuel(line_ws, 1);
        reveal_with_fuel(line_min_width, 1);
        reveal_with_fuel(line_height, 1);
    }
    let n = words.len();
    let mut k: usize = 0;
    while k < n
        invariant
            k <= n,
            n == words@.len(),
            forall|i: int| 0 <= i < words@.len() ==> (#[trigger] words@[i]).metrics_wf(),
            in_range(content_width as int),
            0 <= vertical_space as int <= MAX_DIM as int,
            curr.range_end == k,
            curr.range_start <= k,
            k > 0 ==> curr.range_start < curr.range_end,
            lines@.len() == 0 ==> curr.range_start == 0,
            lines@.len() > 0 ==> lines@[0].range_start == 0 && lines@.last().range_end
                == curr.range_start,
            forall|i: int|
                0 <= i < lines@.len() ==> (#[trigger] lines@[i]).range_start < lines@[i].range_end,
            forall|i: int|
                #![trigger lines@[i], lines@[i + 1]]
                0 <= i < lines@.len() - 1 ==> lines@[i + 1].range_start == lines@[i].range_end,
            line_metrics_ok(words@, curr, vertical_space as int),
            0 <= curr.min_width <= MAX_COORD as int,
            0 <= curr.width_with_spacing <= MAX_COORD as int,
            0 <= curr.height <= MAX_COORD as int,
            0 <= curr.last_scale <= MAX_COORD as int,
            forall|i: int| 0 <= i < lines@.len() ==> (#[trigger] lines@[i]).range_end < n,
            forall|i: int|
                0 <= i < lines@.len() ==> line_metrics_ok(
                    words@,
                    #[trigger] lines@[i],
                    vertical_space as int,
                ),
            forall|i: int, j: int|
                #![trigger line_ws(words@, lines@[i].range_start as int, j, vertical_space as int)]
                0 <= i < lines@.len() && lines@[i].range_start < j < lines@[i].range_end ==> clip(
                    line_ws(words@, lines@[i].range_start as int, j, vertical_space as int)
                        + width_sum(words@[j].glyphs_views@),
                ) <= content_width as int,
            forall|j: int|
                #![trigger line_ws(words@, curr.range_start as int, j, vertical_space as int)]
                curr.range_start < j < curr.range_end ==> clip(
                    line_ws(words@, curr.range_start as int, j, vertical_space as int) + width_sum(
                        words@[j].glyphs_views@,
                    ),
                ) <= content_width as int,
            forall|i: int|
                0 <= i < lines@.len() ==> clip(
                    line_ws(
                        words@,
                        (#[trigger] lines@[i]).range_start as int,
                        lines@[i].range_end as int,
                        vertical_space as int,
                    ) + width_sum(words@[lines@[i].range_end as int].glyphs_views@),
                ) > content_width as int,
        decreases n - k,
    {
        let word = &words[k];
        let (w, h, ls) = get_words_sizes(word);
        proof {
            lemma_word_metrics_bounds(word.glyphs_views@);
            lemma_ws_snoc(words@, curr.range_start as int, k as int, vertical_space as int);
            if k > 0 && curr.range_start < k {
                lemma_word_metrics_bounds(words@[k as int - 1].glyphs_views@);
            }
        }
        let candidate = cadd(curr.width_with_spacing, w);
        if curr.range_end > curr.range_start && candidate > content_width {
            let end = curr.range_end;
            let ghost prevl = lines@;
            let ghost prevc = curr;
            lines.push(curr);
            curr = Line {
                height: h,
                min_width: w,
                width_with_spacing: w,
                last_scale: ls,
                range_start: end,
                range_end: end + 1,
            };
            proof {
                reveal_with_fuel(line_min_width, 2);
                reveal_with_fuel(line_height, 2);
                lemma_ws_snoc(words@, end as int, k as int, vertical_space as int);
                assert(line_metrics_ok(words@, curr, vertical_space as int));
                assert(lines@[0] == if prevl.len() > 0 { prevl[0] } else { prevc });
                assert forall|i: int|
                    0 <= i < lines@.len() implies (#[trigger] lines@[i]).range_start
                    < lines@[i].range_end by {
                    if i < prevl.len() {
                        assert(lines@[i] == prevl[i]);
                    } else {
                        assert(lines@[i] == prevc);
                    }
                };
                assert forall|i: int|
                    #![trigger lines@[i], lines@[i + 1]]
                    0 <= i < lines@.len() - 1 implies lines@[i + 1].range_start
                    == lines@[i].range_end by {
                    assert(lines@[i] == prevl[i]);
                    if i + 1 < prevl.len() {
                        assert(lines@[i + 1] == prevl[i + 1]);
                    } else {
                        assert(lines@[i + 1] == prevc);
                    }
                };
                assert forall|i: int|
                    0 <= i < lines@.len() implies line_metrics_ok(
                    words@,
                    #[trigger] lines@[i],
                    vertical_space as int,
                ) by {
                    if i < prevl.len() {
                        assert(lines@[i] == prevl[i]);
                    } else {
                        assert(lines@[i] == prevc);
                    }
                };
                assert forall|i: int, j: int|
                    #![trigger line_ws(words@, lines@[i].range_start as int, j, vertical_space as int)]
                    0 <= i < lines@.len() && lines@[i].range_start < j < lines@[i].range_end implies clip(
                    line_ws(words@, lines@[i].range_start as int, j, vertical_space as int)
                        + width_sum(words@[j].glyphs_views@),
                ) <= content_width as int by {
                    if i < prevl.len() {
                        assert(lines@[i] == prevl[i]);
                    } else {
                        assert(lines@[i] == prevc);
                    }
                };
                assert forall|i: int|
                    0 <= i < lines@.len() implies clip(
                    line_ws(
                        words@,
                        (#[trigger] lines@[i]).range_start as int,
                        lines@[i].range_end as int,
                        vertical_space as int,
                    ) + width_sum(words@[lines@[i].range_end as int].glyphs_views@),
                ) > content_width as int by {
                    if i < prevl.len() {
                        assert(lines@[i] == prevl[i]);
                    } else {
                        assert(lines@[i] == prevc);
                        assert(lines@[i].range_end == k);
                    }
                };
                assert forall|i: int|
                    0 <= i < lines@.len() implies (#[trigger] lines@[i]).range_end < n by {
                    if i < prevl.len() {
                        assert(lines@[i] == prevl[i]);
                    } else {
                        assert(lines@[i] == prevc);
                    }
                };
            }
        } else {
            let ghost prevc = curr;
            let nws: i64 = if curr.range_end == curr.range_start {
                w
            } else {
                let sp = cmul(vertical_space, curr.last_scale);
                cadd(curr.width_with_spacing, cadd(sp, w))
            };
            curr = Line {
                height: crate::num::imax(curr.height, h),
                min_width: cadd(curr.min_width, w),
                width_with_spacing: nws,
                last_scale: ls,
                range_start: curr.range_start,
                range_end: curr.range_end + 1,
            };
            proof {
                reveal_with_fuel(line_min_width, 2);
                reveal_with_fuel(line_height, 2);
                if prevc.range_end > prevc.range_start {
                    assert(line_last_scale(
                        words@,
                        prevc.range_start as int,
                        prevc.range_end as int,
                    ) == last_scale_of(words@[k as int - 1].glyphs_views@));
                }
                assert(line_metrics_ok(words@, curr, vertical_space as int));
            }
        }
        k += 1;
    }
    let ghost prevl = lines@;
    let ghost lastc = curr;
    lines.push(curr);
    proof {
        assert forall|i: int|
            0 <= i < lines@.len() implies line_metrics_ok(
            words@,
            #[trigger] lines@[i],
            vertical_space as int,
        ) by {
            if i < prevl.len() {
                assert(lines@[i] == prevl[i]);
            } else {
                assert(lines@[i] == lastc);
            }
        };
        assert forall|i: int|
            0 <= i < lines@.len() implies (#[trigger] lines@[i]).range_start
            <= lines@[i].range_end by {
            if i < prevl.len() {
                assert(lines@[i] == prevl[i]);
            } else {
                assert(lines@[i] == lastc);
            }
        };
        assert forall|i: int|
            #![trigger lines@[i], lines@[i + 1]]
            0 <= i < lines@.len() - 1 implies lines@[i + 1].range_start == lines@[i].range_end by {
            assert(lines@[i] == prevl[i]);
            if i + 1 < prevl.len() {
                assert(lines@[i + 1] == prevl[i + 1]);
            } else {
                assert(lines@[i + 1] == lastc);
            }
        };
        assert forall|i: int, j: int|
            #![trigger line_ws(words@, lines@[i].range_start as int, j, vertical_space as int)]
            0 <= i < lines@.len() && lines@[i].range_start < j < lines@[i].range_end implies clip(
            line_ws(words@, lines@[i].range_start as int, j, vertical_space as int) + width_sum(
                words@[j].glyphs_views@,
            ),
        ) <= content_width as int by {
            if i < prevl.len() {
                assert(lines@[i] == prevl[i]);
            } else {
                assert(lines@[i] == lastc);
            }
        };
        assert forall|i: int|
            0 <= i < lines@.len() - 1 implies clip(
            line_ws(
                words@,
                (#[trigger] lines@[i]).range_start as int,
                lines@[i].range_end as int,
                vertical_space as int,
            ) + width_sum(words@[lines@[i].range_end as int].glyphs_views@),
        ) > content_width as int by {
            assert(lines@[i] == prevl[i]);
        };
        if words@.len() > 0 {
            assert forall|i: int|
                0 <= i < lines@.len() implies (#[trigger] lines@[i]).range_start
                < lines@[i].range_end by {
                if i < prevl.len() {
                    assert(lines@[i] == prevl[i]);
                } else {
                    assert(lines@[i] == lastc);
                }
            };
        }
    }
    lines
}

/// Line ends never step backwards along the partition.
pub proof fn lemma_line_ends_monotone(lines: Seq<Line>, n: int, i: int, j: int)
    requires
        lines_partition(lines, n),
        0 <= i <= j < lines.len(),
    ensures
        lines[i].range_end <= lines[j].range_end,
    decreases j - i,
{
    if i < j {
        lemma_line_ends_monotone(lines, n, i, j - 1);
        let jm = j - 1;
        assert(lines[jm + 1].range_start == lines[jm].range_end);
    }
}

/// In a partition every line's range lies within the word count.
pub proof fn lemma_line_range_in_bounds(lines: Seq<Line>, n: int, i: int)
    requires
        lines_partition(lines, n),
        0 <= i < lines.len(),
    ensures
        lines[i].range_start <= lines[i].range_end,
        lines[i].range_end <= n,
{
    lemma_line_ends_monotone(lines, n, i, lines.len() - 1);
}

/// Horizontal start offset and spacing policy for a line under a
/// justification mode.
///
/// `Width` distributes the slack `content_width - min_width` evenly over
/// the line's words as absolute spacing (truncating division); the other
/// modes keep the relative default spacing and shift the line's start.
pub fn get_line_vertical_metrics(
    justification: Option<crate::props::Justification>,
    content_width: i64,
    line: &Line,
    vertical_space: i64,
) -> (r: (i64, VerticalSpacing))
    requires
        0 <= content_width as int <= MAX_COORD as int,
        0 <= line.min_width as int <= MAX_COORD as int,
        0 <= line.width_with_spacing as int <= MAX_COORD as int,
        line.range_start <= line.range_end,
        line.range_end as int <= MAX_COORD as int,
    ensures
        ({
            let cw = content_width as int;
            let mw = line.min_width as int;
            let ws = line.width_with_spacing as int;
            let n = line.range_end as int - line.range_start as int;
            match justification {
                None | Some(crate::props::Justification::Start) => r == (
                    0i64,
                    VerticalSpacing::Relative(vertical_space),
                ),
                Some(crate::props::Justification::Width) => {
                    &&& r.0 == 0
                    &&& r.1 matches VerticalSpacing::Absolute(sp)
                    &&& spacing_value(r.1) == if n == 0 {
                        0
                    } else {
                        crate::num::tdiv(cw - mw, n)
                    }
                },
                Some(crate::props::Justification::Center) => r.0 as int == crate::num::tdiv(
                    cw - ws,
                    2,
                ) && r.1 == VerticalSpacing::Relative(vertical_space),
                Some(crate::props::Justification::End) => r.0 as int == cw - ws && r.1
                    == VerticalSpacing::Relative(vertical_space),
            }
        }),
        in_range(r.0 as int),
        match r.1 {
            VerticalSpacing::Relative(v) => v == vertical_space,
            VerticalSpacing::Absolute(v) => in_range(v as int),
        },
        // Width-justification fills the line: the minimum width plus the
        // computed spacing after each of the `n` words reaches the content
        // width up to a remainder below `n`.
        ({
            let cw = content_width as int;
            let mw = line.min_width as int;
            let n = line.range_end as int - line.range_start as int;
            justification == Some(crate::props::Justification::Width) && n > 0 && mw <= cw
                ==> ({
                let sp = crate::num::tdiv(cw - mw, n);
                mw + n * sp <= cw < mw + n * sp + n
            })
        }),
{
    match justification {
        None | Some(Justification::Start) => (0, VerticalSpacing::Relative(vertical_space)),
        Some(Justification::Width) => {
            let n_usize = line.range_end - line.range_start;
            if n_usize == 0 {
                (0, VerticalSpacing::Absolute(0))
            } else {
                let n = n_usize as i64;
                let diff = crate::num::csub(content_width, line.min_width);
                let sp = crate::num::div_pos(diff, n);
                proof {
                    let cw = content_width as int;
                    let mw = line.min_width as int;
                    if mw <= cw {
                        assert(sp as int == (cw - mw) / (n as int));
                        assert(mw + n as int * (sp as int) <= cw < mw + n as int * (sp as int)
                            + n as int) by (nonlinear_arith)
                            requires
                                sp as int == (cw - mw) / (n as int),
                                0 <= cw - mw,
                                0 < n as int,
                        ;
                    }
                }
                (0, VerticalSpacing::Absolute(sp))
            }
        },
        Some(Justification::Center) => {
            let diff = crate::num::csub(content_width, line.width_with_spacing);
            (crate::num::div_pos(diff, 2), VerticalSpacing::Relative(vertical_space))
        },
        Some(Justification::End) => (
            crate::num::csub(content_width, line.width_with_spacing),
            VerticalSpacing::Relative(vertical_space),
        ),
    }
}

/// The numeric amount a spacing policy carries.
pub open spec fn spacing_value(v: VerticalSpacing) -> int {
    match v {
        VerticalSpacing::Relative(x) => x as int,
        VerticalSpacing::Absolute(x) => x as int,
    }
}

/// The spacing a word contributes after itself: the relative default
/// scaled by the word's scale, or the absolute amount.
pub open spec fn spacing_of(vsp: VerticalSpacing, ls: int) -> int {
    match vsp {
        VerticalSpacing::Relative(v) => clip(v as int * ls),
        VerticalSpacing::Absolute(v) => v as int,
    }
}

/// Advance the pen over one segment: text segments move it by their width
/// and record their scale; other segments leave it alone.
pub open spec fn place_adv(off: int, ls: int, p: crate::primitives::PrimitiveProperties) -> (
    int,
    int,
) {
    match p {
        crate::primitives::PrimitiveProperties::PlainText(pt) => (
            clip(off + pt.size.width),
            pt.scale as int,
        ),
        _ => (off, ls),
    }
}

/// Pen state after the first `j` segments of a word, starting at `off`
/// with last scale `ls`.
#[verifier::opaque]
pub open spec fn word_place(off: int, ls: int, gvs: Seq<GlyphsView>, j: int) -> (int, int)
    decreases j,
{
    if j <= 0 {
        (off, ls)
    } else {
        let p = word_place(off, ls, gvs, j - 1);
        place_adv(p.0, p.1, gvs[j - 1].primitive.prop)
    }
}

/// Pen state after the words `[s, i)` of a line that starts at `init`;
/// the last scale starts at one, and each word is followed by its spacing.
#[verifier::opaque]
pub open spec fn line_place(
    words: Seq<Word>,
    s: int,
    i: int,
    init: int,
    vsp: VerticalSpacing,
) -> (int, int)
    decreases i - s,
{
    if i <= s {
        (init, 1)
    } else {
        let p = line_place(words, s, i - 1, init, vsp);
        let q = word_place(p.0, p.1, words[i - 1].glyphs_views@, words[i - 1].glyphs_views@.len() as int);
        (clip(q.0 + spacing_of(vsp, q.1)), q.1)
    }
}

/// The two segment properties advance the pen identically: both are
/// text with one width and scale, or both leave the pen alone.
pub open spec fn same_advance(
    p1: crate::primitives::PrimitiveProperties,
    p2: crate::primitives::PrimitiveProperties,
) -> bool {
    ||| (p1 matches crate::primitives::PrimitiveProperties::PlainText(a) && (
    p2 matches crate::primitives::PrimitiveProperties::PlainText(b) && a.size.width == b.size.width
        && a.scale == b.scale))
    ||| (!(p1 is PlainText) && !(p2 is PlainText))
}

/// Two segment lists that advance the pen identically.
pub open spec fn same_advances(a: Seq<GlyphsView>, b: Seq<GlyphsView>) -> bool {
    a.len() == b.len() && (forall|j: int|
        0 <= j < a.len() ==> same_advance(
            (#[trigger] a[j]).primitive.prop,
            b[j].primitive.prop,
        ))
}

/// The pen position depends only on the segments' advances.
pub proof fn lemma_word_place_congruent(
    off: int,
    ls: int,
    a: Seq<GlyphsView>,
    b: Seq<GlyphsView>,
    j: int,
)
    requires
        same_advances(a, b),
        0 <= j <= a.len(),
    ensures
        word_place(off, ls, a, j) == word_place(off, ls, b, j),
    decreases j,
{
    reveal_with_fuel(word_place, 2);
    if j > 0 {
        lemma_word_place_congruent(off, ls, a, b, j - 1);
        let p = word_place(off, ls, a, j - 1);
        assert(place_adv(p.0, p.1, a[j - 1].primitive.prop) == place_adv(
            p.0,
            p.1,
            b[j - 1].primitive.prop,
        ));
    }
}

/// The line's pen positions depend only on the words' advances in
/// `[s, i)`.
pub proof fn lemma_line_place_congruent(
    a: Seq<Word>,
    b: Seq<Word>,
    s: int,
    i: int,
    init: int,
    vsp: VerticalSpacing,
)
    requires
        forall|w: int|
            s <= w < i ==> same_advances((#[trigger] a[w]).glyphs_views@, b[w].glyphs_views@),
    ensures
        line_place(a, s, i, init, vsp) == line_place(b, s, i, init, vsp),
    decreases i - s,
{
    reveal_with_fuel(line_place, 2);
    if i > s {
        lemma_line_place_congruent(a, b, s, i - 1, init, vsp);
        let p = line_place(a, s, i - 1, init, vsp);
        lemma_word_place_congruent(
            p.0,
            p.1,
            a[i - 1].glyphs_views@,
            b[i - 1].glyphs_views@,
            a[i - 1].glyphs_views@.len() as int,
        );
    }
}

/// One unfolding step of `word_place`.
proof fn lemma_word_place_snoc(off: int, ls: int, gvs: Seq<GlyphsView>, j: int)
    requires
        0 <= j,
    ensures
        word_place(off, ls, gvs, j + 1) == ({
            let p = word_place(off, ls, gvs, j);
            place_adv(p.0, p.1, gvs[j].primitive.prop)
        }),
{
    reveal_with_fuel(word_place, 2);
}

/// One unfolding step of `line_place`.
proof fn lemma_line_place_snoc(words: Seq<Word>, s: int, i: int, init: int, vsp: VerticalSpacing)
    requires
        s <= i,
    ensures
        line_place(words, s, i + 1, init, vsp) == ({
            let p = line_place(words, s, i, init, vsp);
            let q = word_place(p.0, p.1, words[i].glyphs_views@, words[i].glyphs_views@.len() as int);
            (clip(q.0 + spacing_of(vsp, q.1)), q.1)
        }),
{
    reveal_with_fuel(line_place, 2);
}

/// The pen state stays inside the coordinate range.
proof fn lemma_word_place_range(off: int, ls: int, gvs: Seq<GlyphsView>, j: int)
    requires
        in_range(off),
        in_range(ls),
        forall|i: int| 0 <= i < gvs.len() ==> (#[trigger] gvs[i]).primitive.metric_wf(),
        j <= gvs.len(),
    ensures
        in_range(word_place(off, ls, gvs, j).0),
        in_range(word_place(off, ls, gvs, j).1),
    decreases j,
{
    reveal_with_fuel(word_place, 2);
    if j > 0 {
        lemma_word_place_range(off, ls, gvs, j - 1);
    }
}

/// Reposition the glyph primitives of the words of one line.
///
/// The pen starts at the line's horizontal offset and advances by each
/// text segment's width plus, after each word, the spacing policy's
/// contribution.  Every text primitive is moved to the pen position,
/// top-aligned within the line height; nothing else about any word
/// changes, and words outside the line are untouched.
#[verifier::rlimit(100)]
pub fn update_line(
    words: &mut Vec<Word>,
    line: &Line,
    content_left_top: crate::geometry::Point,
    scale: i64,
    vertical_offset: i64,
    vertical_space: VerticalSpacing,
)
    requires
        line.range_start <= line.range_end,
        line.range_end as int <= old(words)@.len(),
        forall|i: int| 0 <= i < old(words)@.len() ==> (#[trigger] old(words)@[i]).metrics_wf(),
        content_left_top.wf(),
        in_range(scale as int),
        in_range(vertical_offset as int),
        0 <= line.height as int <= MAX_COORD as int,
        ({
            match vertical_space {
                VerticalSpacing::Relative(v) => in_range(v as int),
                VerticalSpacing::Absolute(v) => in_range(v as int),
            }
        }),
    ensures
        final(words)@.len() == old(words)@.len(),
        forall|i: int|
            0 <= i < old(words)@.len() && !(line.range_start <= i < line.range_end)
                ==> final(words)@[i] == old(words)@[i],
        forall|i: int|
            line.range_start <= i < line.range_end ==> ({
                let ow = old(words)@[i];
                let nw = #[trigger] final(words)@[i];
                &&& nw.word@ == ow.word@
                &&& nw.glyphs_views@.len() == ow.glyphs_views@.len()
                &&& nw.metrics_wf()
                &&& forall|j: int|
                    0 <= j < ow.glyphs_views@.len() ==> ({
                        let og = ow.glyphs_views@[j];
                        let ng = #[trigger] nw.glyphs_views@[j];
                        &&& ng.start == og.start
                        &&& ng.end == og.end
                        &&& ng.properties == og.properties
                        &&& match og.primitive.prop {
                            crate::primitives::PrimitiveProperties::PlainText(pt) => ({
                                let pen = word_place(
                                    line_place(
                                        old(words)@,
                                        line.range_start as int,
                                        i,
                                        vertical_offset as int,
                                        vertical_space,
                                    ).0,
                                    line_place(
                                        old(words)@,
                                        line.range_start as int,
                                        i,
                                        vertical_offset as int,
                                        vertical_space,
                                    ).1,
                                    ow.glyphs_views@,
                                    j,
                                );
                                ng.primitive.prop matches crate::primitives::PrimitiveProperties::PlainText(npt)
                                    && npt.content@ == pt.content@ && npt.color == pt.color
                                    && npt.size == pt.size && npt.scale == pt.scale
                                    && npt.left_top.x as int == clip(content_left_top.x + pen.0)
                                    && npt.left_top.y as int == clip(
                                    content_left_top.y + clip(
                                        tdiv((line.height - pt.size.height) * scale, 100),
                                    ),
                                )
                            }),
                            _ => ng.primitive.prop == og.primitive.prop,
                        }
                    })
            }),
{
    let mut off: i64 = vertical_offset;
    let mut last_scale: i64 = 1;
    let mut i: usize = line.range_start;
    proof {
        reveal_with_fuel(line_place, 1);
    }
    while i < line.range_end
        invariant
            line.range_start <= i <= line.range_end,
            line.range_end as int <= words@.len(),
            words@.len() == old(words)@.len(),
            content_left_top.wf(),
            in_range(scale as int),
            0 <= line.height as int <= MAX_COORD as int,
            in_range(off as int),
            in_range(last_scale as int),
            ({
                match vertical_space {
                    VerticalSpacing::Relative(v) => in_range(v as int),
                    VerticalSpacing::Absolute(v) => in_range(v as int),
                }
            }),
            forall|x: int| 0 <= x < old(words)@.len() ==> (#[trigger] old(words)@[x]).metrics_wf(),
            (off as int, last_scale as int) == line_place(
                old(words)@,
                line.range_start as int,
                i as int,
                vertical_offset as int,
                vertical_space,
            ),
            forall|x: int|
                0 <= x < old(words)@.len() && !(line.range_start <= x < i) ==> words@[x]
                    == old(words)@[x],
            forall|x: int|
                line.range_start <= x < i ==> ({
                    let ow = old(words)@[x];
                    let nw = #[trigger] words@[x];
                    &&& nw.word@ == ow.word@
                    &&& nw.glyphs_views@.len() == ow.glyphs_views@.len()
                    &&& nw.metrics_wf()
                    &&& forall|j: int|
                        0 <= j < ow.glyphs_views@.len() ==> ({
                            let og = ow.glyphs_views@[j];
                            let ng = #[trigger] nw.glyphs_views@[j];
                            &&& ng.start == og.start
                            &&& ng.end == og.end
                            &&& ng.properties == og.properties
                            &&& match og.primitive.prop {
                                crate::primitives::PrimitiveProperties::PlainText(pt) => ({
                                    let pen = word_place(
                                        line_place(
                                            old(words)@,
                                            line.range_start as int,
                                            x,
                                            vertical_offset as int,
                                            vertical_space,
                                        ).0,
                                        line_place(
                                            old(words)@,
                                            line.range_start as int,
                                            x,
                                            vertical_offset as int,
                                            vertical_space,
                                        ).1,
                                        ow.glyphs_views@,
                                        j,
                                    );
                                    ng.primitive.prop matches crate::primitives::PrimitiveProperties::PlainText(npt)
                                        && npt.content@ == pt.content@ && npt.color == pt.color
                                        && npt.size == pt.size && npt.scale == pt.scale
                                        && npt.left_top.x as int == clip(content_left_top.x + pen.0)
                                        && npt.left_top.y as int == clip(
                                        content_left_top.y + clip(
                                            tdiv((line.height - pt.size.height) * scale, 100),
                                        ),
                                    )
                                }),
                                _ => ng.primitive.prop == og.primitive.prop,
                            }
                        })
                }),
        decreases line.range_end - i,
    {
        let ghost word_start = (off as int, last_scale as int);
        let m = words[i].glyphs_views.len();
        let mut j: usize = 0;
        proof {
            reveal_with_fuel(word_place, 1);
        }
        while j < m
            invariant
                0 <= j <= m,
                line.range_start <= i < line.range_end,
                line.range_end as int <= words@.len(),
                words@.len() == old(words)@.len(),
                m == old(words)@[i as int].glyphs_views@.len(),
                content_left_top.wf(),
                in_range(scale as int),
                0 <= line.height as int <= MAX_COORD as int,
                in_range(off as int),
                in_range(last_scale as int),
                in_range(word_start.0),
                in_range(word_start.1),
                forall|x: int|
                    0 <= x < old(words)@.len() ==> (#[trigger] old(words)@[x]).metrics_wf(),
                (off as int, last_scale as int) == word_place(
                    word_start.0,
                    word_start.1,
                    old(words)@[i as int].glyphs_views@,
                    j as int,
                ),
                forall|x: int|
                    0 <= x < old(words)@.len() && !(line.range_start <= x <= i) ==> words@[x]
                        == old(words)@[x],
                words@[i as int].word@ == old(words)@[i as int].word@,
                words@[i as int].glyphs_views@.len() == m,
                forall|q: int|
                    0 <= q < m ==> ({
                        let og = old(words)@[i as int].glyphs_views@[q];
                        let ng = (#[trigger] words@[i as int].glyphs_views@[q]);
                        &&& ng.start == og.start
                        &&& ng.end == og.end
                        &&& ng.properties == og.properties
                        &&& ng.primitive.metric_wf()
                    }),
                forall|q: int|
                    j <= q < m ==> (#[trigger] words@[i as int].glyphs_views@[q]).primitive.prop
                        == old(words)@[i as int].glyphs_views@[q].primitive.prop,
                forall|q: int|
                    0 <= q < j ==> ({
                        let og = old(words)@[i as int].glyphs_views@[q];
                        let ng = (#[trigger] words@[i as int].glyphs_views@[q]);
                        match og.primitive.prop {
                            crate::primitives::PrimitiveProperties::PlainText(pt) => ({
                                let pen = word_place(
                                    word_start.0,
                                    word_start.1,
                                    old(words)@[i as int].glyphs_views@,
                                    q,
                                );
                                ng.primitive.prop matches crate::primitives::PrimitiveProperties::PlainText(npt)
                                    && npt.content@ == pt.content@ && npt.color == pt.color
                                    && npt.size == pt.size && npt.scale == pt.scale
                                    && npt.left_top.x as int == clip(content_left_top.x + pen.0)
                                    && npt.left_top.y as int == clip(
                                    content_left_top.y + clip(
                                        tdiv((line.height - pt.size.height) * scale, 100),
                                    ),
                                )
                            }),
                            _ => ng.primitive.prop == og.primitive.prop,
                        }
                    }),
                forall|x: int|
                    line.range_start <= x < i ==> ({
                        let ow = old(words)@[x];
                        let nw = #[trigger] words@[x];
                        &&& nw.word@ == ow.word@
                        &&& nw.glyphs_views@.len() == ow.glyphs_views@.len()
                        &&& nw.metrics_wf()
                        &&& forall|jj: int|
                            0 <= jj < ow.glyphs_views@.len() ==> ({
                                let og = ow.glyphs_views@[jj];
                                let ng = #[trigger] nw.glyphs_views@[jj];
                                &&& ng.start == og.start
                                &&& ng.end == og.end
                                &&& ng.properties == og.properties
                                &&& match og.primitive.prop {
                                    crate::primitives::PrimitiveProperties::PlainText(pt) => ({
                                        let pen = word_place(
                                            line_place(
                                                old(words)@,
                                                line.range_start as int,
                                                x,
                                                vertical_offset as int,
                                                vertical_space,
                                            ).0,
                                            line_place(
                                                old(words)@,
                                                line.range_start as int,
                                                x,
                                                vertical_offset as int,
                                                vertical_space,
                                            ).1,
                                            ow.glyphs_views@,
                                            jj,
                                        );
                                        ng.primitive.prop matches crate::primitives::PrimitiveProperties::PlainText(npt)
                                            && npt.content@ == pt.content@ && npt.color == pt.color
                                            && npt.size == pt.size && npt.scale == pt.scale
                                            && npt.left_top.x as int == clip(
                                            content_left_top.x + pen.0,
                                        ) && npt.left_top.y as int == clip(
                                            content_left_top.y + clip(
                                                tdiv((line.height - pt.size.height) * scale, 100),
                                            ),
                                        )
                                    }),
                                    _ => ng.primitive.prop == og.primitive.prop,
                                }
                            })
                    }),
            decreases m - j,
        {
            proof {
                lemma_word_place_snoc(
                    word_start.0,
                    word_start.1,
                    old(words)@[i as int].glyphs_views@,
                    j as int,
                );
            }
            let is_text = match &words[i].glyphs_views[j].primitive.prop {
                crate::primitives::PrimitiveProperties::PlainText(_) => true,
                _ => false,
            };
            if is_text {
                let (w, h, sc) = match &words[i].glyphs_views[j].primitive.prop {
                    crate::primitives::PrimitiveProperties::PlainText(pt) => (
                        pt.size.width,
                        pt.size.height,
                        pt.scale,
                    ),
                    _ => (0i64, 0i64, 0i64),
                };
                let y_delta = cmuldiv(crate::num::csub(line.height, h), scale, 100);
                let new_x = cadd(content_left_top.x, off);
                let new_y = cadd(content_left_top.y, y_delta);
                let ghost gvs_before = words@[i as int].glyphs_views@;
                words[i].glyphs_views[j].primitive.set_text_position(
                    crate::geometry::Point { x: new_x, y: new_y },
                );
                proof {
                    assert(words@[i as int].glyphs_views@.len() == m);
                    assert forall|q: int|
                        0 <= q < m && q != j implies words@[i as int].glyphs_views@[q]
                        == gvs_before[q] by {
                        assert(words@[i as int].glyphs_views@ == gvs_before.update(
                            j as int,
                            words@[i as int].glyphs_views@[j as int],
                        ));
                    };
                    assert forall|q: int|
                        j + 1 <= q < m implies (#[trigger] words@[i as int].glyphs_views@[q]).primitive.prop
                        == old(words)@[i as int].glyphs_views@[q].primitive.prop by {
                        assert(words@[i as int].glyphs_views@[q] == gvs_before[q]);
                        assert(gvs_before[q].primitive.prop == old(
                            words,
                        )@[i as int].glyphs_views@[q].primitive.prop);
                    };
                    let og = old(words)@[i as int].glyphs_views@[j as int];
                    let ng = words@[i as int].glyphs_views@[j as int];
                    match og.primitive.prop {
                        crate::primitives::PrimitiveProperties::PlainText(pt) => {
                            assert(ng.primitive.prop matches crate::primitives::PrimitiveProperties::PlainText(npt)
                                && npt.content@ == pt.content@ && npt.color == pt.color
                                && npt.size == pt.size && npt.scale == pt.scale
                                && npt.left_top.x == new_x && npt.left_top.y == new_y);
                        },
                        _ => {
                            assert(false);
                        },
                    }
                }
                off = cadd(off, w);
                last_scale = sc;
            }
            j += 1;
        }
        proof {
            lemma_line_place_snoc(
                old(words)@,
                line.range_start as int,
                i as int,
                vertical_offset as int,
                vertical_space,
            );
        }
        let sp = match vertical_space {
            VerticalSpacing::Relative(v) => cmul(v, last_scale),
            VerticalSpacing::Absolute(v) => v,
        };
        off = cadd(off, sp);
        i += 1;
    }
}

} // verus!
