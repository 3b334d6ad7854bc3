//! The run segmenter: splits a paragraph's styled text runs into words.
//!
//! Whitespace graphemes separate words and are stored nowhere; a word may
//! span several runs.  Within a word, each grapheme carries the properties
//! of the run it came from; adjacent graphemes with equal properties share
//! one style segment.

use vstd::prelude::*;

use crate::props::{props_eq_spec, TextNode, TextProperties};
use crate::unicode::{blank_of, grapheme_split, graphemes_of, is_blank};
use crate::primitives::Primitive;
use crate::word::{segs_of, GlyphsView, SegV, Word};

verus! {

/// A grapheme cluster tagged with the properties of the run it came from.
pub struct TaggedGrapheme {
    pub g: Seq<char>,
    pub props: TextProperties,
}

/// The tagged graphemes of one run.
pub open spec fn tags_of_run(t: TextNode) -> Seq<TaggedGrapheme> {
    grapheme_split(t.content@).map_values(|g: Seq<char>| TaggedGrapheme { g, props: t.properties })
}

/// The tagged graphemes of all runs, in order.
pub open spec fn tagged_of(texts: Seq<TextNode>) -> Seq<TaggedGrapheme> {
    texts.map_values(|t: TextNode| tags_of_run(t)).flatten()
}

/// Split a tagged grapheme sequence at every whitespace grapheme.  The
/// result always holds one (possibly empty) trailing word in progress;
/// consecutive separators leave empty words behind.
#[verifier::opaque]
pub open spec fn split_tagged(s: Seq<TaggedGrapheme>) -> Seq<Seq<TaggedGrapheme>>
    decreases s.len(),
{
    if s.len() == 0 {
        seq![Seq::<TaggedGrapheme>::empty()]
    } else {
        let l = split_tagged(s.drop_last());
        if blank_of(s.last().g) {
            l.push(Seq::<TaggedGrapheme>::empty())
        } else {
            l.update(l.len() - 1, l.last().push(s.last()))
        }
    }
}

/// Group a word's tagged graphemes into style segments: a grapheme joins
/// the previous segment when its properties are equal, else starts a new
/// one.
#[verifier::opaque]
pub open spec fn group_props(ts: Seq<TaggedGrapheme>) -> Seq<SegV>
    decreases ts.len(),
{
    if ts.len() == 0 {
        Seq::<SegV>::empty()
    } else {
        let m = group_props(ts.drop_last());
        if m.len() > 0 && props_eq_spec(m.last().props, ts.last().props) {
            m.update(
                m.len() - 1,
                SegV { start: m.last().start, end: ts.len() as int, props: m.last().props },
            )
        } else {
            m.push(SegV { start: ts.len() - 1, end: ts.len() as int, props: ts.last().props })
        }
    }
}

/// The text of a modelled word: its graphemes without their tags.
pub open spec fn word_text_of(ts: Seq<TaggedGrapheme>) -> Seq<Seq<char>> {
    ts.map_values(|t: TaggedGrapheme| t.g)
}

/// Only the nonempty chunks of a split, in order.
#[verifier::opaque]
pub open spec fn keep_nonempty(s: Seq<Seq<TaggedGrapheme>>) -> Seq<Seq<TaggedGrapheme>>
    decreases s.len(),
{
    if s.len() == 0 {
        s
    } else {
        let m = keep_nonempty(s.drop_last());
        if s.last().len() > 0 {
            m.push(s.last())
        } else {
            m
        }
    }
}

/// One unfolding step of `keep_nonempty`.
proof fn lemma_keep_snoc(s: Seq<Seq<TaggedGrapheme>>, x: Seq<TaggedGrapheme>)
    ensures
        keep_nonempty(s.push(x)) == if x.len() > 0 {
            keep_nonempty(s).push(x)
        } else {
            keep_nonempty(s)
        },
{
    reveal_with_fuel(keep_nonempty, 2);
    assert(s.push(x).drop_last() =~= s);
    assert(s.push(x).last() == x);
}

/// Every kept chunk is nonempty.
proof fn lemma_keep_nonempty_elems(s: Seq<Seq<TaggedGrapheme>>)
    ensures
        forall|i: int| 0 <= i < keep_nonempty(s).len() ==> (#[trigger] keep_nonempty(s)[i]).len()
            > 0,
    decreases s.len(),
{
    reveal_with_fuel(keep_nonempty, 2);
    if s.len() > 0 {
        lemma_keep_nonempty_elems(s.drop_last());
        let d = keep_nonempty(s.drop_last());
        assert forall|i: int|
            0 <= i < keep_nonempty(s).len() implies (#[trigger] keep_nonempty(s)[i]).len()
            > 0 by {
            if i < d.len() {
                assert(keep_nonempty(s)[i] == d[i]);
            }
        };
    }
}

/// The words of a paragraph's runs: the maximal nonempty runs of
/// non-whitespace graphemes of the concatenated contents, in order.
pub open spec fn segmented_words(texts: Seq<TextNode>) -> Seq<Seq<TaggedGrapheme>> {
    keep_nonempty(split_tagged(tagged_of(texts)))
}

/// `split_tagged` always yields at least the word in progress.
pub proof fn lemma_split_nonempty(s: Seq<TaggedGrapheme>)
    ensures
        split_tagged(s).len() >= 1,
    decreases s.len(),
{
    reveal_with_fuel(split_tagged, 2);
    if s.len() > 0 {
        lemma_split_nonempty(s.drop_last());
    }
}

/// One unfolding step of `split_tagged`.
proof fn lemma_split_snoc(s: Seq<TaggedGrapheme>, x: TaggedGrapheme)
    ensures
        ({
            let l = split_tagged(s);
            split_tagged(s.push(x)) == if blank_of(x.g) {
                l.push(Seq::<TaggedGrapheme>::empty())
            } else {
                l.update(l.len() - 1, l.last().push(x))
            }
        }),
{
    reveal_with_fuel(split_tagged, 2);
    assert(s.push(x).drop_last() =~= s);
    assert(s.push(x).last() == x);
}

/// One unfolding step of `group_props`.
proof fn lemma_group_snoc(ts: Seq<TaggedGrapheme>, x: TaggedGrapheme)
    ensures
        ({
            let m = group_props(ts);
            group_props(ts.push(x)) == if m.len() > 0 && props_eq_spec(m.last().props, x.props) {
                m.update(
                    m.len() - 1,
                    SegV {
                        start: m.last().start,
                        end: (ts.len() + 1) as int,
                        props: m.last().props,
                    },
                )
            } else {
                m.push(SegV { start: ts.len() as int, end: (ts.len() + 1) as int, props: x.props })
            }
        }),
{
    reveal_with_fuel(group_props, 2);
    assert(ts.push(x).drop_last() =~= ts);
    assert(ts.push(x).last() == x);
}

/// Append one non-whitespace grapheme to the word under construction: the
/// grapheme joins the trailing style segment when the run's properties
/// equal that segment's, else it opens a new segment.
pub fn push_grapheme_to_curr_word(properties: &TextProperties, curr_word: &mut Word, g: String)
    requires
        old(curr_word).wf(),
    ensures
        final(curr_word).text() == old(curr_word).text().push(g@),
        final(curr_word).segs() == ({
            let s = old(curr_word).segs();
            let n = old(curr_word).text().len() as int;
            if s.len() > 0 && props_eq_spec(s.last().props, *properties) {
                s.update(s.len() - 1, SegV { start: s.last().start, end: n + 1, props: s.last().props })
            } else {
                s.push(SegV { start: n, end: n + 1, props: *properties })
            }
        }),
        final(curr_word).wf(),
        old(curr_word).merged() ==> final(curr_word).merged(),
        old(curr_word).metrics_wf() ==> final(curr_word).metrics_wf(),
{
    let ghost oldsegs = curr_word.segs();
    let ghost n = curr_word.word@.len() as int;
    curr_word.word.push(g);
    proof {
        assert(curr_word.text() =~= old(curr_word).text().push(g@));
    }
    let glen = curr_word.glyphs_views.len();
    if glen > 0 && curr_word.glyphs_views[glen - 1].properties.props_eq(properties) {
        let new_end = curr_word.word.len();
        curr_word.glyphs_views[glen - 1].end = new_end;
        proof {
            let u = SegV {
                start: oldsegs.last().start,
                end: n + 1,
                props: oldsegs.last().props,
            };
            assert(curr_word.segs() =~= oldsegs.update(oldsegs.len() - 1, u));
            if old(curr_word).merged() {
                crate::word::lemma_adj_distinct_update(oldsegs, u);
            }
            crate::word::lemma_chain_update(oldsegs, u);
        }
    } else {
        let start = curr_word.word.len() - 1;
        let end = curr_word.word.len();
        curr_word.glyphs_views.push(
            GlyphsView {
                start,
                end,
                properties: properties.clone(),
                primitive: Primitive::empty(),
            },
        );
        proof {
            let v = SegV { start: n, end: n + 1, props: *properties };
            assert(curr_word.segs() =~= oldsegs.push(v));
            if old(curr_word).merged() {
                crate::word::lemma_adj_distinct_push(oldsegs, v);
            }
            crate::word::lemma_chain_push(oldsegs, v);
        }
    }
}

/// The segmenter's running state agrees with the model: the finished
/// words mirror the nonempty chunks already closed, and the word in
/// progress mirrors the trailing chunk of `split_tagged`.
pub open spec fn segmenter_inv(words: Seq<Word>, cur: Word, pref: Seq<TaggedGrapheme>) -> bool {
    let ws = split_tagged(pref);
    let done = keep_nonempty(ws.drop_last());
    &&& words.len() == done.len()
    &&& forall|i: int|
        0 <= i < words.len() ==> (#[trigger] words[i]).text() == word_text_of(done[i])
            && words[i].segs() == group_props(done[i]) && words[i].wf() && words[i].merged()
            && words[i].metrics_wf()
    &&& cur.text() == word_text_of(ws.last())
    &&& cur.segs() == group_props(ws.last())
    &&& cur.wf()
    &&& cur.merged()
    &&& cur.metrics_wf()
    &&& forall|i: int, j: int|
        0 <= i < words.len() && 0 <= j < (#[trigger] words[i]).text().len() ==> (
        #[trigger] words[i].text()[j]).len() > 0
    &&& forall|j: int| 0 <= j < cur.text().len() ==> (#[trigger] cur.text()[j]).len() > 0
}

/// Appending one run's tags to the tagged graphemes of the runs before it.
proof fn lemma_tagged_snoc(texts: Seq<TextNode>, t: int)
    requires
        0 <= t < texts.len(),
    ensures
        tagged_of(texts.take(t + 1)) == tagged_of(texts.take(t)) + tags_of_run(texts[t]),
{
    let f = |x: TextNode| tags_of_run(x);
    assert(texts.take(t + 1).map_values(f) =~= texts.take(t).map_values(f).push(
        tags_of_run(texts[t]),
    ));
    texts.take(t).map_values(f).lemma_flatten_push(tags_of_run(texts[t]));
    assert(tagged_of(texts.take(t + 1)) =~= tagged_of(texts.take(t)) + tags_of_run(texts[t]));
}

/// Split a paragraph's styled runs into words: exactly the maximal
/// nonempty runs of non-whitespace graphemes of the concatenated run
/// contents, in order (a word may span run boundaries).  Whitespace is
/// stored nowhere and no word is empty.  Each grapheme carries its run's
/// The words stand exactly for the segmentation of the given runs:
/// one word per nonempty run of non-whitespace graphemes, each carrying
/// that run's text and style segments, well-formed and merged.
pub open spec fn words_segmented(ws: Seq<Word>, texts: Seq<TextNode>) -> bool {
    let sw = segmented_words(texts);
    &&& ws.len() == sw.len()
    &&& forall|i: int|
        0 <= i < ws.len() ==> (#[trigger] ws[i]).text() == word_text_of(sw[i]) && ws[i].segs()
            == group_props(sw[i])
    &&& forall|i: int|
        0 <= i < ws.len() ==> (#[trigger] ws[i]).wf() && ws[i].merged() && ws[i].metrics_wf()
            && ws[i].text().len() > 0
}

/// properties; every word comes out well-formed with its equal-style
/// neighbours merged.
pub fn get_words(texts: &Vec<TextNode>) -> (r: Vec<Word>)
    ensures
        ({
            let ws = segmented_words(texts@);
            &&& r@.len() == ws.len()
            &&& forall|i: int|
                0 <= i < r@.len() ==> (#[trigger] r@[i]).text() == word_text_of(ws[i])
                    && r@[i].segs() == group_props(ws[i])
        }),
        forall|i: int|
            0 <= i < r@.len() ==> (#[trigger] r@[i]).wf() && r@[i].merged()
                && r@[i].metrics_wf(),
        forall|i: int| 0 <= i < r@.len() ==> (#[trigger] r@[i]).text().len() > 0,
        forall|i: int, j: int|
            0 <= i < r@.len() && 0 <= j < (#[trigger] r@[i]).text().len() ==> (
            #[trigger] r@[i].text()[j]).len() > 0,
{
    let mut words: Vec<Word> = Vec::new();
    let n = texts.len();
    if n == 0 {
        proof {
            reveal_with_fuel(split_tagged, 2);
            reveal_with_fuel(keep_nonempty, 2);
            assert(texts@.map_values(|t: TextNode| tags_of_run(t)) =~= Seq::<
                Seq<TaggedGrapheme>,
            >::empty());
            assert(tagged_of(texts@) =~= Seq::<TaggedGrapheme>::empty());
            assert(segmented_words(texts@) =~= Seq::<Seq<TaggedGrapheme>>::empty());
        }
        return words;
    }
    let mut cur = Word::new_empty();
    let ghost mut pref = Seq::<TaggedGrapheme>::empty();
    proof {
        reveal_with_fuel(split_tagged, 1);
        reveal_with_fuel(group_props, 1);
        reveal_with_fuel(keep_nonempty, 1);
        assert(word_text_of(Seq::<TaggedGrapheme>::empty()) =~= Seq::<Seq<char>>::empty());
        assert(cur.text() =~= word_text_of(split_tagged(pref).last()));
        assert(cur.segs() =~= group_props(split_tagged(pref).last()));
        assert(split_tagged(pref).drop_last() =~= Seq::<Seq<TaggedGrapheme>>::empty());
    }
    let mut ti: usize = 0;
    while ti < n
        invariant
            ti <= n,
            n == texts@.len(),
            pref == tagged_of(texts@.take(ti as int)),
            segmenter_inv(words@, cur, pref),
        decreases n - ti,
    {
        let gs = graphemes_of(texts[ti].content.as_str());
        let gn = gs.len();
        let ghost run = tags_of_run(texts@[ti as int]);
        proof {
            assert(run.len() == gs@.len()) by {
                assert(gs@.map_values(|g: String| g@).len() == grapheme_split(
                    texts@[ti as int].content@,
                ).len());
            }
        }
        let mut gi: usize = 0;
        while gi < gn
            invariant
                gi <= gn,
                gn == gs@.len(),
                forall|i: int| 0 <= i < gs@.len() ==> (#[trigger] gs@[i])@.len() > 0,
                ti < n,
                n == texts@.len(),
                run == tags_of_run(texts@[ti as int]),
                run.len() == gn,
                gs@.map_values(|g: String| g@) == grapheme_split(texts@[ti as int].content@),
                pref == tagged_of(texts@.take(ti as int)) + run.take(gi as int),
                segmenter_inv(words@, cur, pref),
            decreases gn - gi,
        {
            let g = gs[gi].clone();
            let ghost x = run[gi as int];
            proof {
                assert(x.g == gs@[gi as int]@) by {
                    assert(gs@.map_values(|g2: String| g2@)[gi as int] == grapheme_split(
                        texts@[ti as int].content@,
                    )[gi as int]);
                }
                assert(x.props == texts@[ti as int].properties);
                lemma_split_snoc(pref, x);
                lemma_split_nonempty(pref);
                assert(run.take(gi as int).push(x) =~= run.take(gi as int + 1));
            }
            let ghost ws = split_tagged(pref);
            if is_blank(g.as_str()) {
                let ghost prevw = words@;
                let ghost oldcur = cur;
                if cur.word.len() > 0 {
                    words.push(cur);
                    cur = Word::new_empty();
                }
                proof {
                    pref = pref.push(x);
                    reveal_with_fuel(group_props, 1);
                    assert(word_text_of(Seq::<TaggedGrapheme>::empty())
                        =~= Seq::<Seq<char>>::empty());
                    let ws2 = split_tagged(pref);
                    assert(ws2 == ws.push(Seq::<TaggedGrapheme>::empty()));
                    assert(ws2.drop_last() =~= ws);
                    assert(ws =~= ws.drop_last().push(ws.last()));
                    lemma_keep_snoc(ws.drop_last(), ws.last());
                    let done2 = keep_nonempty(ws2.drop_last());
                    assert(oldcur.text().len() == ws.last().len());
                    if oldcur.word.len() > 0 {
                        assert(done2 == keep_nonempty(ws.drop_last()).push(ws.last()));
                        assert forall|i: int|
                            0 <= i < words@.len() implies (#[trigger] words@[i]).text()
                            == word_text_of(done2[i]) && words@[i].segs() == group_props(
                            done2[i],
                        ) && words@[i].wf() && words@[i].merged()
                            && words@[i].metrics_wf() by {
                            if i < words@.len() - 1 {
                                assert(words@[i] == prevw[i]);
                                assert(done2[i] == keep_nonempty(ws.drop_last())[i]);
                            } else {
                                assert(words@[i] == oldcur);
                                assert(done2[i] == ws.last());
                            }
                        };
                        assert(cur.text() =~= word_text_of(ws2.last()));
                        assert(cur.segs() =~= group_props(ws2.last()));
                    } else {
                        assert(ws.last().len() == 0);
                        assert(done2 == keep_nonempty(ws.drop_last()));
                        assert(cur.text() =~= word_text_of(ws2.last()));
                        assert(cur.segs() =~= group_props(ws2.last()));
                    }
                }
            } else {
                push_grapheme_to_curr_word(&texts[ti].properties, &mut cur, g);
                proof {
                    pref = pref.push(x);
                    lemma_group_snoc(ws.last(), x);
                    let ws2 = split_tagged(pref);
                    assert(ws2 == ws.update(ws.len() - 1, ws.last().push(x)));
                    assert(ws2.last() == ws.last().push(x));
                    assert(cur.text() =~= word_text_of(ws2.last()));
                    assert(word_text_of(ws.last()).len() == ws.last().len());
                    assert(cur.segs() == group_props(ws2.last()));
                    assert(ws2.drop_last() =~= ws.drop_last());
                }
            }
            gi += 1;
        }
        proof {
            assert(run.take(gn as int) =~= run);
            lemma_tagged_snoc(texts@, ti as int);
        }
        ti += 1;
    }
    proof {
        assert(texts@.take(n as int) =~= texts@);
    }
    let ghost lastcur = cur;
    let ghost prevw = words@;
    let ghost ws = split_tagged(tagged_of(texts@));
    proof {
        lemma_split_nonempty(tagged_of(texts@));
        assert(ws =~= ws.drop_last().push(ws.last()));
        lemma_keep_snoc(ws.drop_last(), ws.last());
        assert(lastcur.text().len() == ws.last().len());
    }
    if cur.word.len() > 0 {
        proof {
            assert(lastcur.word@.len() > 0);
            assert(ws.last().len() > 0);
        }
        words.push(cur);
        proof {
            assert(ws =~= ws.drop_last().push(ws.last()));
            lemma_keep_snoc(ws.drop_last(), ws.last());
            assert(keep_nonempty(ws.drop_last().push(ws.last())) == keep_nonempty(
                ws.drop_last(),
            ).push(ws.last()));
            assert(keep_nonempty(ws) == keep_nonempty(ws.drop_last()).push(ws.last()));
            assert(pref == tagged_of(texts@));
            assert(split_tagged(pref) == ws);
            assert(segmented_words(texts@) == keep_nonempty(ws));
            assert forall|i: int|
                0 <= i < words@.len() implies (#[trigger] words@[i]).text() == word_text_of(
                segmented_words(texts@)[i],
            ) && words@[i].segs() == group_props(segmented_words(texts@)[i]) && words@[i].wf()
                && words@[i].merged() && words@[i].metrics_wf() && words@[i].text().len() > 0 by {
                if i == words@.len() - 1 {
                    assert(words@[i] == lastcur);
                    assert(segmented_words(texts@)[i] == ws.last());
                    assert(lastcur.text() == word_text_of(ws.last()));
                    assert(lastcur.text().len() > 0);
                } else {
                    assert(words@[i] == prevw[i]);
                    assert(segmented_words(texts@)[i] == keep_nonempty(ws.drop_last())[i]);
                    assert(prevw[i].text() == word_text_of(keep_nonempty(ws.drop_last())[i]));
                    lemma_keep_nonempty_elems(ws.drop_last());
                    assert(keep_nonempty(ws.drop_last())[i].len() > 0);
                }
            };
        }
    } else {
        proof {
            assert(ws.last().len() == 0);
            assert(ws =~= ws.drop_last().push(ws.last()));
            lemma_keep_snoc(ws.drop_last(), ws.last());
            assert(keep_nonempty(ws) == keep_nonempty(ws.drop_last()));
            assert forall|i: int|
                0 <= i < words@.len() implies (#[trigger] words@[i]).text().len() > 0 by {
                lemma_keep_nonempty_elems(ws.drop_last());
                assert(words@[i].text().len() == keep_nonempty(ws.drop_last())[i].len());
            };
        }
    }
    proof {
        assert forall|i: int|
            0 <= i < words@.len() implies (#[trigger] words@[i]).text().len() > 0 by {
            lemma_keep_nonempty_elems(ws.drop_last());
            if i < prevw.len() {
                assert(words@[i] == prevw[i]);
                assert(prevw[i].text().len() == keep_nonempty(ws.drop_last())[i].len());
            } else {
                assert(words@[i] == lastcur);
            }
        };
        assert forall|i: int, j: int|
            0 <= i < words@.len() && 0 <= j < (#[trigger] words@[i]).text().len() implies (
            #[trigger] words@[i].text()[j]).len() > 0 by {
            if i >= prevw.len() {
                assert(words@[i] == lastcur);
            } else {
                assert(words@[i] == prevw[i]);
            }
        };
    }
    words
}

} // verus!
