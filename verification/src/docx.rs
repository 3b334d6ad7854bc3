//! The parsed document model: a font table, a content tree of paragraph
//! and section nodes, and the readers that build it from the document
//! format's element tree.

use vstd::prelude::*;
use vstd::string::{StringExecFns, StringSliceAdditionalSpecFns};

use crate::props::{
    Color, DocumentGrid, FormProt, GridType, Justification, LineRule, NumType, PageMargin,
    PageSize, PageType, ParagraphProperties, SectrOfProperties, SpacingProperties, TextDirection,
    TextNode, TextProperties, TextSize, TextWeight,
};
use crate::xml::{Element, Node, WordXMLDocument};

verus! {

/// What a well-formed document element tree must provide.
#[derive(Clone, Copy, Debug, PartialEq, Eq, Structural)]
pub enum DocxError {
    BadRootName,
    MissingBody,
    MissingPageSize,
    MissingPageMargin,
    MissingFontName,
}

/// A font known to the document, with the packed graphemes that were seen
/// in its text runs.
#[derive(Debug)]
pub struct FontProperties {
    pub name: String,
    pub variants: Vec<i32>,
}

/// A font variant request: a size and the packed graphemes it must cover.
#[derive(Debug)]
pub struct FontVariant {
    pub font_size: usize,
    pub chars: Vec<i32>,
}

/// The document's font table; the default font sits at index zero.
#[derive(Debug)]
pub struct FontTable {
    pub fonts: Vec<FontProperties>,
    pub default_font: usize,
}

impl FontProperties {
    /// The packed variants are stored without duplicates.
    pub open spec fn wf(self) -> bool {
        forall|i: int, j: int|
            0 <= i < j < self.variants@.len() ==> #[trigger] self.variants@[i]
                != #[trigger] self.variants@[j]
    }
}

impl FontTable {
    pub open spec fn wf(self) -> bool {
        forall|i: int| 0 <= i < self.fonts@.len() ==> (#[trigger] self.fonts@[i]).wf()
    }

    pub fn new_empty() -> (r: FontTable)
        ensures
            r.fonts@.len() == 0,
            r.default_font == 0,
            r.wf(),
    {
        FontTable { fonts: Vec::new(), default_font: 0 }
    }
}

/// The packed form of a grapheme cluster: its first four encoded bytes
/// as a little-endian number.
pub open spec fn pack_bytes(bs: Seq<u8>) -> int {
    if bs.len() == 0 {
        0
    } else if bs.len() == 1 {
        bs[0] as int
    } else if bs.len() == 2 {
        bs[0] + bs[1] * 0x100
    } else if bs.len() == 3 {
        bs[0] + bs[1] * 0x100 + bs[2] * 0x1_0000
    } else {
        bs[0] + bs[1] * 0x100 + bs[2] * 0x1_0000 + bs[3] * 0x100_0000
    }
}

/// Pack a grapheme cluster into a single number: its first four encoded
/// bytes, least significant first.
pub fn grapheme_to_i32(grapheme: &str) -> (r: i32)
    ensures
        r as u32 as int == pack_bytes(grapheme.spec_bytes()),
{
    let bs = grapheme.as_bytes();
    let n = bs.len();
    let mut acc: u32 = 0;
    if n > 0 {
        acc = bs[0] as u32;
    }
    if n > 1 {
        acc = acc + (bs[1] as u32) * 0x100;
    }
    if n > 2 {
        acc = acc + (bs[2] as u32) * 0x1_0000;
    }
    if n > 3 {
        let hi = bs[3] as u32;
        proof {
            assert(acc < 0x100_0000);
            assert(hi * 0x100_0000 <= 255 * 0x100_0000) by (nonlinear_arith)
                requires
                    hi <= 255,
            ;
        }
        acc = acc + hi * 0x100_0000;
    }
    let r = #[verifier::truncate] (acc as i32);
    proof {
        assert(r as u32 == acc) by (bit_vector)
            requires
                r == #[verifier::truncate] (acc as i32),
        ;
    }
    r
}

/// Membership of a packed variant.
pub open spec fn has_variant(vs: Seq<i32>, v: i32) -> bool {
    exists|i: int| 0 <= i < vs.len() && vs[i] == v
}

/// The packed variant of a grapheme, as the signed word it is stored as.
pub open spec fn packed_of(g: Seq<char>) -> i32 {
    (pack_bytes(vstd::utf8::encode_utf8(g)) as u32) as i32
}

/// Some grapheme of the text packs to `x`.
pub open spec fn text_has_packed(t: Seq<char>, x: i32) -> bool {
    exists|j: int|
        0 <= j < crate::unicode::grapheme_split(t).len() && x == packed_of(
            #[trigger] crate::unicode::grapheme_split(t)[j],
        )
}

/// The packed form of a grapheme string is `packed_of` of its characters.
proof fn lemma_packed_roundtrip(r: i32, g: Seq<char>)
    requires
        r as u32 as int == pack_bytes(vstd::utf8::encode_utf8(g)),
    ensures
        r == packed_of(g),
{
    let p = pack_bytes(vstd::utf8::encode_utf8(g));
    assert(p as u32 == r as u32);
    assert((r as u32) as i32 == r) by (bit_vector);
}

impl FontProperties {
    /// Record a packed variant, keeping the list duplicate-free.
    fn insert_variant(&mut self, v: i32)
        requires
            old(self).wf(),
        ensures
            final(self).wf(),
            final(self).name == old(self).name,
            forall|x: i32|
                has_variant(final(self).variants@, x) == (has_variant(old(self).variants@, x) || x
                    == v),
    {
        let n = self.variants.len();
        let mut k: usize = 0;
        while k < n
            invariant
                k <= n,
                n == self.variants@.len(),
                *self == *old(self),
                old(self).wf(),
                forall|j: int| 0 <= j < k ==> self.variants@[j] != v,
            decreases n - k,
        {
            if self.variants[k] == v {
                proof {
                    assert(self.variants@[k as int] == v);
                    assert(has_variant(self.variants@, v));
                }
                return ;
            }
            k += 1;
        }
        let ghost prev = self.variants@;
        self.variants.push(v);
        proof {
            assert forall|x: i32|
                has_variant(self.variants@, x) == (has_variant(prev, x) || x == v) by {
                if has_variant(prev, x) {
                    let i = choose|i: int| 0 <= i < prev.len() && prev[i] == x;
                    assert(self.variants@[i] == x);
                }
                if x == v {
                    assert(self.variants@[prev.len() as int] == x);
                }
                if has_variant(self.variants@, x) {
                    let i = choose|i: int|
                        0 <= i < self.variants@.len() && self.variants@[i] == x;
                    if i < prev.len() {
                        assert(prev[i] == x);
                    }
                }
            }
            assert forall|i: int, j: int|
                0 <= i < j < self.variants@.len() implies #[trigger] self.variants@[i]
                != #[trigger] self.variants@[j] by {
                if j < prev.len() {
                    assert(prev[i] == self.variants@[i] && prev[j] == self.variants@[j]);
                } else {
                    assert(self.variants@[j] == v);
                    assert(prev[i] == self.variants@[i]);
                    assert(prev[i] != v);
                }
            }
        }
    }
}

impl FontTable {
    /// The position of the first font entry with the given name.
    fn find_font_idx(&self, name: &str) -> (r: Option<usize>)
        ensures
            match r {
                Some(i) => i < self.fonts@.len() && self.fonts@[i as int].name@ == name@ && (
                forall|j: int| 0 <= j < i ==> (#[trigger] self.fonts@[j]).name@ != name@),
                None => forall|j: int|
                    0 <= j < self.fonts@.len() ==> (#[trigger] self.fonts@[j]).name@ != name@,
            },
    {
        let n = self.fonts.len();
        let mut k: usize = 0;
        while k < n
            invariant
                k <= n,
                n == self.fonts@.len(),
                forall|j: int| 0 <= j < k ==> (#[trigger] self.fonts@[j]).name@ != name@,
            decreases n - k,
        {
            if crate::strutil::string_eq_str(&self.fonts[k].name, name) {
                return Some(k);
            }
            k += 1;
        }
        None
    }

    /// Record text under a named font.  The first existing entry of that
    /// name is reused exactly when one exists, else a new entry of that
    /// name is appended; either way the entry gains exactly the text's
    /// packed graphemes, and the handle of the entry is returned.
    pub fn init_or_push_to_font(&mut self, font_name: String, text: String) -> (r: usize)
        requires
            old(self).wf(),
        ensures
            final(self).wf(),
            r < final(self).fonts@.len(),
            final(self).fonts@[r as int].name@ == font_name@,
            final(self).default_font == old(self).default_font,
            forall|i: int|
                0 <= i < old(self).fonts@.len() && i != r ==> final(self).fonts@[i] == old(
                    self,
                ).fonts@[i],
            // an existing name is reused at its first position ...
            (exists|j: int|
                0 <= j < old(self).fonts@.len() && (#[trigger] old(self).fonts@[j]).name@
                    == font_name@) ==> ({
                &&& final(self).fonts@.len() == old(self).fonts@.len()
                &&& r < old(self).fonts@.len()
                &&& old(self).fonts@[r as int].name@ == font_name@
                &&& forall|j: int|
                    0 <= j < r ==> (#[trigger] old(self).fonts@[j]).name@ != font_name@
                &&& forall|x: i32|
                    has_variant(final(self).fonts@[r as int].variants@, x) == (has_variant(
                        old(self).fonts@[r as int].variants@,
                        x,
                    ) || text_has_packed(text@, x))
            }),
            // ... else a fresh entry is appended holding the text's graphemes
            (forall|j: int|
                0 <= j < old(self).fonts@.len() ==> (#[trigger] old(self).fonts@[j]).name@
                    != font_name@) ==> ({
                &&& final(self).fonts@.len() == old(self).fonts@.len() + 1
                &&& r == old(self).fonts@.len()
                &&& forall|x: i32|
                    has_variant(final(self).fonts@[r as int].variants@, x) == text_has_packed(
                        text@,
                        x,
                    )
            }),
    {
        let n = self.fonts.len();
        let found = self.find_font_idx(font_name.as_str());
        if let Some(found) = found {
            let gs = crate::unicode::graphemes_of(text.as_str());
            let ghost gsplit = crate::unicode::grapheme_split(text@);
            let gn = gs.len();
            let mut gi: usize = 0;
            while gi < gn
                invariant
                    gi <= gn,
                    gn == gs@.len(),
                    gs@.map_values(|g: String| g@) == gsplit,
                    gsplit == crate::unicode::grapheme_split(text@),
                    found < self.fonts@.len(),
                    self.fonts@.len() == old(self).fonts@.len(),
                    self.wf(),
                    self.default_font == old(self).default_font,
                    self.fonts@[found as int].name@ == old(self).fonts@[found as int].name@,
                    forall|i: int|
                        0 <= i < old(self).fonts@.len() && i != found ==> self.fonts@[i] == old(
                            self,
                        ).fonts@[i],
                    forall|x: i32|
                        has_variant(self.fonts@[found as int].variants@, x) == (has_variant(
                            old(self).fonts@[found as int].variants@,
                            x,
                        ) || exists|j: int| 0 <= j < gi && x == packed_of(#[trigger] gsplit[j])),
                decreases gn - gi,
            {
                let v = grapheme_to_i32(gs[gi].as_str());
                let ghost pre = self.fonts@[found as int].variants@;
                proof {
                    assert(gs@.map_values(|g: String| g@)[gi as int] == gs@[gi as int]@);
                    lemma_packed_roundtrip(v, gsplit[gi as int]);
                }
                self.fonts[found].insert_variant(v);
                proof {
                    assert forall|x: i32|
                        has_variant(self.fonts@[found as int].variants@, x) == (has_variant(
                        old(self).fonts@[found as int].variants@,
                        x,
                    ) || exists|j: int|
                        0 <= j < gi + 1 && x == packed_of(#[trigger] gsplit[j])) by {
                        if has_variant(self.fonts@[found as int].variants@, x) {
                            if !has_variant(pre, x) {
                                assert(x == v);
                                assert(x == packed_of(gsplit[gi as int]));
                            }
                        }
                        if exists|j: int| 0 <= j < gi + 1 && x == packed_of(#[trigger] gsplit[j]) {
                            let j = choose|j: int|
                                0 <= j < gi + 1 && x == packed_of(#[trigger] gsplit[j]);
                            if j == gi as int {
                                assert(x == v);
                            }
                        }
                    };
                }
                gi += 1;
            }
            proof {
                assert forall|x: i32|
                    has_variant(self.fonts@[found as int].variants@, x) == (has_variant(
                    old(self).fonts@[found as int].variants@,
                    x,
                ) || text_has_packed(text@, x)) by {
                    assert(gsplit.len() == gn);
                };
            }
            found
        } else {
            let gs = crate::unicode::graphemes_of(text.as_str());
            let ghost gsplit = crate::unicode::grapheme_split(text@);
            let gn = gs.len();
            let mut variants: Vec<i32> = Vec::new();
            let ghost fname = font_name@;
            let mut entry = FontProperties { name: font_name, variants };
            let mut gi: usize = 0;
            while gi < gn
                invariant
                    gi <= gn,
                    gn == gs@.len(),
                    gs@.map_values(|g: String| g@) == gsplit,
                    gsplit == crate::unicode::grapheme_split(text@),
                    entry.wf(),
                    entry.name@ == fname,
                    forall|x: i32|
                        has_variant(entry.variants@, x) == (exists|j: int|
                            0 <= j < gi && x == packed_of(#[trigger] gsplit[j])),
                decreases gn - gi,
            {
                let v = grapheme_to_i32(gs[gi].as_str());
                let ghost pre = entry.variants@;
                proof {
                    assert(gs@.map_values(|g: String| g@)[gi as int] == gs@[gi as int]@);
                    lemma_packed_roundtrip(v, gsplit[gi as int]);
                }
                entry.insert_variant(v);
                proof {
                    assert forall|x: i32|
                        has_variant(entry.variants@, x) == (exists|j: int|
                        0 <= j < gi + 1 && x == packed_of(#[trigger] gsplit[j])) by {
                        if has_variant(entry.variants@, x) {
                            if !has_variant(pre, x) {
                                assert(x == v);
                                assert(x == packed_of(gsplit[gi as int]));
                            } else {
                                let j = choose|j: int|
                                    0 <= j < gi && x == packed_of(#[trigger] gsplit[j]);
                                assert(0 <= j < gi + 1 && x == packed_of(gsplit[j]));
                            }
                        }
                        if exists|j: int| 0 <= j < gi + 1 && x == packed_of(#[trigger] gsplit[j]) {
                            let j = choose|j: int|
                                0 <= j < gi + 1 && x == packed_of(#[trigger] gsplit[j]);
                            if j == gi as int {
                                assert(x == v);
                            }
                        }
                    };
                }
                gi += 1;
            }
            let ghost prev = self.fonts@;
            self.fonts.push(entry);
            proof {
                assert forall|i: int| 0 <= i < self.fonts@.len() implies (#[trigger] self.fonts@[i]).wf() by {
                    if i < prev.len() {
                        assert(self.fonts@[i] == prev[i]);
                    }
                }
                assert(gsplit.len() == gn);
                assert forall|x: i32|
                    has_variant(self.fonts@[n as int].variants@, x) == text_has_packed(
                    text@,
                    x,
                ) by {};
            }
            n
        }
    }

    /// Record text under the default font (the table's first entry),
    /// which keeps its name and gains exactly the text's packed
    /// graphemes.
    pub fn push_to_default_font(&mut self, text: String) -> (r: usize)
        requires
            old(self).wf(),
            old(self).fonts@.len() > 0,
        ensures
            final(self).wf(),
            r == 0,
            final(self).fonts@.len() == old(self).fonts@.len(),
            final(self).default_font == old(self).default_font,
            final(self).fonts@[0].name@ == old(self).fonts@[0].name@,
            forall|i: int|
                1 <= i < old(self).fonts@.len() ==> final(self).fonts@[i] == old(self).fonts@[i],
            forall|x: i32|
                has_variant(final(self).fonts@[0].variants@, x) == (has_variant(
                    old(self).fonts@[0].variants@,
                    x,
                ) || text_has_packed(text@, x)),
    {
        let gs = crate::unicode::graphemes_of(text.as_str());
        let ghost gsplit = crate::unicode::grapheme_split(text@);
        let gn = gs.len();
        let mut gi: usize = 0;
        while gi < gn
            invariant
                gi <= gn,
                gn == gs@.len(),
                gs@.map_values(|g: String| g@) == gsplit,
                gsplit == crate::unicode::grapheme_split(text@),
                self.fonts@.len() == old(self).fonts@.len(),
                0 < self.fonts@.len(),
                self.wf(),
                self.default_font == old(self).default_font,
                self.fonts@[0].name@ == old(self).fonts@[0].name@,
                forall|i: int|
                    1 <= i < old(self).fonts@.len() ==> self.fonts@[i] == old(self).fonts@[i],
                forall|x: i32|
                    has_variant(self.fonts@[0].variants@, x) == (has_variant(
                        old(self).fonts@[0].variants@,
                        x,
                    ) || exists|j: int| 0 <= j < gi && x == packed_of(#[trigger] gsplit[j])),
            decreases gn - gi,
        {
            let v = grapheme_to_i32(gs[gi].as_str());
            let ghost pre = self.fonts@[0].variants@;
            proof {
                assert(gs@.map_values(|g: String| g@)[gi as int] == gs@[gi as int]@);
                lemma_packed_roundtrip(v, gsplit[gi as int]);
            }
            self.fonts[0].insert_variant(v);
            proof {
                assert forall|x: i32|
                    has_variant(self.fonts@[0].variants@, x) == (has_variant(
                    old(self).fonts@[0].variants@,
                    x,
                ) || exists|j: int| 0 <= j < gi + 1 && x == packed_of(#[trigger] gsplit[j])) by {
                    if has_variant(self.fonts@[0].variants@, x) {
                        if !has_variant(pre, x) {
                            assert(x == v);
                            assert(x == packed_of(gsplit[gi as int]));
                        }
                    }
                    if exists|j: int| 0 <= j < gi + 1 && x == packed_of(#[trigger] gsplit[j]) {
                        let j = choose|j: int|
                            0 <= j < gi + 1 && x == packed_of(#[trigger] gsplit[j]);
                        if j == gi as int {
                            assert(x == v);
                        }
                    }
                };
            }
            gi += 1;
        }
        proof {
            assert(gsplit.len() == gn);
        }
        0
    }
}

/// A node of the content tree: a paragraph, the section properties, or
/// any other element kept as-is.
#[derive(Debug)]
pub enum DocxNode {
    Paragrapth {
        properties: ParagraphProperties,
        attrs: Vec<(String, String)>,
        texts: Vec<TextNode>,
    },
    SectrOfProperties {
        page_type: Option<PageType>,
        page_size: PageSize,
        page_margin: PageMargin,
        page_num_type: Option<NumType>,
        form_prot: Option<FormProt>,
        text_direction: TextDirection,
        document_grid: Option<DocumentGrid>,
    },
    Other(Element),
}

impl DocxNode {
    pub fn is_paragraph(&self) -> (r: bool)
        ensures
            r == (self is Paragrapth),
    {
        match self {
            DocxNode::Paragrapth { .. } => true,
            _ => false,
        }
    }

    pub fn is_sector_of_properties(&self) -> (r: bool)
        ensures
            r == (self is SectrOfProperties),
    {
        match self {
            DocxNode::SectrOfProperties { .. } => true,
            _ => false,
        }
    }
}

/// The document's content: its root nodes, once any have been added.
#[derive(Debug)]
pub struct ContentTree {
    pub nodes: Option<Vec<DocxNode>>,
}

impl ContentTree {
    /// Append a node, creating the node list on first use.
    pub fn push(&mut self, node: DocxNode)
        ensures
            match old(self).nodes {
                Some(ns) => final(self).nodes matches Some(ns2) && ns2@ == ns@.push(node),
                None => final(self).nodes matches Some(ns2) && ns2@ == seq![node],
            },
    {
        let nodes = self.nodes.take();
        match nodes {
            Some(mut ns) => {
                ns.push(node);
                self.nodes = Some(ns);
            },
            None => {
                let mut ns: Vec<DocxNode> = Vec::new();
                ns.push(node);
                self.nodes = Some(ns);
                proof {
                    assert(ns@ =~= seq![node]);
                }
            },
        }
    }
}

/// A parsed document: its fonts and its content tree.
#[derive(Debug)]
pub struct DocxDocument {
    pub fonts: FontTable,
    pub content: ContentTree,
}

impl DocxDocument {
    pub fn new_empty() -> (r: DocxDocument)
        ensures
            r.fonts.fonts@.len() == 0,
            r.fonts.wf(),
            r.content.nodes is None,
    {
        DocxDocument { fonts: FontTable::new_empty(), content: ContentTree { nodes: None } }
    }

    /// Record text under a named font (see the font table).
    pub fn init_or_push_to_font(&mut self, font_name: String, text: String) -> (r: usize)
        requires
            old(self).fonts.wf(),
        ensures
            final(self).fonts.wf(),
            r < final(self).fonts.fonts@.len(),
            final(self).fonts.fonts@.len() >= old(self).fonts.fonts@.len(),
            final(self).content == old(self).content,
    {
        self.fonts.init_or_push_to_font(font_name, text)
    }

    /// Record text under the default font (see the font table).
    pub fn push_to_default_font(&mut self, text: String) -> (r: usize)
        requires
            old(self).fonts.wf(),
            old(self).fonts.fonts@.len() > 0,
        ensures
            final(self).fonts.wf(),
            r == 0,
            final(self).fonts.fonts@.len() == old(self).fonts.fonts@.len(),
            final(self).content == old(self).content,
    {
        self.fonts.push_to_default_font(text)
    }

    /// The last section-properties node of the content, if any: its
    /// fields are returned as a section-properties record; nothing when
    /// no such node exists.
    pub fn get_properties(&self) -> (r: Option<SectrOfProperties>)
        ensures
            match r {
                Some(s) => self.content.nodes matches Some(ns) && exists|i: int|
                    0 <= i < ns@.len() && ((#[trigger] ns@[i]) matches
                        DocxNode::SectrOfProperties {
                        page_type,
                        page_size,
                        page_margin,
                        page_num_type,
                        form_prot,
                        text_direction,
                        document_grid,
                    } && s.page_type == page_type && s.page_size == page_size && s.page_margin
                        == page_margin && s.page_num_type == page_num_type && s.form_prot
                        == form_prot && s.text_direction == text_direction && s.document_grid
                        == document_grid) && (forall|j: int|
                        i < j < ns@.len() ==> !((#[trigger] ns@[j]) is SectrOfProperties)),
                None => match self.content.nodes {
                    Some(ns) => forall|i: int|
                        0 <= i < ns@.len() ==> !((#[trigger] ns@[i]) is SectrOfProperties),
                    None => true,
                },
            },
    {
        let ns = match &self.content.nodes {
            Some(ns) => ns,
            None => {
                return None;
            },
        };
        let n = ns.len();
        let mut k: usize = n;
        while k > 0
            invariant
                k <= n,
                n == ns@.len(),
                self.content.nodes == Some(*ns),
                forall|j: int| k <= j < n ==> !((#[trigger] ns@[j]) is SectrOfProperties),
            decreases k,
        {
            k = k - 1;
            match &ns[k] {
                DocxNode::SectrOfProperties {
                    page_type,
                    page_size,
                    page_margin,
                    page_num_type,
                    form_prot,
                    text_direction,
                    document_grid,
                } => {
                    proof {
                        assert((#[trigger] ns@[k as int]) is SectrOfProperties);
                    }
                    return Some(
                        SectrOfProperties {
                            page_type: *page_type,
                            page_size: *page_size,
                            page_margin: *page_margin,
                            page_num_type: *page_num_type,
                            form_prot: *form_prot,
                            text_direction: *text_direction,
                            document_grid: *document_grid,
                        },
                    );
                },
                _ => {},
            }
        }
        None
    }
}

/// The string value of `attr` on the first child of `e` named `child`.
fn childs_attr<'a>(e: &'a Element, child: &str, attr: &str) -> (r: Option<&'a String>)
    ensures
        r is Some ==> exists|i: int|
            0 <= i < e.inners@.len() && #[trigger] e.child_named(i, child@),
{
    match e.get_child(child) {
        Some(c) => c.get_attr(attr),
        None => None,
    }
}

/// A document-format length attribute of a child element, brought into
/// layout units (the stored value is in tenths of a unit) and clamped
/// into the coordinate range.
pub fn get_int(e: &Element, name: &str, attr: &str) -> (r: Option<i64>)
    ensures
        r matches Some(v) ==> 0 <= v as int <= crate::num::MAX_COORD as int,
{
    match e.get_childs_attr_parsed(name, attr) {
        Some(v) => {
            let scaled = v / 10;
            if scaled > crate::num::MAX_COORD as u64 {
                Some(crate::num::MAX_COORD)
            } else {
                Some(scaled as i64)
            }
        },
        None => None,
    }
}

/// The section's page-break kind, if its attribute parses.
pub fn page_type(root_element: &Element) -> (r: Option<PageType>)
    ensures
        r is Some ==> exists|i: int|
            0 <= i < root_element.inners@.len() && #[trigger] root_element.child_named(
                i,
                "w:type"@,
            ),
{
    match childs_attr(root_element, "w:type", "w:val") {
        Some(v) => PageType::from_str(v.as_str()),
        None => None,
    }
}

/// The section's page-numbering format, if its attribute parses.
pub fn parse_page_num_type(root_element: &Element) -> (r: Option<NumType>)
    ensures
        r is Some ==> exists|i: int|
            0 <= i < root_element.inners@.len() && #[trigger] root_element.child_named(
                i,
                "w:pgNumType"@,
            ),
{
    match childs_attr(root_element, "w:pgNumType", "w:fmt") {
        Some(v) => NumType::from_str(v.as_str()),
        None => None,
    }
}

/// The section's form-protection flag, if its attribute parses.
pub fn parse_form_prot(root_element: &Element) -> (r: Option<FormProt>)
    ensures
        r is Some ==> exists|i: int|
            0 <= i < root_element.inners@.len() && #[trigger] root_element.child_named(
                i,
                "w:formProt"@,
            ),
{
    match childs_attr(root_element, "w:formProt", "w:val") {
        Some(v) => FormProt::from_str(v.as_str()),
        None => None,
    }
}

/// The section's text direction; a missing or unknown attribute falls
/// back to left-to-right, top-to-bottom.
pub fn parse_text_direction(root_element: &Element) -> (r: TextDirection) {
    match childs_attr(root_element, "w:textDirection", "w:val") {
        Some(v) => match TextDirection::from_str(v.as_str()) {
            Some(d) => d,
            None => TextDirection::LeftToRightTopToBottom,
        },
        None => TextDirection::LeftToRightTopToBottom,
    }
}

/// The section's character grid, when all three of its attributes parse.
pub fn parse_document_grid(root_element: &Element) -> (r: Option<DocumentGrid>)
    ensures
        r is Some ==> exists|i: int|
            0 <= i < root_element.inners@.len() && #[trigger] root_element.child_named(
                i,
                "w:docGrid"@,
            ),
{
    let char_space = match root_element.get_childs_attr_parsed("w:docGrid", "w:charSpace") {
        Some(v) => v,
        None => {
            return None;
        },
    };
    let line_pitch = match root_element.get_childs_attr_parsed("w:docGrid", "w:linePitch") {
        Some(v) => v,
        None => {
            return None;
        },
    };
    let grid_type = match childs_attr(root_element, "w:docGrid", "w:type") {
        Some(v) => match GridType::from_str(v.as_str()) {
            Some(g) => g,
            None => {
                return None;
            },
        },
        None => {
            return None;
        },
    };
    Some(DocumentGrid { char_space, line_pitch, grid_type })
}

/// The section's page size, when both attributes are present.
pub fn parse_page_size(root_element: &Element) -> (r: Option<PageSize>)
    ensures
        r matches Some(ps) ==> ps.wf(),
{
    let width = match get_int(root_element, "w:pgSz", "w:w") {
        Some(v) => v,
        None => {
            return None;
        },
    };
    let height = match get_int(root_element, "w:pgSz", "w:h") {
        Some(v) => v,
        None => {
            return None;
        },
    };
    Some(PageSize { width, height })
}

/// The section's page margins, when all seven attributes are present.
pub fn parse_page_margin(root_element: &Element) -> (r: Option<PageMargin>)
    ensures
        r matches Some(pm) ==> pm.wf(),
{
    let footer = match get_int(root_element, "w:pgMar", "w:footer") {
        Some(v) => v,
        None => {
            return None;
        },
    };
    let gutter = match get_int(root_element, "w:pgMar", "w:gutter") {
        Some(v) => v,
        None => {
            return None;
        },
    };
    let header = match get_int(root_element, "w:pgMar", "w:header") {
        Some(v) => v,
        None => {
            return None;
        },
    };
    let bottom = match get_int(root_element, "w:pgMar", "w:bottom") {
        Some(v) => v,
        None => {
            return None;
        },
    };
    let left = match get_int(root_element, "w:pgMar", "w:left") {
        Some(v) => v,
        None => {
            return None;
        },
    };
    let right = match get_int(root_element, "w:pgMar", "w:right") {
        Some(v) => v,
        None => {
            return None;
        },
    };
    let top = match get_int(root_element, "w:pgMar", "w:top") {
        Some(v) => v,
        None => {
            return None;
        },
    };
    Some(PageMargin { footer, gutter, header, bottom, left, right, top })
}

/// A section-properties node read from a `w:sectPr` element; the page
/// size and margins are mandatory, everything else is optional.
pub fn parse_sectr_properties(root_element: &Element) -> (r: Result<DocxNode, DocxError>)
    ensures
        r matches Ok(n) ==> n is SectrOfProperties,
        r matches Ok(n) ==> (n matches DocxNode::SectrOfProperties {
            page_size,
            page_margin,
            ..
        } && page_size.wf() && page_margin.wf()),
{
    let page_size = match parse_page_size(root_element) {
        Some(v) => v,
        None => {
            return Err(DocxError::MissingPageSize);
        },
    };
    let page_margin = match parse_page_margin(root_element) {
        Some(v) => v,
        None => {
            return Err(DocxError::MissingPageMargin);
        },
    };
    Ok(
        DocxNode::SectrOfProperties {
            page_type: page_type(root_element),
            page_size,
            page_margin,
            page_num_type: parse_page_num_type(root_element),
            form_prot: parse_form_prot(root_element),
            text_direction: parse_text_direction(root_element),
            document_grid: parse_document_grid(root_element),
        },
    )
}

/// The run properties under a `w:rPr` child: size, font, color, weight
/// and italic flags; nothing when the element has no `w:rPr` child.
/// Text seen under the properties is recorded in the font table.
pub fn parse_text_properties(
    parent_tag: &Element,
    document: &mut DocxDocument,
    content: &String,
) -> (r: Option<TextProperties>)
    requires
        old(document).fonts.wf(),
        old(document).fonts.fonts@.len() > 0,
    ensures
        final(document).fonts.wf(),
        final(document).fonts.fonts@.len() > 0,
        final(document).content == old(document).content,
        r matches Some(tp) ==> tp.font_handle < final(document).fonts.fonts@.len(),
{
    let rpr = match parent_tag.get_child("w:rPr") {
        Some(e) => e,
        None => {
            return None;
        },
    };
    let size = match rpr.get_childs_attr_parsed("w:sz", "w:val") {
        Some(v) => {
            if v <= u32::MAX as u64 {
                Some(TextSize(v as u32))
            } else {
                None
            }
        },
        None => None,
    };
    let size_cs = match rpr.get_childs_attr_parsed("w:szCs", "w:val") {
        Some(v) => {
            if v <= u32::MAX as u64 {
                Some(TextSize(v as u32))
            } else {
                None
            }
        },
        None => None,
    };
    let font_name: Option<String> = match childs_attr(rpr, "w:rFonts", "w:ascii") {
        Some(v) => Some(v.clone()),
        None => None,
    };
    let font_handle = match &font_name {
        Some(n) => document.init_or_push_to_font(n.clone(), content.clone()),
        None => document.push_to_default_font(content.clone()),
    };
    let color = match childs_attr(rpr, "w:color", "w:val") {
        Some(v) => Color::from_str(v.as_str()),
        None => None,
    };
    let weight = if rpr.has_child("w:b") {
        TextWeight::Bold
    } else {
        TextWeight::Regular
    };
    let italic = rpr.has_child("w:i");
    let underline = rpr.has_child("w:b");
    Some(
        TextProperties {
            font_handle,
            font_name,
            size,
            size_cs,
            weight,
            color,
            underline,
            italic,
        },
    )
}

/// The styled runs of a paragraph element: each `w:r` child with a `w:t`
/// child contributes its text and its parsed run properties.
pub fn get_texts_of_element(root_element: &Element, document: &mut DocxDocument) -> (r: Vec<
    TextNode,
>)
    requires
        old(document).fonts.wf(),
        old(document).fonts.fonts@.len() > 0,
    ensures
        final(document).fonts.wf(),
        final(document).fonts.fonts@.len() > 0,
        final(document).content == old(document).content,
{
    let mut out: Vec<TextNode> = Vec::new();
    let n = root_element.inners.len();
    let mut k: usize = 0;
    while k < n
        invariant
            k <= n,
            n == root_element.inners@.len(),
            document.fonts.wf(),
            document.fonts.fonts@.len() > 0,
            document.content == old(document).content,
        decreases n - k,
    {
        match &root_element.inners[k] {
            Node::Element(e) => {
                if crate::strutil::str_eq(e.name.as_str(), "w:r") {
                    let content = match e.get_child("w:t") {
                        Some(t) => Some(t.get_texts()),
                        None => None,
                    };
                    if let Some(content) = content {
                        let properties = parse_text_properties(e, document, &content);
                        if let Some(properties) = properties {
                            out.push(TextNode { properties, content });
                        }
                    }
                }
            },
            Node::Text(_) => {},
        }
        k += 1;
    }
    out
}

/// The value of a spacing attribute of the paragraph's `w:spacing` child.
fn parse_spacing_value(ppr: &Element, attr: &str) -> (r: Option<i64>)
    ensures
        r matches Some(v) ==> 0 <= v as int <= crate::num::MAX_COORD as int,
{
    get_int(ppr, "w:spacing", attr)
}

/// The vertical spacing of a paragraph from its `w:pPr` element.
pub fn parse_spacing(ppr: &Element) -> (r: SpacingProperties)
    ensures
        r.wf(),
{
    let line_rule = match childs_attr(ppr, "w:spacing", "w:lineRule") {
        Some(v) => LineRule::from_str(v.as_str()),
        None => None,
    };
    SpacingProperties {
        line: parse_spacing_value(ppr, "w:line"),
        line_rule,
        after: parse_spacing_value(ppr, "w:after"),
        before: parse_spacing_value(ppr, "w:before"),
    }
}

/// The paragraph-level properties from a paragraph element's `w:pPr`
/// child: justification, default run properties and spacing.
pub fn parse_paragraph_properties(
    root_element: &Element,
    document: &mut DocxDocument,
) -> (r: ParagraphProperties)
    requires
        old(document).fonts.wf(),
        old(document).fonts.fonts@.len() > 0,
    ensures
        final(document).fonts.wf(),
        final(document).fonts.fonts@.len() > 0,
        final(document).content == old(document).content,
        r.wf(),
{
    let ppr = match root_element.get_child("w:pPr") {
        Some(e) => e,
        None => {
            return ParagraphProperties {
                justify: None,
                text_properties: None,
                spacing: SpacingProperties {
                    line: None,
                    line_rule: None,
                    after: None,
                    before: None,
                },
            };
        },
    };
    let justify = match childs_attr(ppr, "w:jc", "w:val") {
        Some(v) => Justification::from_str(v.as_str()),
        None => None,
    };
    let empty = String::new();
    let text_properties = parse_text_properties(ppr, document, &empty);
    ParagraphProperties { justify, text_properties, spacing: parse_spacing(ppr) }
}

/// A paragraph node from a `w:p` element: its properties, its attributes
/// and its styled runs.
pub fn parse_paragraph(root_element: &Element, document: &mut DocxDocument) -> (r: DocxNode)
    requires
        old(document).fonts.wf(),
        old(document).fonts.fonts@.len() > 0,
    ensures
        final(document).fonts.wf(),
        final(document).fonts.fonts@.len() > 0,
        final(document).content == old(document).content,
        r is Paragrapth,
{
    let properties = parse_paragraph_properties(root_element, document);
    let mut attrs: Vec<(String, String)> = Vec::new();
    let an = root_element.attrs.len();
    let mut k: usize = 0;
    while k < an
        invariant
            k <= an,
            an == root_element.attrs@.len(),
        decreases an - k,
    {
        attrs.push(
            (root_element.attrs[k].name.clone(), root_element.attrs[k].value.clone()),
        );
        k += 1;
    }
    let texts = get_texts_of_element(root_element, document);
    DocxNode::Paragrapth { properties, attrs, texts }
}

/// The font table read from a font-table document: one entry per
/// `w:font` child of the root, by its `w:name` attribute.
pub fn font_table_from_xml(value: &WordXMLDocument) -> (r: Result<FontTable, DocxError>)
    ensures
        r matches Ok(t) ==> t.wf(),
{
    let mut table = FontTable::new_empty();
    let fonts = value.root.get_children("w:font");
    let n = fonts.len();
    let mut k: usize = 0;
    while k < n
        invariant
            k <= n,
            n == fonts@.len(),
            table.wf(),
        decreases n - k,
    {
        let name = match fonts[k].get_attr("w:name") {
            Some(v) => v.clone(),
            None => {
                return Err(DocxError::MissingFontName);
            },
        };
        table.init_or_push_to_font(name, String::new());
        k += 1;
    }
    Ok(table)
}

/// A parsed document built from the main document tree and the font
/// table tree: the root must be `w:document` with a `w:body` child whose
/// `w:p` children become paragraphs and whose `w:sectPr` child becomes
/// the section properties.
pub fn docx_from_xml(
    document_xml: &WordXMLDocument,
    fonts: &WordXMLDocument,
) -> (r: Result<DocxDocument, DocxError>)
    ensures
        r matches Ok(d) ==> d.fonts.wf(),
{
    if !crate::strutil::string_eq_str(&document_xml.root.name, "w:document") {
        return Err(DocxError::BadRootName);
    }
    let table = match font_table_from_xml(fonts) {
        Ok(t) => t,
        Err(e) => {
            return Err(e);
        },
    };
    let mut document = DocxDocument { fonts: table, content: ContentTree { nodes: None } };
    if document.fonts.fonts.len() == 0 {
        let _ = document.fonts.init_or_push_to_font(String::new(), String::new());
    }
    proof {
        assert(document.fonts.fonts@.len() > 0);
    }
    let body = match document_xml.root.get_child("w:body") {
        Some(b) => b,
        None => {
            return Err(DocxError::MissingBody);
        },
    };
    let n = body.inners.len();
    let mut k: usize = 0;
    while k < n
        invariant
            k <= n,
            n == body.inners@.len(),
            document.fonts.wf(),
            document.fonts.fonts@.len() > 0,
        decreases n - k,
    {
        match &body.inners[k] {
            Node::Element(e) => {
                if crate::strutil::str_eq(e.name.as_str(), "w:p") {
                    let node = parse_paragraph(e, &mut document);
                    document.content.push(node);
                } else if crate::strutil::str_eq(e.name.as_str(), "w:sectPr") {
                    match parse_sectr_properties(e) {
                        Ok(node) => {
                            document.content.push(node);
                        },
                        Err(err) => {
                            return Err(err);
                        },
                    }
                } else {
                    let copy = copy_element(e);
                    document.content.push(DocxNode::Other(copy));
                }
            },
            Node::Text(_) => {},
        }
        k += 1;
    }
    Ok(document)
}

/// A structural copy of an element tree.
pub fn copy_element(e: &Element) -> (r: Element)
    ensures
        crate::xml::elem_chars(r) == crate::xml::elem_chars(*e),
    decreases *e,
{
    let mut out = Element::new(e.name.as_str());
    let an = e.attrs.len();
    let mut k: usize = 0;
    while k < an
        invariant
            k <= an,
            an == e.attrs@.len(),
            out.name@ == e.name@,
            out.inners@.len() == 0,
            crate::xml::attrs_chars(out.attrs@) == crate::xml::attrs_chars(
                e.attrs@.take(k as int),
            ),
        decreases an - k,
    {
        let ghost prev = out.attrs@;
        out.append_attr(e.attrs[k].name.as_str(), e.attrs[k].value.clone());
        proof {
            assert(out.attrs@.drop_last() =~= prev);
            assert(e.attrs@.take(k as int + 1).drop_last() =~= e.attrs@.take(k as int));
            assert(e.attrs@.take(k as int + 1).last() == e.attrs@[k as int]);
        }
        k += 1;
    }
    proof {
        assert(e.attrs@.take(an as int) =~= e.attrs@);
    }
    let n = e.inners.len();
    let mut k: usize = 0;
    proof {
        assert(out.inners@.take(0) =~= Seq::<Node>::empty());
        assert(e.inners@.take(0) =~= Seq::<Node>::empty());
    }
    while k < n
        invariant
            k <= n,
            n == e.inners@.len(),
            out.name@ == e.name@,
            crate::xml::attrs_chars(out.attrs@) == crate::xml::attrs_chars(e.attrs@),
            crate::xml::inners_chars(out.inners@) == crate::xml::inners_chars(
                e.inners@.take(k as int),
            ),
        decreases n - k, 1int,
    {
        let ghost previn = out.inners@;
        match &e.inners[k] {
            Node::Element(c) => {
                proof {
                    assert(e.inners@[k as int] == Node::Element(*c));
                }
                let cc = copy_element(c);
                out.append_element(cc);
                proof {
                    assert(out.inners@.drop_last() =~= previn);
                }
            },
            Node::Text(t) => {
                out.append_text(t.0.as_str());
                proof {
                    assert(out.inners@.drop_last() =~= previn);
                }
            },
        }
        proof {
            assert(e.inners@.take(k as int + 1).drop_last() =~= e.inners@.take(k as int));
            assert(e.inners@.take(k as int + 1).last() == e.inners@[k as int]);
        }
        k += 1;
    }
    proof {
        assert(e.inners@.take(n as int) =~= e.inners@);
    }
    out
}

} // verus!
