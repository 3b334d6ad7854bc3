//! The document-format element tree: elements with attributes and mixed
//! element/text children, builders to grow a tree, getters to query it,
//! and a writer that serialises it.

use vstd::prelude::*;
use vstd::string::{StrSliceExecFns, StringExecFns};

use crate::strutil::str_eq;

verus! {

broadcast use vstd::seq::axiom_seq_index_decreases;

/// A whole document: the XML header line and the root element.
#[derive(Debug)]
pub struct WordXMLDocument {
    pub header: String,
    pub root: Element,
}

/// An element: a name, attributes, and child nodes.
#[derive(Debug)]
pub struct Element {
    pub name: String,
    pub attrs: Vec<Attr>,
    pub inners: Vec<Node>,
}

/// A named attribute value.
#[derive(Debug)]
pub struct Attr {
    pub name: String,
    pub value: String,
}

/// A run of character data.
#[derive(Debug)]
pub struct Text(pub String);

/// A child of an element: a nested element or character data.
#[derive(Debug)]
pub enum Node {
    Element(Element),
    Text(Text),
}

impl Node {
    pub fn is_element(&self) -> (r: bool)
        ensures
            r == (self is Element),
    {
        match self {
            Node::Element(_) => true,
            Node::Text(_) => false,
        }
    }

    pub fn is_text(&self) -> (r: bool)
        ensures
            r == (self is Text),
    {
        match self {
            Node::Element(_) => false,
            Node::Text(_) => true,
        }
    }

    pub fn get_element(&self) -> (r: Option<&Element>)
        ensures
            match self {
                Node::Element(e) => r == Some(e),
                Node::Text(_) => r is None,
            },
    {
        match self {
            Node::Element(e) => Some(e),
            Node::Text(_) => None,
        }
    }

    pub fn get_text(&self) -> (r: Option<&Text>)
        ensures
            match self {
                Node::Text(t) => r == Some(t),
                Node::Element(_) => r is None,
            },
    {
        match self {
            Node::Text(t) => Some(t),
            Node::Element(_) => None,
        }
    }
}

impl Element {
    /// A fresh element with the given tag name and no contents.
    pub fn new(name: &str) -> (r: Element)
        ensures
            r.name@ == name@,
            r.attrs@.len() == 0,
            r.inners@.len() == 0,
    {
        Element { name: name.to_owned(), attrs: Vec::new(), inners: Vec::new() }
    }

    /// Append a child node.
    pub fn append(&mut self, node: Node)
        ensures
            final(self).name == old(self).name,
            final(self).attrs == old(self).attrs,
            final(self).inners@ == old(self).inners@.push(node),
    {
        self.inners.push(node);
    }

    /// Append a child element.
    pub fn append_element(&mut self, element: Element)
        ensures
            final(self).name == old(self).name,
            final(self).attrs == old(self).attrs,
            final(self).inners@ == old(self).inners@.push(Node::Element(element)),
    {
        self.inners.push(Node::Element(element));
    }

    /// Append a run of character data.
    pub fn append_text(&mut self, text: &str)
        ensures
            final(self).name == old(self).name,
            final(self).attrs == old(self).attrs,
            final(self).inners@.len() == old(self).inners@.len() + 1,
            final(self).inners@.last() matches Node::Text(t) && t.0@ == text@,
            forall|i: int|
                0 <= i < old(self).inners@.len() ==> final(self).inners@[i] == old(
                    self,
                ).inners@[i],
    {
        self.inners.push(Node::Text(Text(text.to_owned())));
    }

    /// Append an attribute.
    pub fn append_attr(&mut self, name: &str, value: String)
        ensures
            final(self).name == old(self).name,
            final(self).inners == old(self).inners,
            final(self).attrs@.len() == old(self).attrs@.len() + 1,
            final(self).attrs@.last().name@ == name@,
            final(self).attrs@.last().value == value,
            forall|i: int|
                0 <= i < old(self).attrs@.len() ==> final(self).attrs@[i] == old(self).attrs@[i],
    {
        self.attrs.push(Attr { name: name.to_owned(), value });
    }

    /// The element extended with a child element.
    pub fn with_element(self, element: Element) -> (r: Element)
        ensures
            r.name == self.name,
            r.attrs == self.attrs,
            r.inners@ == self.inners@.push(Node::Element(element)),
    {
        let mut e = self;
        e.append_element(element);
        e
    }

    /// The element extended with character data.
    pub fn with_text(self, text: &str) -> (r: Element)
        ensures
            r.name == self.name,
            r.attrs == self.attrs,
            r.inners@.len() == self.inners@.len() + 1,
            r.inners@.last() matches Node::Text(t) && t.0@ == text@,
            forall|i: int| 0 <= i < self.inners@.len() ==> r.inners@[i] == self.inners@[i],
    {
        let mut e = self;
        e.append_text(text);
        e
    }

    /// The element extended with an attribute.
    pub fn with_attr(self, name: &str, value: String) -> (r: Element)
        ensures
            r.name == self.name,
            r.inners == self.inners,
            r.attrs@.len() == self.attrs@.len() + 1,
            r.attrs@.last().name@ == name@,
            r.attrs@.last().value == value,
            forall|i: int| 0 <= i < self.attrs@.len() ==> r.attrs@[i] == self.attrs@[i],
    {
        let mut e = self;
        e.append_attr(name, value);
        e
    }

    /// Whether the child at `i` is an element named `name`.
    pub open spec fn child_named(self, i: int, name: Seq<char>) -> bool {
        self.inners@[i] matches Node::Element(e) && e.name@ == name
    }

    /// The first child element with the given name.
    pub fn get_child(&self, name: &str) -> (r: Option<&Element>)
        ensures
            match r {
                Some(e) => exists|i: int|
                    0 <= i < self.inners@.len() && #[trigger] self.child_named(i, name@)
                        && self.inners@[i] == Node::Element(*e) && forall|j: int|
                        0 <= j < i ==> !self.child_named(j, name@),
                None => forall|i: int|
                    0 <= i < self.inners@.len() ==> !self.child_named(i, name@),
            },
    {
        let n = self.inners.len();
        let mut k: usize = 0;
        while k < n
            invariant
                k <= n,
                n == self.inners@.len(),
                forall|j: int| 0 <= j < k ==> !self.child_named(j, name@),
            decreases n - k,
        {
            match &self.inners[k] {
                Node::Element(e) => {
                    if str_eq(e.name.as_str(), name) {
                        proof {
                            assert(self.inners@[k as int] == Node::Element(*e));
                            assert(self.child_named(k as int, name@));
                        }
                        return Some(e);
                    }
                },
                Node::Text(_) => {},
            }
            k += 1;
        }
        None
    }

    /// The position of the first child element with the given name.
    pub fn find_child_idx(&self, name: &str) -> (r: Option<usize>)
        ensures
            match r {
                Some(i) => i < self.inners@.len() && self.child_named(i as int, name@) && forall|
                    j: int,
                | 0 <= j < i ==> !self.child_named(j, name@),
                None => forall|i: int|
                    0 <= i < self.inners@.len() ==> !self.child_named(i, name@),
            },
    {
        let n = self.inners.len();
        let mut k: usize = 0;
        while k < n
            invariant
                k <= n,
                n == self.inners@.len(),
                forall|j: int| 0 <= j < k ==> !self.child_named(j, name@),
            decreases n - k,
        {
            match &self.inners[k] {
                Node::Element(e) => {
                    if str_eq(e.name.as_str(), name) {
                        proof {
                            assert(self.inners@[k as int] == Node::Element(*e));
                            assert(self.child_named(k as int, name@));
                        }
                        return Some(k);
                    }
                },
                Node::Text(_) => {},
            }
            k += 1;
        }
        None
    }

    /// The first child element with the given name, mutably.
    pub fn get_child_mut(&mut self, name: &str) -> (r: Option<&mut Element>)
        ensures
            match r {
                Some(e) => {
                    &&& exists|i: int|
                        0 <= i < old(self).inners@.len() && #[trigger] old(self).child_named(
                            i,
                            name@,
                        ) && old(self).inners@[i] == Node::Element(*e) && final(self).inners@
                            == old(self).inners@.update(i, Node::Element(*final(e)))
                    &&& final(self).name == old(self).name
                    &&& final(self).attrs == old(self).attrs
                },
                None => *final(self) == *old(self) && (forall|i: int|
                    0 <= i < old(self).inners@.len() ==> !old(self).child_named(i, name@)),
            },
    {
        let idx = self.find_child_idx(name);
        match idx {
            Some(i) => {
                let node = &mut self.inners[i];
                match node {
                    Node::Element(e) => Some(e),
                    Node::Text(_) => {
                        proof {
                            assert(false);
                        }
                        None
                    },
                }
            },
            None => None,
        }
    }

    /// Whether a child element with the given name exists.
    pub fn has_child(&self, child_name: &str) -> (r: bool)
        ensures
            r == exists|i: int|
                0 <= i < self.inners@.len() && #[trigger] self.child_named(i, child_name@),
    {
        match self.get_child(child_name) {
            Some(_) => true,
            None => false,
        }
    }

    /// The concatenation of the element's direct character data.
    pub open spec fn spec_texts(self, upto: int) -> Seq<char>
        decreases upto,
    {
        if upto <= 0 {
            Seq::<char>::empty()
        } else {
            self.spec_texts(upto - 1) + (match self.inners@[upto - 1] {
                Node::Text(t) => t.0@,
                Node::Element(_) => Seq::<char>::empty(),
            })
        }
    }

    /// Concatenate the element's direct character data.
    pub fn get_texts(&self) -> (r: String)
        ensures
            r@ == self.spec_texts(self.inners@.len() as int),
    {
        let n = self.inners.len();
        let mut out = String::new();
        let mut k: usize = 0;
        while k < n
            invariant
                k <= n,
                n == self.inners@.len(),
                out@ == self.spec_texts(k as int),
            decreases n - k,
        {
            match &self.inners[k] {
                Node::Text(t) => {
                    out.append(t.0.as_str());
                },
                Node::Element(_) => {},
            }
            k += 1;
        }
        out
    }

    /// The character data of the first child element with the given name.
    pub fn get_childs_texts(&self, child_name: &str) -> (r: Option<String>)
        ensures
            match r {
                Some(s) => exists|i: int|
                    0 <= i < self.inners@.len() && #[trigger] self.child_named(i, child_name@)
                        && (self.inners@[i] matches Node::Element(e) && s@ == e.spec_texts(
                        e.inners@.len() as int,
                    )),
                None => forall|i: int|
                    0 <= i < self.inners@.len() ==> !self.child_named(i, child_name@),
            },
    {
        match self.get_child(child_name) {
            Some(e) => Some(e.get_texts()),
            None => None,
        }
    }

    /// The attribute at `i` has the given name.
    pub open spec fn attr_named(self, i: int, name: Seq<char>) -> bool {
        self.attrs@[i].name@ == name
    }

    /// The value of the first attribute with the given name.
    pub fn get_attr(&self, attr_name: &str) -> (r: Option<&String>)
        ensures
            match r {
                Some(v) => exists|i: int|
                    0 <= i < self.attrs@.len() && #[trigger] self.attr_named(i, attr_name@)
                        && self.attrs@[i].value == *v && forall|j: int|
                        0 <= j < i ==> !self.attr_named(j, attr_name@),
                None => forall|i: int|
                    0 <= i < self.attrs@.len() ==> !self.attr_named(i, attr_name@),
            },
    {
        let n = self.attrs.len();
        let mut k: usize = 0;
        while k < n
            invariant
                k <= n,
                n == self.attrs@.len(),
                forall|j: int| 0 <= j < k ==> !self.attr_named(j, attr_name@),
            decreases n - k,
        {
            if str_eq(self.attrs[k].name.as_str(), attr_name) {
                proof {
                    assert(self.attr_named(k as int, attr_name@));
                }
                return Some(&self.attrs[k].value);
            }
            k += 1;
        }
        None
    }

    /// The attribute at position `i` is named `name` and its value is a
    /// nonempty run of decimal digits whose value fits in a `u64`.
    pub open spec fn attr_parseable(self, i: int, name: Seq<char>) -> bool {
        self.attr_named(i, name) && crate::strutil::all_digits(self.attrs@[i].value@)
            && self.attrs@[i].value@.len() > 0 && crate::strutil::dec_val(self.attrs@[i].value@)
            <= u64::MAX as nat
    }

    /// The first attribute with the given name whose value parses as a
    /// decimal number; attributes of that name that do not parse are
    /// passed over.  Nothing exactly when no attribute both matches and
    /// parses.
    pub fn get_attr_parsed(&self, attr_name: &str) -> (r: Option<u64>)
        ensures
            match r {
                Some(v) => exists|i: int|
                    0 <= i < self.attrs@.len() && #[trigger] self.attr_parseable(i, attr_name@)
                        && (forall|j: int| 0 <= j < i ==> !self.attr_parseable(j, attr_name@))
                        && v as nat == crate::strutil::dec_val(self.attrs@[i].value@),
                None => forall|i: int|
                    0 <= i < self.attrs@.len() ==> !self.attr_parseable(i, attr_name@),
            },
    {
        let n = self.attrs.len();
        let mut k: usize = 0;
        while k < n
            invariant
                k <= n,
                n == self.attrs@.len(),
                forall|j: int| 0 <= j < k ==> !self.attr_parseable(j, attr_name@),
            decreases n - k,
        {
            if str_eq(self.attrs[k].name.as_str(), attr_name) {
                match crate::strutil::parse_u64(self.attrs[k].value.as_str()) {
                    Some(v) => {
                        proof {
                            assert(self.attr_parseable(k as int, attr_name@));
                        }
                        return Some(v);
                    },
                    None => {
                        proof {
                            assert(!self.attr_parseable(k as int, attr_name@));
                        }
                    },
                }
            } else {
                proof {
                    assert(!self.attr_parseable(k as int, attr_name@));
                }
            }
            k += 1;
        }
        None
    }

    /// The numeric attribute of the first child with the given name.
    pub fn get_childs_attr_parsed(&self, child_name: &str, attr_name: &str) -> (r: Option<u64>)
        ensures
            r is Some ==> exists|i: int|
                0 <= i < self.inners@.len() && #[trigger] self.child_named(i, child_name@),
    {
        match self.get_child(child_name) {
            Some(e) => e.get_attr_parsed(attr_name),
            None => None,
        }
    }

    /// The positions of the child elements named `name` among the first
    /// `upto` children, in order.
    #[verifier::opaque]
    pub open spec fn child_idxs(self, name: Seq<char>, upto: int) -> Seq<int>
        decreases upto,
    {
        if upto <= 0 {
            Seq::<int>::empty()
        } else {
            let m = self.child_idxs(name, upto - 1);
            if self.child_named(upto - 1, name) {
                m.push(upto - 1)
            } else {
                m
            }
        }
    }

    /// `e` is the child at position `j`.
    pub open spec fn child_at(self, j: int, e: Element) -> bool {
        0 <= j < self.inners@.len() && self.inners@[j] == Node::Element(e)
    }

    /// All the direct child elements with the given name, in order: one
    /// entry for each child position the name matches.
    pub fn get_children<'a>(&'a self, name: &str) -> (r: Vec<&'a Element>)
        ensures
            r@.len() == self.child_idxs(name@, self.inners@.len() as int).len(),
            forall|k: int| #![trigger r@[k]]
                0 <= k < r@.len() ==> self.child_at(
                    self.child_idxs(name@, self.inners@.len() as int)[k],
                    *r@[k],
                ),
    {
        let n = self.inners.len();
        let mut out: Vec<&Element> = Vec::new();
        let mut k: usize = 0;
        proof {
            reveal_with_fuel(Element::child_idxs, 1);
        }
        while k < n
            invariant
                k <= n,
                n == self.inners@.len(),
                out@.len() == self.child_idxs(name@, k as int).len(),
                forall|i: int| #![trigger out@[i]]
                    0 <= i < out@.len() ==> self.child_at(
                        self.child_idxs(name@, k as int)[i],
                        *out@[i],
                    ),
            decreases n - k,
        {
            proof {
                lemma_child_idxs_snoc(*self, name@, k as int);
            }
            let ghost prevout = out@;
            match &self.inners[k] {
                Node::Element(e) => {
                    if str_eq(e.name.as_str(), name) {
                        proof {
                            assert(self.inners@[k as int] == Node::Element(*e));
                            assert(self.child_named(k as int, name@));
                        }
                        out.push(e);
                        proof {
                            assert forall|i: int| #![trigger out@[i]]
                                0 <= i < out@.len() implies self.child_at(
                                self.child_idxs(name@, k as int + 1)[i],
                                *out@[i],
                            ) by {
                                if i < prevout.len() {
                                    assert(out@[i] == prevout[i]);
                                    assert(self.child_idxs(name@, k as int + 1)[i]
                                        == self.child_idxs(name@, k as int)[i]);
                                } else {
                                    assert(out@[i] == e);
                                    assert(self.child_idxs(name@, k as int + 1)[i] == k as int);
                                }
                            };
                        }
                    } else {
                        proof {
                            assert(!self.child_named(k as int, name@));
                        }
                    }
                },
                Node::Text(_) => {
                    proof {
                        assert(!self.child_named(k as int, name@));
                    }
                },
            }
            k += 1;
        }
        out
    }
}

/// One unfolding step of `child_idxs`.
proof fn lemma_child_idxs_snoc(e: Element, name: Seq<char>, k: int)
    requires
        0 <= k,
    ensures
        e.child_idxs(name, k + 1) == if e.child_named(k, name) {
            e.child_idxs(name, k).push(k)
        } else {
            e.child_idxs(name, k)
        },
{
    reveal_with_fuel(Element::child_idxs, 2);
}

/// The dashes that indent one dump line: three per level.
pub open spec fn dump_dashes(level: int) -> Seq<char>
    decreases level,
{
    if level <= 0 {
        Seq::<char>::empty()
    } else {
        dump_dashes(level - 1) + seq!['-', '-', '-']
    }
}

/// The dumped attributes: ` [name = value] ` each, in order.
pub open spec fn dump_attrs(attrs: Seq<Attr>) -> Seq<char>
    decreases attrs.len(),
{
    if attrs.len() == 0 {
        Seq::<char>::empty()
    } else {
        dump_attrs(attrs.drop_last()) + seq![' ', '['] + attrs.last().name@ + seq![' ', '=', ' ']
            + attrs.last().value@ + seq![']', ' ']
    }
}

/// The dumped direct character data: ` <<text>> ` each, in order.
pub open spec fn dump_texts(inners: Seq<Node>) -> Seq<char>
    decreases inners.len(),
{
    if inners.len() == 0 {
        Seq::<char>::empty()
    } else {
        dump_texts(inners.drop_last()) + (if inners.last() is Text {
            seq![' ', '<', '<'] + (inners.last()->Text_0).0@ + seq!['>', '>', ' ']
        } else {
            Seq::<char>::empty()
        })
    }
}

/// One dump line: the indent, the tag name in angle brackets, the
/// attributes, then the direct character data.
pub open spec fn dump_line(e: Element, level: int) -> Seq<char> {
    dump_dashes(level) + seq!['<'] + e.name@ + seq!['>'] + dump_attrs(e.attrs@) + dump_texts(
        e.inners@,
    ) + seq!['\n']
}

/// The dump of an element's subtree: its own line, then each child
/// element's subtree one level deeper (saturating at the greatest
/// representable level, which no tree held in memory can reach).
pub open spec fn dump_subtree(e: Element, level: int) -> Seq<char>
    decreases e, 1int,
    via dump_subtree_decreases
{
    dump_line(e, level) + dump_kids(
        e.inners@,
        if level == usize::MAX as int {
            level
        } else {
            level + 1
        },
    )
}

#[via_fn]
proof fn dump_subtree_decreases(e: Element, level: int) {
    assert(decreases_to!(e => e.inners));
    assert(decreases_to!(e.inners => e.inners@));
}

/// The dumps of the element children among `inners`, in order.
pub open spec fn dump_kids(inners: Seq<Node>, level: int) -> Seq<char>
    decreases inners, 0int,
    via dump_kids_decreases
{
    if inners.len() == 0 {
        Seq::<char>::empty()
    } else {
        dump_kids(inners.drop_last(), level) + (if inners.last() is Element {
            dump_subtree(inners.last()->Element_0, level)
        } else {
            Seq::<char>::empty()
        })
    }
}

#[via_fn]
proof fn dump_kids_decreases(inners: Seq<Node>, level: int) {
    if inners.len() > 0 {
        assert(inners.drop_last() == inners.subrange(0, inners.len() - 1));
        assert(decreases_to!(inners => inners.subrange(0, inners.len() - 1)));
        assert(decreases_to!(inners => inners[inners.len() - 1]));
        if inners.last() is Element {
            assert(decreases_to!(
                inners[inners.len() - 1] => inners[inners.len() - 1]->Element_0));
        }
    }
}

/// One unfolding step of `dump_attrs` over a prefix.
proof fn lemma_dump_attrs_snoc(attrs: Seq<Attr>, k: int)
    requires
        0 <= k < attrs.len(),
    ensures
        dump_attrs(attrs.take(k + 1)) == dump_attrs(attrs.take(k)) + seq![' ', '['] + attrs[k].name@
            + seq![' ', '=', ' '] + attrs[k].value@ + seq![']', ' '],
{
    assert(attrs.take(k + 1).drop_last() =~= attrs.take(k));
    assert(attrs.take(k + 1).last() == attrs[k]);
}

/// One unfolding step of `dump_texts` over a prefix.
proof fn lemma_dump_texts_snoc(inners: Seq<Node>, k: int)
    requires
        0 <= k < inners.len(),
    ensures
        dump_texts(inners.take(k + 1)) == dump_texts(inners.take(k)) + (if inners[k] is Text {
            seq![' ', '<', '<'] + (inners[k]->Text_0).0@ + seq!['>', '>', ' ']
        } else {
            Seq::<char>::empty()
        }),
{
    assert(inners.take(k + 1).drop_last() =~= inners.take(k));
    assert(inners.take(k + 1).last() == inners[k]);
}

/// One unfolding step of `dump_kids` over a prefix.
proof fn lemma_dump_kids_snoc(inners: Seq<Node>, k: int, level: int)
    requires
        0 <= k < inners.len(),
    ensures
        dump_kids(inners.take(k + 1), level) == dump_kids(inners.take(k), level) + (
        if inners[k] is Element {
            dump_subtree(inners[k]->Element_0, level)
        } else {
            Seq::<char>::empty()
        }),
{
    assert(inners.take(k + 1).drop_last() =~= inners.take(k));
    assert(inners.take(k + 1).last() == inners[k]);
}

/// Append one element's dump line: indent, tag, attributes, direct
/// character data.
pub fn write_elem(e: &Element, level: usize, out: &mut String)
    ensures
        final(out)@ == old(out)@ + dump_line(*e, level as int),
{
    let ghost entry = out@;
    let mut i: usize = 0;
    while i < level
        invariant
            i <= level,
            out@ == entry + dump_dashes(i as int),
        decreases level - i,
    {
        proof {
            reveal_strlit("---");
        }
        out.append("---");
        i += 1;
    }
    proof {
        reveal_strlit("<");
        reveal_strlit(">");
    }
    out.append("<");
    out.append(e.name.as_str());
    out.append(">");
    let ghost tagged = out@;
    let an = e.attrs.len();
    let mut k: usize = 0;
    proof {
        assert(e.attrs@.take(0) =~= Seq::<Attr>::empty());
    }
    while k < an
        invariant
            k <= an,
            an == e.attrs@.len(),
            out@ == tagged + dump_attrs(e.attrs@.take(k as int)),
        decreases an - k,
    {
        proof {
            reveal_strlit(" [");
            reveal_strlit(" = ");
            reveal_strlit("] ");
            lemma_dump_attrs_snoc(e.attrs@, k as int);
        }
        out.append(" [");
        out.append(e.attrs[k].name.as_str());
        out.append(" = ");
        out.append(e.attrs[k].value.as_str());
        out.append("] ");
        proof {
            assert(out@ =~= tagged + dump_attrs(e.attrs@.take(k as int + 1)));
        }
        k += 1;
    }
    proof {
        assert(e.attrs@.take(an as int) =~= e.attrs@);
    }
    let ghost attred = out@;
    let nn = e.inners.len();
    let mut k: usize = 0;
    proof {
        assert(e.inners@.take(0) =~= Seq::<Node>::empty());
    }
    while k < nn
        invariant
            k <= nn,
            nn == e.inners@.len(),
            out@ == attred + dump_texts(e.inners@.take(k as int)),
        decreases nn - k,
    {
        proof {
            lemma_dump_texts_snoc(e.inners@, k as int);
        }
        match &e.inners[k] {
            Node::Text(t) => {
                proof {
                    reveal_strlit(" <<");
                    reveal_strlit(">> ");
                }
                out.append(" <<");
                out.append(t.0.as_str());
                out.append(">> ");
            },
            Node::Element(_) => {},
        }
        proof {
            assert(out@ =~= attred + dump_texts(e.inners@.take(k as int + 1)));
        }
        k += 1;
    }
    proof {
        reveal_strlit("\n");
        assert(e.inners@.take(nn as int) =~= e.inners@);
    }
    out.append("\n");
    proof {
        assert(out@ =~= entry + dump_line(*e, level as int));
    }
}

/// Append the dump of an element's whole subtree.
pub fn write_subtree(e: &Element, level: usize, out: &mut String)
    ensures
        final(out)@ == old(out)@ + dump_subtree(*e, level as int),
    decreases *e,
{
    let ghost entry = out@;
    write_elem(e, level, out);
    let next = if level < usize::MAX {
        level + 1
    } else {
        level
    };
    let ghost lined = out@;
    let nn = e.inners.len();
    let mut k: usize = 0;
    proof {
        assert(e.inners@.take(0) =~= Seq::<Node>::empty());
    }
    while k < nn
        invariant
            k <= nn,
            nn == e.inners@.len(),
            next as int == if level as int == usize::MAX as int {
                level as int
            } else {
                level as int + 1
            },
            out@ == lined + dump_kids(e.inners@.take(k as int), next as int),
        decreases nn - k, 0int,
    {
        proof {
            lemma_dump_kids_snoc(e.inners@, k as int, next as int);
        }
        match &e.inners[k] {
            Node::Element(c) => {
                proof {
                    assert(e.inners@[k as int] == Node::Element(*c));
                }
                write_subtree(c, next, out);
            },
            Node::Text(_) => {},
        }
        proof {
            assert(out@ =~= lined + dump_kids(e.inners@.take(k as int + 1), next as int));
        }
        k += 1;
    }
    proof {
        assert(e.inners@.take(nn as int) =~= e.inners@);
        assert(out@ =~= entry + dump_subtree(*e, level as int));
    }
}

/// The dump of a whole tree: the root's line, then each of the root's
/// child elements' subtrees, both starting at the first level.
pub open spec fn dump_tree(e: Element) -> Seq<char> {
    dump_line(e, 0) + dump_kids(e.inners@, 0)
}

/// Append the dump of a whole tree, as `dump_tree` says.
pub fn write_tree(e: &Element, out: &mut String)
    ensures
        final(out)@ == old(out)@ + dump_tree(*e),
{
    let ghost entry = out@;
    write_elem(e, 0, out);
    let ghost lined = out@;
    let nn = e.inners.len();
    let mut k: usize = 0;
    proof {
        assert(e.inners@.take(0) =~= Seq::<Node>::empty());
    }
    while k < nn
        invariant
            k <= nn,
            nn == e.inners@.len(),
            out@ == lined + dump_kids(e.inners@.take(k as int), 0),
        decreases nn - k,
    {
        proof {
            lemma_dump_kids_snoc(e.inners@, k as int, 0);
        }
        match &e.inners[k] {
            Node::Element(c) => {
                proof {
                    assert(e.inners@[k as int] == Node::Element(*c));
                }
                write_subtree(c, 0, out);
            },
            Node::Text(_) => {},
        }
        proof {
            assert(out@ =~= lined + dump_kids(e.inners@.take(k as int + 1), 0));
        }
        k += 1;
    }
    proof {
        assert(e.inners@.take(nn as int) =~= e.inners@);
        assert(out@ =~= entry + dump_tree(*e));
    }
}

/// The serialised form of an element: `<name a="v"...>children</name>`.
pub open spec fn elem_chars(e: Element) -> Seq<char>
    decreases e, 1int,
    via elem_chars_decreases
{
    seq!['<'] + e.name@ + attrs_chars(e.attrs@) + seq!['>'] + inners_chars(e.inners@) + seq![
        '<',
        '/',
    ] + e.name@ + seq!['>']
}

#[via_fn]
proof fn elem_chars_decreases(e: Element) {
    assert(decreases_to!(e => e.inners));
    assert(decreases_to!(e.inners => e.inners@));
}

/// What the `Debug` formatting of `str` yields for these characters:
/// the value quoted and escaped as a Rust string literal.
pub uninterp spec fn debug_quoted_of(s: Seq<char>) -> Seq<char>;

/// An ASCII printable character that debug quoting passes through
/// unchanged: not a quote of either kind and not a backslash.
pub open spec fn plain_attr_char(c: char) -> bool {
    0x20 <= c as int <= 0x7e && c != '"' && c != '\\' && c != '\''
}

/// Relies on the `Debug` formatting of `str`: the value comes back
/// quoted and escaped as a Rust string literal, a function of the
/// characters alone; ASCII printable characters other than quotes and
/// backslashes pass through unchanged between the added quotes.
#[verifier::external_body]
fn debug_quoted(s: &str) -> (r: String)
    ensures
        r@ == debug_quoted_of(s@),
        r@.len() >= 2,
        r@[0] == '"',
        r@.last() == '"',
        (forall|i: int| 0 <= i < s@.len() ==> plain_attr_char(#[trigger] s@[i])) ==> r@ == seq![
            '"',
        ] + s@ + seq!['"'],
{
    format!("{:?}", s)
}

/// The serialised attributes: ` name=value` each, in order, the value
/// debug-quoted exactly as the `Debug` formatting of `str` does.
pub open spec fn attrs_chars(attrs: Seq<Attr>) -> Seq<char>
    decreases attrs.len(),
{
    if attrs.len() == 0 {
        Seq::<char>::empty()
    } else {
        attrs_chars(attrs.drop_last()) + seq![' '] + attrs.last().name@ + seq!['=']
            + debug_quoted_of(attrs.last().value@)
    }
}

/// The character data carried inside an element, at any depth, in
/// document order.
pub open spec fn elem_text(e: Element) -> Seq<char>
    decreases e, 1int,
    via elem_text_decreases
{
    nodes_text(e.inners@)
}

#[via_fn]
proof fn elem_text_decreases(e: Element) {
    assert(decreases_to!(e => e.inners));
    assert(decreases_to!(e.inners => e.inners@));
}

/// The character data carried by a run of nodes, at any depth.
pub open spec fn nodes_text(inners: Seq<Node>) -> Seq<char>
    decreases inners, 0int,
    via nodes_text_decreases
{
    if inners.len() == 0 {
        Seq::<char>::empty()
    } else {
        nodes_text(inners.drop_last()) + (if inners.last() is Element {
            elem_text(inners.last()->Element_0)
        } else {
            (inners.last()->Text_0).0@
        })
    }
}

#[via_fn]
proof fn nodes_text_decreases(inners: Seq<Node>) {
    if inners.len() > 0 {
        assert(inners.drop_last() == inners.subrange(0, inners.len() - 1));
        assert(decreases_to!(inners => inners.subrange(0, inners.len() - 1)));
        assert(decreases_to!(inners => inners[inners.len() - 1]));
        if inners.last() is Element {
            assert(decreases_to!(
                inners[inners.len() - 1] => inners[inners.len() - 1]->Element_0));
        }
    }
}

/// One push step of `nodes_text`.
pub proof fn lemma_nodes_text_push(inners: Seq<Node>, n: Node)
    ensures
        nodes_text(inners.push(n)) == nodes_text(inners) + (if n is Element {
            elem_text(n->Element_0)
        } else {
            (n->Text_0).0@
        }),
{
    assert(inners.push(n).drop_last() =~= inners);
    assert(inners.push(n).last() == n);
}

/// An element with no children carries no text.
pub proof fn lemma_elem_text_empty(e: Element)
    requires
        e.inners@.len() == 0,
    ensures
        elem_text(e) == Seq::<char>::empty(),
{
    assert(e.inners@ =~= Seq::<Node>::empty());
}

/// The serialised children, in order.
pub open spec fn inners_chars(inners: Seq<Node>) -> Seq<char>
    decreases inners, 0int,
    via inners_chars_decreases
{
    if inners.len() == 0 {
        Seq::<char>::empty()
    } else {
        inners_chars(inners.drop_last()) + (if inners.last() is Element {
            elem_chars(inners.last()->Element_0)
        } else {
            (inners.last()->Text_0).0@
        })
    }
}

#[via_fn]
proof fn inners_chars_decreases(inners: Seq<Node>) {
    if inners.len() > 0 {
        assert(inners.drop_last() == inners.subrange(0, inners.len() - 1));
        assert(decreases_to!(inners => inners.subrange(0, inners.len() - 1)));
        assert(decreases_to!(inners => inners[inners.len() - 1]));
        if inners.last() is Element {
            assert(decreases_to!(
                inners[inners.len() - 1] => inners[inners.len() - 1]->Element_0));
        }
    }
}

/// One unfolding step of `attrs_chars` over a prefix.
proof fn lemma_attrs_snoc(attrs: Seq<Attr>, k: int)
    requires
        0 <= k < attrs.len(),
    ensures
        attrs_chars(attrs.take(k + 1)) == attrs_chars(attrs.take(k)) + seq![' '] + attrs[k].name@
            + seq!['='] + debug_quoted_of(attrs[k].value@),
{
    assert(attrs.take(k + 1).drop_last() =~= attrs.take(k));
    assert(attrs.take(k + 1).last() == attrs[k]);
}

/// One unfolding step of `inners_chars` over a prefix.
proof fn lemma_inners_snoc(inners: Seq<Node>, k: int)
    requires
        0 <= k < inners.len(),
    ensures
        inners_chars(inners.take(k + 1)) == inners_chars(inners.take(k)) + (if inners[k] is Element {
            elem_chars(inners[k]->Element_0)
        } else {
            (inners[k]->Text_0).0@
        }),
{
    assert(inners.take(k + 1).drop_last() =~= inners.take(k));
    assert(inners.take(k + 1).last() == inners[k]);
}

impl Element {
    /// Serialise the element into `out`: its open tag with attributes,
    /// its children in order, then its close tag.
    #[verifier::rlimit(100)]
    pub fn write_to(&self, out: &mut String)
        ensures
            final(out)@ == old(out)@ + elem_chars(*self),
        decreases *self,
    {
        let ghost entry = out@;
        proof {
            reveal_strlit("<");
            reveal_strlit(">");
            reveal_strlit("</");
        }
        out.append("<");
        out.append(self.name.as_str());
        let an = self.attrs.len();
        let mut k: usize = 0;
        proof {
            assert(self.attrs@.take(0) =~= Seq::<Attr>::empty());
        }
        while k < an
            invariant
                k <= an,
                an == self.attrs@.len(),
                out@ == entry + seq!['<'] + self.name@ + attrs_chars(self.attrs@.take(k as int)),
            decreases an - k,
        {
            proof {
                reveal_strlit(" ");
                reveal_strlit("=");
                lemma_attrs_snoc(self.attrs@, k as int);
            }
            out.append(" ");
            out.append(self.attrs[k].name.as_str());
            out.append("=");
            let q = debug_quoted(self.attrs[k].value.as_str());
            out.append(q.as_str());
            proof {
                assert(out@ =~= entry + seq!['<'] + self.name@ + attrs_chars(
                    self.attrs@.take(k as int + 1),
                ));
            }
            k += 1;
        }
        proof {
            assert(self.attrs@.take(an as int) =~= self.attrs@);
        }
        out.append(">");
        let ghost open_done = out@;
        let n = self.inners.len();
        let mut k: usize = 0;
        proof {
            assert(self.inners@.take(0) =~= Seq::<Node>::empty());
        }
        while k < n
            invariant
                k <= n,
                n == self.inners@.len(),
                out@ == open_done + inners_chars(self.inners@.take(k as int)),
            decreases n - k, 0int,
        {
            proof {
                lemma_inners_snoc(self.inners@, k as int);
            }
            match &self.inners[k] {
                Node::Element(e) => {
                    proof {
                        assert(self.inners@[k as int] == Node::Element(*e));
                    }
                    e.write_to(out);
                },
                Node::Text(t) => {
                    out.append(t.0.as_str());
                },
            }
            proof {
                assert(out@ =~= open_done + inners_chars(self.inners@.take(k as int + 1)));
            }
            k += 1;
        }
        proof {
            reveal_strlit("</");
            reveal_strlit(">");
            assert(self.inners@.take(n as int) =~= self.inners@);
        }
        out.append("</");
        out.append(self.name.as_str());
        out.append(">");
        proof {
            assert(out@ =~= entry + elem_chars(*self));
        }
    }
}

impl WordXMLDocument {
    /// Serialise the whole document: the header, a line break, then the
    /// root element.
    pub fn write_to(&self, out: &mut String)
        ensures
            final(out)@ == old(out)@ + self.header@ + seq!['\n'] + elem_chars(self.root),
    {
        proof {
            reveal_strlit("\n");
        }
        out.append(self.header.as_str());
        out.append("\n");
        self.root.write_to(out);
    }
}

} // verus!
