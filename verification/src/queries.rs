//! The structural layer: parsing a document into a tree-sitter tree,
//! keeping the tree up to date through incremental reparsing, and running
//! declarative structural queries against it.
//!
//! Everything tree-sitter computes is opaque to verification, so each call
//! into it stands behind a trusted item: the tree's text and a query's
//! matches are given names (`tree_text`, `first_capture_of`, ...) that the
//! trusted contracts speak of, and the verified code around them slices
//! text, strips quoting and builds match values with exact contracts.
//!
//! Match selection policy: a query's `first` result is the first match in
//! document order (its payload being the match's last capture); this is a
//! contract of this module, not an accident of the engine.

use vstd::prelude::*;
use vstd::string::*;

use crate::types::{Position, Range};
use crate::sync::EditDelta;

use tree_sitter::StreamingIterator;

verus! {

/// The byte that quotes attribute values.
pub const QUOTE: u8 = 34;

#[verifier::external_type_specification]
#[verifier::external_body]
pub struct ExTree(tree_sitter::Tree);

#[verifier::external_type_specification]
#[verifier::external_body]
pub struct ExQuery(tree_sitter::Query);

#[verifier::external_type_specification]
pub struct ExPoint(tree_sitter::Point);

/// The byte range and full (start, end) extent of one node of a
/// structural tree.
#[derive(Clone, Copy, PartialEq, Eq, Structural, Debug)]
pub struct NodeSpan {
    pub start_byte: usize,
    pub end_byte: usize,
    pub row: usize,
    pub col: usize,
    pub end_row: usize,
    pub end_col: usize,
}

impl NodeSpan {
    /// A span from a node's byte range and (start, end) points.
    pub fn at(bytes: core::ops::Range<usize>, sp: tree_sitter::Point, ep: tree_sitter::Point) -> (s:
        NodeSpan)
        ensures
            s == (NodeSpan {
                start_byte: bytes.start,
                end_byte: bytes.end,
                row: sp.row,
                col: sp.column,
                end_row: ep.row,
                end_col: ep.column,
            }),
    {
        NodeSpan {
            start_byte: bytes.start,
            end_byte: bytes.end,
            row: sp.row,
            col: sp.column,
            end_row: ep.row,
            end_col: ep.column,
        }
    }
}

/// The text a structural tree was derived from.
pub uninterp spec fn tree_text(t: tree_sitter::Tree) -> Seq<u8>;

/// Whether the XML parser derives a tree from this text. Parsing is
/// deterministic: for a given text it either always succeeds or always
/// fails (the engine is run without cancellation or timeouts).
pub uninterp spec fn spec_parses(text: Seq<u8>) -> bool;

/// Whether the XML grammar compiles this query pattern; compilation is a
/// deterministic function of the pattern text.
pub uninterp spec fn query_compiles(pattern: Seq<char>) -> bool;

/// The pattern text a compiled query was built from.
pub uninterp spec fn query_pattern(q: tree_sitter::Query) -> Seq<char>;

/// The last capture of the pattern's first match in document order, over
/// the whole tree.
pub uninterp spec fn first_capture_of(pattern: Seq<char>, t: tree_sitter::Tree, text: Seq<u8>) -> Option<
    NodeSpan,
>;

/// Per match of the pattern over the whole tree, in document order: the
/// match's first and last capture.
pub uninterp spec fn pair_captures_of(
    pattern: Seq<char>,
    t: tree_sitter::Tree,
    text: Seq<u8>,
) -> Seq<(NodeSpan, NodeSpan)>;

/// As `first_capture_of`, but over the smallest node covering the byte
/// range `[start_byte, end_byte]`.
pub uninterp spec fn first_capture_in(
    pattern: Seq<char>,
    t: tree_sitter::Tree,
    text: Seq<u8>,
    start_byte: int,
    end_byte: int,
) -> Option<NodeSpan>;

/// As `pair_captures_of`, but over the smallest node covering the byte
/// range `[start_byte, end_byte]`.
pub uninterp spec fn pair_captures_in(
    pattern: Seq<char>,
    t: tree_sitter::Tree,
    text: Seq<u8>,
    start_byte: int,
    end_byte: int,
) -> Seq<(NodeSpan, NodeSpan)>;

/// The smallest `element` node enclosing the given (row, column) point,
/// if any.
pub uninterp spec fn element_at_of(t: tree_sitter::Tree, row: int, col: int) -> Option<NodeSpan>;

/// Relies on tree_sitter::Parser::parse with the XML grammar: the
/// returned tree is derived from exactly the bytes handed in, and whether
/// a tree comes back at all depends on the text alone.
#[verifier::external_body]
pub(crate) fn parse_document(text: &Vec<u8>) -> (r: Option<tree_sitter::Tree>)
    ensures
        r is Some <==> spec_parses(text@),
        r matches Some(t) ==> tree_text(t) == text@,
{
    let mut parser = tree_sitter::Parser::new();
    if parser.set_language(&tree_sitter_xml::LANGUAGE_XML.into()).is_err() {
        return None;
    }
    parser.parse(text.as_slice(), None)
}

/// Relies on tree_sitter::Tree::edit and tree_sitter::Parser::parse: told
/// the edit's delta, the parser re-derives a tree of the new text, reusing
/// the old tree's unchanged nodes. Success depends on the new text alone
/// (the old tree only guides node reuse); on failure the caller keeps its
/// previous tree.
#[verifier::external_body]
pub(crate) fn reparse_document(tree: &tree_sitter::Tree, d: &EditDelta, new_text: &Vec<u8>) -> (r: Option<
    tree_sitter::Tree,
>)
    ensures
        r is Some <==> spec_parses(new_text@),
        r matches Some(t) ==> tree_text(t) == new_text@,
{
    let mut edited = tree.clone();
    edited.edit(&tree_sitter::InputEdit {
        start_byte: d.start_byte, old_end_byte: d.old_end_byte, new_end_byte: d.new_end_byte,
        start_position: tree_sitter::Point { row: d.start_row, column: d.start_col },
        old_end_position: tree_sitter::Point { row: d.old_end_row, column: d.old_end_col },
        new_end_position: tree_sitter::Point { row: d.new_end_row, column: d.new_end_col },
    });
    let mut parser = tree_sitter::Parser::new();
    if parser.set_language(&tree_sitter_xml::LANGUAGE_XML.into()).is_err() {
        return None;
    }
    parser.parse(new_text.as_slice(), Some(&edited))
}

/// A compiled structural query together with the pattern it was built
/// from.
pub struct IEFQuery {
    query: tree_sitter::Query,
    pattern: &'static str,
}

impl IEFQuery {
    /// The pattern this query was compiled from.
    pub closed spec fn pat(&self) -> Seq<char> {
        self.pattern@
    }

    /// The compiled query matches exactly its recorded pattern.
    pub closed spec fn wf(&self) -> bool {
        query_pattern(self.query) == self.pattern@
    }

    /// Relies on tree_sitter::Query::new with the XML grammar: the
    /// compiled query is the one the pattern text describes, and whether
    /// the pattern compiles depends on the pattern alone.
    #[verifier::external_body]
    pub fn new(query_txt: &'static str) -> (r: Option<IEFQuery>)
        ensures
            r is Some <==> query_compiles(query_txt@),
            r matches Some(q) ==> q.wf() && q.pat() == query_txt@,
    {
        match tree_sitter::Query::new(&tree_sitter_xml::LANGUAGE_XML.into(), query_txt) {
            Ok(query) => Some(IEFQuery { query, pattern: query_txt }),
            Err(_) => None,
        }
    }
}

/// Relies on tree_sitter::QueryCursor::matches: hands back the last
/// capture of the first match in document order, as plain byte offsets
/// and start position. Node spans lie within the tree's source text.
#[verifier::external_body]
fn raw_first(q: &IEFQuery, tree: &tree_sitter::Tree, text: &Vec<u8>) -> (r: Option<NodeSpan>)
    requires
        tree_text(*tree) == text@,
    ensures
        r == first_capture_of(query_pattern(q.query), *tree, text@),
        r matches Some(c) ==> c.start_byte <= c.end_byte <= text@.len(),
{
    let mut cursor = tree_sitter::QueryCursor::new();
    let mut matches = cursor.matches(&q.query, tree.root_node(), text.as_slice());
    while let Some(m) = matches.next() {
        if let Some(c) = m.captures().last() {
            let n = c.node;
            return Some(NodeSpan::at(n.byte_range(), n.start_position(), n.end_position()));
        }
    }
    None
}

/// Relies on tree_sitter::QueryCursor::matches: hands back, per match in
/// document order, the first and last capture of the match. Node spans
/// lie within the tree's source text.
#[verifier::external_body]
fn raw_pairs(q: &IEFQuery, tree: &tree_sitter::Tree, text: &Vec<u8>) -> (r: Vec<(NodeSpan, NodeSpan)>)
    requires
        tree_text(*tree) == text@,
    ensures
        r@ == pair_captures_of(query_pattern(q.query), *tree, text@),
        forall|i: int|
            0 <= i < r@.len() ==> (#[trigger] r@[i]).0.start_byte <= r@[i].0.end_byte <= text@.len()
                && r@[i].1.start_byte <= r@[i].1.end_byte <= text@.len(),
{
    let mut cursor = tree_sitter::QueryCursor::new();
    let mut out = Vec::new();
    let mut matches = cursor.matches(&q.query, tree.root_node(), text.as_slice());
    while let Some(m) = matches.next() {
        let c = m.captures();
        if let (Some(a), Some(b)) = (c.first(), c.last()) {
            out.push((NodeSpan::at(a.node.byte_range(), a.node.start_position(), a.node.end_position()),
                NodeSpan::at(b.node.byte_range(), b.node.start_position(), b.node.end_position())));
        }
    }
    out
}

/// Relies on tree_sitter::Node::descendant_for_byte_range and
/// tree_sitter::QueryCursor::matches: as `raw_first`, but scoped to the
/// smallest node covering the given byte range.
#[verifier::external_body]
fn raw_first_in(
    q: &IEFQuery,
    tree: &tree_sitter::Tree,
    text: &Vec<u8>,
    start_byte: usize,
    end_byte: usize,
) -> (r: Option<NodeSpan>)
    requires
        tree_text(*tree) == text@,
    ensures
        r == first_capture_in(
            query_pattern(q.query),
            *tree,
            text@,
            start_byte as int,
            end_byte as int,
        ),
        r matches Some(c) ==> c.start_byte <= c.end_byte <= text@.len(),
{
    let root = tree.root_node();
    let found = root.descendant_for_byte_range(start_byte, end_byte);
    let node = match found { Some(n) => n, None => return None };
    let mut cursor = tree_sitter::QueryCursor::new();
    let mut matches = cursor.matches(&q.query, node, text.as_slice());
    while let Some(m) = matches.next() {
        if let Some(c) = m.captures().last() {
            let n = c.node;
            return Some(NodeSpan::at(n.byte_range(), n.start_position(), n.end_position()));
        }
    }
    None
}

/// Relies on tree_sitter::Node::descendant_for_byte_range and
/// tree_sitter::QueryCursor::matches: as `raw_pairs`, but scoped to the
/// smallest node covering the given byte range.
#[verifier::external_body]
fn raw_pairs_in(
    q: &IEFQuery,
    tree: &tree_sitter::Tree,
    text: &Vec<u8>,
    start_byte: usize,
    end_byte: usize,
) -> (r: Vec<(NodeSpan, NodeSpan)>)
    requires
        tree_text(*tree) == text@,
    ensures
        r@ == pair_captures_in(
            query_pattern(q.query),
            *tree,
            text@,
            start_byte as int,
            end_byte as int,
        ),
        forall|i: int|
            0 <= i < r@.len() ==> (#[trigger] r@[i]).0.start_byte <= r@[i].0.end_byte <= text@.len()
                && r@[i].1.start_byte <= r@[i].1.end_byte <= text@.len(),
{
    let node = match tree.root_node().descendant_for_byte_range(start_byte, end_byte) { Some(n) => n, None => return Vec::new() };
    let mut cursor = tree_sitter::QueryCursor::new();
    let mut out = Vec::new();
    let mut matches = cursor.matches(&q.query, node, text.as_slice());
    while let Some(m) = matches.next() {
        let c = m.captures();
        if let (Some(a), Some(b)) = (c.first(), c.last()) {
            out.push((NodeSpan::at(a.node.byte_range(), a.node.start_position(), a.node.end_position()),
                NodeSpan::at(b.node.byte_range(), b.node.start_position(), b.node.end_position())));
        }
    }
    out
}

/// Relies on tree_sitter::Node::named_descendant_for_point_range and
/// tree_sitter::Node::parent: the named node at the position, walked up
/// to the nearest enclosing `element` node. Its span lies within the
/// tree's source text.
#[verifier::external_body]
pub fn get_tag_name(tree: &tree_sitter::Tree, pos: Position) -> (r: Option<NodeSpan>)
    ensures
        r == element_at_of(*tree, pos.line as int, pos.character as int),
        r matches Some(c) ==> c.start_byte <= c.end_byte <= tree_text(*tree).len(),
{
    let location = tree_sitter::Point { row: pos.line as usize, column: pos.character as usize };
    let root = tree.root_node();
    let mut cur = root.named_descendant_for_point_range(location, location);
    while let Some(n) = cur {
        if n.grammar_name() == "element" {
            return Some(NodeSpan::at(n.byte_range(), n.start_position(), n.end_position()));
        }
        cur = n.parent();
    }
    None
}

} // verus!

// The verified side of the query layer: slicing captured spans out of the
// text, stripping attribute-value quoting, and assembling match values.

use crate::types::bytes_eq;

verus! {

/// `s` with every quote byte removed, as attribute values are normalized
/// before they are compared or reported.
pub open spec fn spec_remove_quotes(s: Seq<u8>) -> Seq<u8>
    decreases s.len(),
{
    if s.len() == 0 {
        Seq::empty()
    } else if s.first() == QUOTE {
        spec_remove_quotes(s.drop_first())
    } else {
        seq![s.first()] + spec_remove_quotes(s.drop_first())
    }
}

/// The full range a captured node covers, where a match is recorded for
/// diagnostic placement.
pub open spec fn spec_span_range(c: NodeSpan) -> Range {
    Range {
        start: Position { line: c.row as u32, character: c.col as u32 },
        end: Position { line: c.end_row as u32, character: c.end_col as u32 },
    }
}

/// The raw bytes a captured node covers (empty when the span does not fit
/// the text).
pub open spec fn spec_span_raw_text(text: Seq<u8>, c: NodeSpan) -> Seq<u8> {
    if c.start_byte <= c.end_byte <= text.len() {
        text.subrange(c.start_byte as int, c.end_byte as int)
    } else {
        Seq::empty()
    }
}

/// The bytes a captured node covers, with quoting stripped.
pub open spec fn spec_span_text(text: Seq<u8>, c: NodeSpan) -> Seq<u8> {
    spec_remove_quotes(spec_span_raw_text(text, c))
}

/// What `IEFQuery::first` returns: the first match's captured text
/// (quoting stripped) and recorded range, if the pattern matches at all.
pub open spec fn spec_first_match(pattern: Seq<char>, t: tree_sitter::Tree, text: Seq<u8>) -> Option<
    (Seq<u8>, Range),
> {
    match first_capture_of(pattern, t, text) {
        Some(c) => Some((spec_span_text(text, c), spec_span_range(c))),
        None => None,
    }
}

/// A fresh copy of the byte span `[start, end)` of `text`.
pub fn byte_slice(text: &Vec<u8>, start: usize, end: usize) -> (r: Vec<u8>)
    requires
        start <= end <= text@.len(),
    ensures
        r@ == text@.subrange(start as int, end as int),
{
    let mut r: Vec<u8> = Vec::new();
    let mut i: usize = start;
    while i < end
        invariant
            start <= i <= end,
            r@ == text@.subrange(start as int, i as int),
        decreases end - i,
    {
        r.push(text[i]);
        assert(text@.subrange(start as int, (i + 1) as int) =~= text@.subrange(
            start as int,
            i as int,
        ).push(text@[i as int]));
        i += 1;
    }
    r
}

/// `v` with every quote byte removed.
pub fn remove_quotes(v: &Vec<u8>) -> (r: Vec<u8>)
    ensures
        r@ == spec_remove_quotes(v@),
{
    let len = v.len();
    let mut r: Vec<u8> = Vec::new();
    let mut i: usize = 0;
    assert(v@.subrange(0, len as int) =~= v@);
    while i < len
        invariant
            0 <= i <= len,
            spec_remove_quotes(v@) == r@ + spec_remove_quotes(v@.subrange(i as int, len as int)),
        decreases len - i,
    {
        assert(v@.subrange(i as int, len as int).drop_first() =~= v@.subrange(
            (i + 1) as int,
            len as int,
        ));
        let b = v[i];
        if b != QUOTE {
            r.push(b);
            assert(r@ + spec_remove_quotes(v@.subrange((i + 1) as int, len as int)) =~= (r@
                .drop_last()) + (seq![v@[i as int]] + spec_remove_quotes(
                v@.subrange((i + 1) as int, len as int),
            )));
        }
        i += 1;
    }
    assert(spec_remove_quotes(v@.subrange(len as int, len as int)) =~= Seq::<u8>::empty());
    assert(r@ =~= r@ + Seq::<u8>::empty());
    r
}

/// The range a span covers, as line/column positions.
fn span_range(c: &NodeSpan) -> (r: Range)
    ensures
        r == spec_span_range(*c),
{
    let start = Position {
        line: #[verifier::truncate] (c.row as u32),
        character: #[verifier::truncate] (c.col as u32),
    };
    let end = Position {
        line: #[verifier::truncate] (c.end_row as u32),
        character: #[verifier::truncate] (c.end_col as u32),
    };
    Range { start, end }
}

/// One query match: the captured text (quoting stripped) and the place it
/// was found.
#[derive(Debug)]
pub struct IEFQueryMatch {
    pub txt: Vec<u8>,
    pub range: Range,
}

/// One definition-query match: the defining tag's name, the defined
/// identifier, and where the identifier stands.
#[derive(Debug)]
pub struct IEFDefinitionMatch {
    pub id: Vec<u8>,
    pub tag_name: Vec<u8>,
    pub id_range: Range,
}

/// An element's tag name and attributes, as extracted around a position.
#[derive(Debug)]
pub struct XMLElement {
    pub name: Vec<u8>,
    pub attrs: Vec<(Vec<u8>, Vec<u8>)>,
}

/// The value of the last attribute pair with the given name, mirroring a
/// map built from the pairs in order.
pub open spec fn spec_attr_lookup(attrs: Seq<(Vec<u8>, Vec<u8>)>, key: Seq<u8>) -> Option<Seq<u8>>
    decreases attrs.len(),
{
    if attrs.len() == 0 {
        None
    } else if attrs.last().0@ == key {
        Some(attrs.last().1@)
    } else {
        spec_attr_lookup(attrs.drop_last(), key)
    }
}

impl XMLElement {
    /// Look an attribute up by name; the last pair with that name wins.
    pub fn get(&self, key: &Vec<u8>) -> (r: Option<&Vec<u8>>)
        ensures
            match r {
                Some(v) => spec_attr_lookup(self.attrs@, key@) == Some(v@),
                None => spec_attr_lookup(self.attrs@, key@) is None,
            },
    {
        let mut i: usize = self.attrs.len();
        assert(self.attrs@.subrange(0, i as int) =~= self.attrs@);
        while i > 0
            invariant
                0 <= i <= self.attrs@.len(),
                spec_attr_lookup(self.attrs@, key@) == spec_attr_lookup(
                    self.attrs@.subrange(0, i as int),
                    key@,
                ),
            decreases i,
        {
            i -= 1;
            assert(self.attrs@.subrange(0, (i + 1) as int).last() == self.attrs@[i as int]);
            assert(self.attrs@.subrange(0, (i + 1) as int).drop_last() =~= self.attrs@.subrange(
                0,
                i as int,
            ));
            if bytes_eq(&self.attrs[i].0, key) {
                return Some(&self.attrs[i].1);
            }
        }
        None
    }
}

impl IEFQuery {
    /// The first match of this query over the whole tree, in document
    /// order: its payload capture's text with quoting stripped, and the
    /// capture's full source range.
    pub fn first(&self, tree: &tree_sitter::Tree, text: &Vec<u8>) -> (r: Option<IEFQueryMatch>)
        requires
            self.wf(),
            tree_text(*tree) == text@,
        ensures
            match (r, spec_first_match(self.pat(), *tree, text@)) {
                (Some(m), Some(s)) => m.txt@ == s.0 && m.range == s.1,
                (None, None) => true,
                _ => false,
            },
    {
        let c = match raw_first(self, tree, text) {
            Some(c) => c,
            None => {
                return None;
            },
        };
        let raw = byte_slice(text, c.start_byte, c.end_byte);
        let txt = remove_quotes(&raw);
        Some(IEFQueryMatch { txt, range: span_range(&c) })
    }

    /// Every match of this query over the whole tree, in document order,
    /// read as a definition: the match's first capture is the tag name
    /// (kept verbatim), its last capture the defined identifier (quoting
    /// stripped).
    pub fn all(&self, tree: &tree_sitter::Tree, text: &Vec<u8>) -> (r: Vec<IEFDefinitionMatch>)
        requires
            self.wf(),
            tree_text(*tree) == text@,
        ensures
            ({
                let ps = pair_captures_of(self.pat(), *tree, text@);
                &&& r@.len() == ps.len()
                &&& forall|i: int|
                    0 <= i < ps.len() ==> {
                        &&& (#[trigger] r@[i]).tag_name@ == spec_span_raw_text(text@, ps[i].0)
                        &&& r@[i].id@ == spec_span_text(text@, ps[i].1)
                        &&& r@[i].id_range == spec_span_range(ps[i].1)
                    }
            }),
    {
        let pairs = raw_pairs(self, tree, text);
        let mut out: Vec<IEFDefinitionMatch> = Vec::new();
        let mut i: usize = 0;
        while i < pairs.len()
            invariant
                0 <= i <= pairs@.len(),
                out@.len() == i,
                forall|k: int|
                    0 <= k < i ==> {
                        &&& (#[trigger] out@[k]).tag_name@ == spec_span_raw_text(
                            text@,
                            pairs@[k].0,
                        )
                        &&& out@[k].id@ == spec_span_text(text@, pairs@[k].1)
                        &&& out@[k].id_range == spec_span_range(pairs@[k].1)
                    },
            decreases pairs@.len() - i,
        {
            let p = pairs[i];
            let tag_name = byte_slice(text, p.0.start_byte, p.0.end_byte);
            let raw_id = byte_slice(text, p.1.start_byte, p.1.end_byte);
            let id = remove_quotes(&raw_id);
            out.push(IEFDefinitionMatch { id, tag_name, id_range: span_range(&p.1) });
            i += 1;
        }
        out
    }
}

/// The attribute pairs of the smallest node covering `node`'s span: per
/// attribute-query match its name and value, both with quoting stripped.
/// `None` exactly when the attribute query does not compile.
pub fn parse_attrs(tree: &tree_sitter::Tree, text: &Vec<u8>, node: &NodeSpan) -> (r: Option<
    Vec<(Vec<u8>, Vec<u8>)>,
>)
    requires
        tree_text(*tree) == text@,
    ensures
        r is Some <==> query_compiles(spec_attr_query_pattern()),
        r matches Some(v) ==> ({
            let ps = pair_captures_in(
                spec_attr_query_pattern(),
                *tree,
                text@,
                node.start_byte as int,
                node.end_byte as int,
            );
            &&& v@.len() == ps.len()
            &&& forall|i: int|
                0 <= i < ps.len() ==> (#[trigger] v@[i]).0@ == spec_span_text(text@, ps[i].0)
                    && v@[i].1@ == spec_span_text(text@, ps[i].1)
        }),
{
    let q = match attr_query() {
        Some(q) => q,
        None => {
            return None;
        },
    };
    let pairs = raw_pairs_in(&q, tree, text, node.start_byte, node.end_byte);
    let mut out: Vec<(Vec<u8>, Vec<u8>)> = Vec::new();
    let mut i: usize = 0;
    while i < pairs.len()
        invariant
            0 <= i <= pairs@.len(),
            out@.len() == i,
            forall|k: int|
                0 <= k < i ==> (#[trigger] out@[k]).0@ == spec_span_text(text@, pairs@[k].0)
                    && out@[k].1@ == spec_span_text(text@, pairs@[k].1),
        decreases pairs@.len() - i,
    {
        let p = pairs[i];
        let raw_key = byte_slice(text, p.0.start_byte, p.0.end_byte);
        let raw_val = byte_slice(text, p.1.start_byte, p.1.end_byte);
        out.push((remove_quotes(&raw_key), remove_quotes(&raw_val)));
        i += 1;
    }
    Some(out)
}

/// The element around `node`'s span, read as a tag: its name (the
/// tag-name query's first capture there) and its attribute pairs. `None`
/// exactly when no tag name is found there or a query does not compile.
pub fn parse_tag(tree: &tree_sitter::Tree, text: &Vec<u8>, node: &NodeSpan) -> (r: Option<
    XMLElement,
>)
    requires
        tree_text(*tree) == text@,
    ensures
        r is Some <==> (query_compiles(spec_tag_name_query_pattern()) && query_compiles(
            spec_attr_query_pattern(),
        ) && first_capture_in(
            spec_tag_name_query_pattern(),
            *tree,
            text@,
            node.start_byte as int,
            node.end_byte as int,
        ) is Some),
        r matches Some(x) ==> ({
            &&& first_capture_in(
                spec_tag_name_query_pattern(),
                *tree,
                text@,
                node.start_byte as int,
                node.end_byte as int,
            ) matches Some(c) && x.name@ == spec_span_text(text@, c)
            &&& ({
                let ps = pair_captures_in(
                    spec_attr_query_pattern(),
                    *tree,
                    text@,
                    node.start_byte as int,
                    node.end_byte as int,
                );
                &&& x.attrs@.len() == ps.len()
                &&& forall|i: int|
                    0 <= i < ps.len() ==> (#[trigger] x.attrs@[i]).0@ == spec_span_text(
                        text@,
                        ps[i].0,
                    ) && x.attrs@[i].1@ == spec_span_text(text@, ps[i].1)
            })
        }),
{
    let q = match tag_name_query() {
        Some(q) => q,
        None => {
            return None;
        },
    };
    let name_span = match raw_first_in(&q, tree, text, node.start_byte, node.end_byte) {
        Some(c) => c,
        None => {
            return None;
        },
    };
    let raw_name = byte_slice(text, name_span.start_byte, name_span.end_byte);
    let name = remove_quotes(&raw_name);
    let attrs = match parse_attrs(tree, text, node) {
        Some(a) => a,
        None => {
            return None;
        },
    };
    Some(XMLElement { name, attrs })
}

/// The pattern that finds a document's base-policy reference: the content
/// of the `PolicyId` element inside a `BasePolicy` element.
pub open spec fn spec_base_query_pattern() -> Seq<char> {
    ("(element 
      (STag 
        (Name) @tagName) 
      (content 
        (element
          (STag 
            (Name) @innerName) (content) @basePolicyId
          (#eq? @innerName \"PolicyId\")) @content 
        (#eq? @tagName \"BasePolicy\")))
      ")@
}

pub fn base_policy_query() -> (r: Option<IEFQuery>)
    ensures
        r is Some <==> query_compiles(spec_base_query_pattern()),
        r matches Some(q) ==> q.wf() && q.pat() == spec_base_query_pattern(),
{
    IEFQuery::new(
        "(element 
      (STag 
        (Name) @tagName) 
      (content 
        (element
          (STag 
            (Name) @innerName) (content) @basePolicyId
          (#eq? @innerName \"PolicyId\")) @content 
        (#eq? @tagName \"BasePolicy\")))
      ",
    )
}

/// The pattern that finds a document's own identifier: the `PolicyId`
/// attribute of an element's start tag.
pub open spec fn spec_id_query_pattern() -> Seq<char> {
    ("(element 
         (STag 
          (Name) 
          (Attribute 
           (Name) @name 
           (AttValue) @PolicyId 
           (#eq? @name \"PolicyId\")
           )
          )
         )")@
}

pub fn id_query() -> (r: Option<IEFQuery>)
    ensures
        r is Some <==> query_compiles(spec_id_query_pattern()),
        r matches Some(q) ==> q.wf() && q.pat() == spec_id_query_pattern(),
{
    IEFQuery::new(
        "(element 
         (STag 
          (Name) 
          (Attribute 
           (Name) @name 
           (AttValue) @PolicyId 
           (#eq? @name \"PolicyId\")
           )
          )
         )",
    )
}

/// The pattern that captures a tag's name, from a start tag or an empty
/// element tag.
pub open spec fn spec_tag_name_query_pattern() -> Seq<char> {
    ("[
        (STag (Name) @tagName)
        (EmptyElemTag (Name) @tagName)
        ]")@
}

pub fn tag_name_query() -> (r: Option<IEFQuery>)
    ensures
        r is Some <==> query_compiles(spec_tag_name_query_pattern()),
        r matches Some(q) ==> q.wf() && q.pat() == spec_tag_name_query_pattern(),
{
    IEFQuery::new(
        "[
        (STag (Name) @tagName)
        (EmptyElemTag (Name) @tagName)
        ]",
    )
}

/// The pattern that finds definitions: elements whose start tag carries an
/// `Id` attribute, capturing the tag name and the identifier.
pub open spec fn spec_definition_query_pattern() -> Seq<char> {
    ("(element 
         (STag 
          (Name) @tagName
          (Attribute 
           (Name)  @attrName
           (AttValue) @id 
           (#eq? @attrName \"Id\")
           )
          )
         )")@
}

pub fn definition_query() -> (r: Option<IEFQuery>)
    ensures
        r is Some <==> query_compiles(spec_definition_query_pattern()),
        r matches Some(q) ==> q.wf() && q.pat() == spec_definition_query_pattern(),
{
    IEFQuery::new(
        "(element 
         (STag 
          (Name) @tagName
          (Attribute 
           (Name)  @attrName
           (AttValue) @id 
           (#eq? @attrName \"Id\")
           )
          )
         )",
    )
}

/// The pattern that captures every attribute name/value pair.
pub open spec fn spec_attr_query_pattern() -> Seq<char> {
    ("(
           (Name)  @attrName
           (AttValue) @id 
        )")@
}

pub fn attr_query() -> (r: Option<IEFQuery>)
    ensures
        r is Some <==> query_compiles(spec_attr_query_pattern()),
        r matches Some(q) ==> q.wf() && q.pat() == spec_attr_query_pattern(),
{
    IEFQuery::new(
        "(
           (Name)  @attrName
           (AttValue) @id 
        )",
    )
}

} // verus!
