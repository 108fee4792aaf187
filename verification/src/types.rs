//! Plain value types shared by the whole library: positions, ranges, edits,
//! diagnostics, and the error type for document updates.
//!
//! Positions are zero-based (line, column) pairs whose column counts bytes
//! within the line; this byte semantics is fixed for the whole crate.

use vstd::prelude::*;
use vstd::string::*;

verus! {

/// A zero-based (line, byte-column) position in a document.
#[derive(Clone, Copy, PartialEq, Eq, Structural, Debug)]
pub struct Position {
    pub line: u32,
    pub character: u32,
}

/// A half-open span between two positions; `end` may equal `start`
/// (a zero-width range).
#[derive(Clone, Copy, PartialEq, Eq, Structural, Debug)]
pub struct Range {
    pub start: Position,
    pub end: Position,
}

/// One text edit: delete the bytes covered by `range`, then insert
/// `new_text` at `range.start`. An empty `new_text` is a pure deletion,
/// a zero-width `range` a pure insertion; both are the same operation.
#[derive(Clone, Debug)]
pub struct TextEdit {
    pub range: Range,
    pub new_text: Vec<u8>,
}

/// Severity of a diagnostic. This engine only ever reports errors.
#[derive(Clone, Copy, PartialEq, Eq, Structural, Debug)]
pub enum DiagnosticSeverity {
    Error,
}

/// A located validation message for one document, produced fresh on every
/// diagnostic computation.
#[derive(Clone, Debug)]
pub struct Diagnostic {
    pub range: Range,
    pub severity: DiagnosticSeverity,
    pub message: Vec<u8>,
    pub source: Vec<u8>,
}

/// Error reported when a document update cannot be carried out (an unknown
/// document, or an edit with a malformed position).
#[derive(Clone, Debug)]
pub struct UpdateDocError {
    pub msg: Vec<u8>,
}

impl UpdateDocError {
    pub fn new(msg: &str) -> (r: Self)
        ensures
            r.msg@ == msg.spec_bytes(),
    {
        UpdateDocError { msg: msg.as_bytes_vec() }
    }
}

/// The zero-width range at the very start of a document, used as the
/// fallback placement for diagnostics that have no better location.
pub open spec fn spec_null_range() -> Range {
    Range {
        start: Position { line: 0, character: 0 },
        end: Position { line: 0, character: 0 },
    }
}

pub fn null_range() -> (r: Range)
    ensures
        r == spec_null_range(),
{
    let start = Position { line: 0, character: 0 };
    let end = Position { line: 0, character: 0 };
    Range { start, end }
}

/// The URI scheme prefix put in front of a filesystem path.
pub open spec fn spec_uri_prefix() -> Seq<u8> {
    ("file://").spec_bytes()
}

/// A location rendered as a URI: the path with the scheme prefix in front.
pub open spec fn spec_to_uri(path: Seq<u8>) -> Seq<u8> {
    spec_uri_prefix() + path
}

/// A URI turned back into a path: the scheme prefix removed if present.
pub open spec fn spec_from_uri(uri: Seq<u8>) -> Seq<u8> {
    if uri.len() >= spec_uri_prefix().len() && uri.subrange(
        0,
        spec_uri_prefix().len() as int,
    ) == spec_uri_prefix() {
        uri.subrange(spec_uri_prefix().len() as int, uri.len() as int)
    } else {
        uri
    }
}

pub fn to_uri(path: &Vec<u8>) -> (r: Vec<u8>)
    ensures
        r@ == spec_to_uri(path@),
{
    let mut r = ("file://").as_bytes_vec();
    r.extend_from_slice(path.as_slice());
    r
}

pub fn from_uri(uri: &Vec<u8>) -> (r: Vec<u8>)
    ensures
        r@ == spec_from_uri(uri@),
{
    let prefix = ("file://").as_bytes_vec();
    let plen = prefix.len();
    if uri.len() < plen {
        return copy_bytes(uri);
    }
    let mut i: usize = 0;
    while i < plen
        invariant
            0 <= i <= plen,
            plen <= uri@.len(),
            prefix@ == spec_uri_prefix(),
            forall|k: int| 0 <= k < i ==> uri@[k] == prefix@[k],
        decreases plen - i,
    {
        if uri[i] != prefix[i] {
            assert(uri@.subrange(0, plen as int) != spec_uri_prefix()) by {
                assert(uri@.subrange(0, plen as int)[i as int] != spec_uri_prefix()[i as int]);
            }
            return copy_bytes(uri);
        }
        i += 1;
    }
    assert(uri@.subrange(0, plen as int) =~= spec_uri_prefix());
    let mut r: Vec<u8> = Vec::new();
    let mut j: usize = plen;
    while j < uri.len()
        invariant
            plen <= j <= uri@.len(),
            r@ == uri@.subrange(plen as int, j as int),
        decreases uri@.len() - j,
    {
        r.push(uri[j]);
        assert(uri@.subrange(plen as int, j + 1 as int) =~= uri@.subrange(plen as int, j as int).push(
            uri@[j as int],
        ));
        j += 1;
    }
    r
}

/// Whether two byte vectors hold the same bytes.
pub fn bytes_eq(a: &Vec<u8>, b: &Vec<u8>) -> (r: bool)
    ensures
        r == (a@ == b@),
{
    if a.len() != b.len() {
        return false;
    }
    let mut i: usize = 0;
    while i < a.len()
        invariant
            0 <= i <= a@.len(),
            a@.len() == b@.len(),
            forall|k: int| 0 <= k < i ==> a@[k] == b@[k],
        decreases a@.len() - i,
    {
        if a[i] != b[i] {
            return false;
        }
        i += 1;
    }
    assert(a@ =~= b@);
    true
}

/// A fresh copy of a byte vector.
pub fn copy_bytes(src: &Vec<u8>) -> (r: Vec<u8>)
    ensures
        r@ == src@,
{
    let mut r: Vec<u8> = Vec::new();
    let mut i: usize = 0;
    while i < src.len()
        invariant
            0 <= i <= src@.len(),
            r@ == src@.subrange(0, i as int),
        decreases src@.len() - i,
    {
        r.push(src[i]);
        assert(src@.subrange(0, i + 1 as int) =~= src@.subrange(0, i as int).push(src@[i as int]));
        i += 1;
    }
    assert(src@.subrange(0, src@.len() as int) =~= src@);
    r
}

} // verus!
