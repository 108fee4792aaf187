//! Documents and the workspace index: each policy document composes a
//! text buffer, a structural tree and the facts extracted from it (its
//! identifier, its optional base-policy reference); the workspace owns
//! the mapping from location to document, resolves identifiers, and
//! computes diagnostics across documents.
//!
//! A document is updated atomically: the new tree and the facts extracted
//! from it are swapped in together, or — when reparsing or fact
//! extraction fails — the previous tree and facts are kept whole, and the
//! document serves stale structure until a later edit succeeds. The text
//! buffer itself always advances, so later edits of a batch are always
//! interpreted against the text after the earlier ones.
//!
//! Identifier comparison is exact (case-sensitive), as the policy
//! language's convention demands; this is a contract, not an accident.

use vstd::prelude::*;
use vstd::string::*;

use crate::queries::{
    parse_document,
    reparse_document,
    tree_text,
    base_policy_query,
    id_query,
    query_compiles,
    spec_parses,
    spec_base_query_pattern,
    spec_id_query_pattern,
    spec_first_match,
    IEFQueryMatch,
};
use crate::sync::{
    spec_apply_edit,
    spec_delta_valid,
    spec_edit_start,
    spec_edit_end,
    spec_noop_edit,
    edit_delta,
    TextSync,
};
use crate::types::{
    bytes_eq,
    copy_bytes,
    null_range,
    spec_null_range,
    spec_to_uri,
    to_uri,
    Diagnostic,
    DiagnosticSeverity,
    Range,
    TextEdit,
    UpdateDocError,
};

verus! {

/// The identifier facts of a tree: the document's own declared identifier
/// (empty when none is declared).
pub open spec fn spec_policy_id(t: tree_sitter::Tree, text: Seq<u8>) -> Seq<u8> {
    match spec_first_match(spec_id_query_pattern(), t, text) {
        Some(p) => p.0,
        None => Seq::empty(),
    }
}

/// The base-reference fact of a tree: the referenced identifier and where
/// the reference stands, if the document declares one.
pub open spec fn spec_policy_base(t: tree_sitter::Tree, text: Seq<u8>) -> Option<(Seq<u8>, Range)> {
    spec_first_match(spec_base_query_pattern(), t, text)
}

/// Whether a stored base-reference fact agrees with the specified one.
pub open spec fn spec_base_matches(m: Option<IEFQueryMatch>, s: Option<(Seq<u8>, Range)>) -> bool {
    match (m, s) {
        (Some(m), Some(p)) => m.txt@ == p.0 && m.range == p.1,
        (None, None) => true,
        _ => false,
    }
}

/// One policy document: its text buffer, its structural tree, and the
/// facts extracted from the tree. `snapshot` is the (ghost) text the tree
/// and facts were derived from; it trails the buffer only while the
/// document serves stale structure after a failed reparse.
#[allow(non_camel_case_types)]
pub struct IEF_Policy {
    pub text: TextSync,
    pub tree: tree_sitter::Tree,
    pub id: Vec<u8>,
    pub base_id: Option<IEFQueryMatch>,
    pub snapshot: Ghost<Seq<u8>>,
}

impl IEF_Policy {
    /// The document's invariant: tree and facts agree with the snapshot
    /// text they were derived from.
    pub open spec fn wf(&self) -> bool {
        &&& tree_text(self.tree) == self.snapshot@
        &&& self.id@ == spec_policy_id(self.tree, self.snapshot@)
        &&& spec_base_matches(self.base_id, spec_policy_base(self.tree, self.snapshot@))
    }

    /// Whether the tree and facts are derived from the current text (no
    /// stale structure).
    pub open spec fn fresh(&self) -> bool {
        self.snapshot@ == self.text@
    }

    /// Create a document from its initial text: parse it and extract the
    /// facts. This fails — the document is not tracked — exactly when the
    /// initial parse fails or one of the two fixed queries does not
    /// compile.
    pub fn new(text: Vec<u8>) -> (r: Option<IEF_Policy>)
        ensures
            r is Some <==> (spec_parses(text@) && query_compiles(spec_id_query_pattern())
                && query_compiles(spec_base_query_pattern())),
            r matches Some(p) ==> p.wf() && p.fresh() && p.text@ == text@,
    {
        let tree = match parse_document(&text) {
            Some(t) => t,
            None => {
                return None;
            },
        };
        let facts = match extract_facts(&tree, &text) {
            Some(f) => f,
            None => {
                return None;
            },
        };
        let ghost snap = text@;
        let buffer = TextSync::new(text);
        Some(
            IEF_Policy {
                text: buffer,
                tree,
                id: facts.0,
                base_id: facts.1,
                snapshot: Ghost(snap),
            },
        )
    }

    /// Apply one edit: derive the tree delta from the pre-edit buffer,
    /// splice the buffer, reparse incrementally, and re-extract the facts,
    /// swapping tree and facts in together. A malformed edit is reported
    /// and changes nothing; a failed reparse keeps the previous tree and
    /// facts whole (stale structure), while a post-edit text that parses
    /// (with the fixed queries compiling) leaves the document fresh. A
    /// zero-width edit with an empty replacement changes nothing at all.
    pub fn handle_edit(&mut self, edit: &TextEdit) -> (r: Result<(), UpdateDocError>)
        requires
            old(self).wf(),
        ensures
            final(self).wf(),
            r is Ok <==> spec_delta_valid(old(self).text@, *edit),
            r is Ok ==> final(self).text@ == spec_apply_edit(old(self).text@, *edit),
            r is Err ==> *final(self) == *old(self),
            r is Ok ==> final(self).fresh() || (final(self).tree == old(self).tree
                && final(self).snapshot == old(self).snapshot
                && final(self).id == old(self).id
                && final(self).base_id == old(self).base_id),
            (r is Ok && spec_noop_edit(old(self).text@, *edit)) ==> *final(self) == *old(self),
            (r is Ok && !spec_noop_edit(old(self).text@, *edit) && spec_parses(final(self).text@)
                && query_compiles(spec_id_query_pattern()) && query_compiles(
                spec_base_query_pattern(),
            )) ==> final(self).fresh(),
    {
        let delta = match edit_delta(&self.text, edit) {
            Some(d) => d,
            None => {
                return Err(UpdateDocError::new("Edit position is malformed"));
            },
        };
        if delta.start_byte == delta.old_end_byte && edit.new_text.len() == 0 {
            proof {
                crate::sync::lemma_noop_edit(self.text@, *edit);
            }
            return Ok(());
        }
        let applied = self.text.edit(edit);
        assert(applied);
        if let Some(new_tree) = reparse_document(&self.tree, &delta, self.text.text()) {
            if let Some(facts) = extract_facts(&new_tree, self.text.text()) {
                self.tree = new_tree;
                self.id = facts.0;
                self.base_id = facts.1;
                self.snapshot = Ghost(self.text@);
            }
        }
        Ok(())
    }

    /// Re-extract the facts from the current tree, which must be fresh
    /// for the current text. Returns `false` — leaving the document
    /// unchanged — exactly when one of the two fixed queries does not
    /// compile; otherwise the facts are replaced.
    pub fn compute_ids(&mut self) -> (r: bool)
        requires
            tree_text(old(self).tree) == old(self).text@,
        ensures
            r <==> (query_compiles(spec_id_query_pattern()) && query_compiles(
                spec_base_query_pattern(),
            )),
            final(self).text@ == old(self).text@,
            final(self).tree == old(self).tree,
            r ==> final(self).wf() && final(self).fresh(),
            !r ==> *final(self) == *old(self),
    {
        let facts = match extract_facts(&self.tree, self.text.text()) {
            Some(f) => f,
            None => {
                return false;
            },
        };
        self.id = facts.0;
        self.base_id = facts.1;
        self.snapshot = Ghost(self.text@);
        true
    }
}

/// Run the identifier and base-reference queries against a tree that is
/// fresh for `text`. `None` exactly when one of the two fixed queries
/// does not compile.
fn extract_facts(tree: &tree_sitter::Tree, text: &Vec<u8>) -> (r: Option<
    (Vec<u8>, Option<IEFQueryMatch>),
>)
    requires
        tree_text(*tree) == text@,
    ensures
        r is Some <==> (query_compiles(spec_id_query_pattern()) && query_compiles(
            spec_base_query_pattern(),
        )),
        r matches Some(f) ==> f.0@ == spec_policy_id(*tree, text@) && spec_base_matches(
            f.1,
            spec_policy_base(*tree, text@),
        ),
{
    let idq = match id_query() {
        Some(q) => q,
        None => {
            return None;
        },
    };
    let baseq = match base_policy_query() {
        Some(q) => q,
        None => {
            return None;
        },
    };
    let id = match idq.first(tree, text) {
        Some(m) => m.txt,
        None => Vec::new(),
    };
    let base = baseq.first(tree, text);
    Some((id, base))
}

} // verus!

// The workspace index: location -> document, identifier resolution, and
// workspace-wide diagnostics.

verus! {

/// The workspace: exclusive owner of all tracked documents, keyed by
/// their canonical location.
#[allow(non_camel_case_types)]
pub struct IEF_Workspace {
    pub root_path: Vec<u8>,
    pub policies: Vec<(Vec<u8>, IEF_Policy)>,
}

/// Whether some tracked document declares exactly this identifier.
pub open spec fn spec_resolves(ps: Seq<(Vec<u8>, IEF_Policy)>, id: Seq<u8>) -> bool {
    exists|i: int| 0 <= i < ps.len() && (#[trigger] ps[i]).1.id@ == id
}

/// The document tracked under a location, if any.
pub open spec fn spec_lookup(ps: Seq<(Vec<u8>, IEF_Policy)>, loc: Seq<u8>) -> Option<IEF_Policy>
    decreases ps.len(),
{
    if ps.len() == 0 {
        None
    } else if ps.first().0@ == loc {
        Some(ps.first().1)
    } else {
        spec_lookup(ps.drop_first(), loc)
    }
}

/// Under unique keys, looking a key up finds exactly its entry.
proof fn lemma_lookup_at_index(ps: Seq<(Vec<u8>, IEF_Policy)>, i: int)
    requires
        0 <= i < ps.len(),
        forall|j: int| 0 <= j < i ==> (#[trigger] ps[j]).0@ != ps[i].0@,
    ensures
        spec_lookup(ps, ps[i].0@) == Some(ps[i].1),
    decreases i,
{
    if i == 0 {
    } else {
        assert(ps[0].0@ != ps[i].0@);
        assert forall|j: int| 0 <= j < i - 1 implies (#[trigger] ps.drop_first()[j]).0@
            != ps.drop_first()[i - 1].0@ by {
            assert(ps.drop_first()[j] == ps[j + 1]);
            assert(ps.drop_first()[i - 1] == ps[i]);
        }
        lemma_lookup_at_index(ps.drop_first(), i - 1);
        assert(ps.drop_first()[i - 1] == ps[i]);
    }
}

/// A key no entry carries looks up to nothing.
proof fn lemma_lookup_none(ps: Seq<(Vec<u8>, IEF_Policy)>, loc: Seq<u8>)
    requires
        forall|i: int| 0 <= i < ps.len() ==> (#[trigger] ps[i]).0@ != loc,
    ensures
        spec_lookup(ps, loc) is None,
    decreases ps.len(),
{
    if ps.len() > 0 {
        assert forall|i: int| 0 <= i < ps.drop_first().len() implies (#[trigger] ps.drop_first()[i]).0@
            != loc by {
            assert(ps.drop_first()[i] == ps[i + 1]);
        }
        lemma_lookup_none(ps.drop_first(), loc);
    }
}

/// Whether some entry carries this location as its key.
fn contains_location(policies: &Vec<(Vec<u8>, IEF_Policy)>, loc: &Vec<u8>) -> (r: bool)
    ensures
        r == exists|i: int| 0 <= i < policies@.len() && (#[trigger] policies@[i]).0@ == loc@,
{
    let mut i: usize = 0;
    while i < policies.len()
        invariant
            0 <= i <= policies@.len(),
            forall|k: int| 0 <= k < i ==> (#[trigger] policies@[k]).0@ != loc@,
        decreases policies@.len() - i,
    {
        if bytes_eq(&policies[i].0, loc) {
            return true;
        }
        i += 1;
    }
    false
}

impl IEF_Workspace {
    /// The workspace invariant: locations are unique, and every tracked
    /// document is well formed.
    pub open spec fn wf(&self) -> bool {
        &&& forall|i: int, j: int|
            #![trigger self.policies@[i], self.policies@[j]]
            0 <= i < j < self.policies@.len() ==> self.policies@[i].0@ != self.policies@[j].0@
        &&& forall|i: int| 0 <= i < self.policies@.len() ==> (#[trigger] self.policies@[i]).1.wf()
    }

    /// The first tracked document (in index order) whose declared
    /// identifier equals `id` exactly; comparison is case-sensitive.
    pub fn find_policy_by_id(&self, id: &Vec<u8>) -> (r: Option<&IEF_Policy>)
        ensures
            (r is Some) == spec_resolves(self.policies@, id@),
            r matches Some(p) ==> exists|i: int|
                0 <= i < self.policies@.len() && (#[trigger] self.policies@[i]).1 == *p
                    && self.policies@[i].1.id@ == id@ && (forall|j: int|
                    0 <= j < i ==> (#[trigger] self.policies@[j]).1.id@ != id@),
    {
        let mut i: usize = 0;
        while i < self.policies.len()
            invariant
                0 <= i <= self.policies@.len(),
                forall|k: int| 0 <= k < i ==> (#[trigger] self.policies@[k]).1.id@ != id@,
            decreases self.policies@.len() - i,
        {
            if bytes_eq(&self.policies[i].1.id, id) {
                return Some(&self.policies[i].1);
            }
            i += 1;
        }
        None
    }

    /// Route one edit to the document at `location`. Reports "Document
    /// not found" for an untracked location and a malformed-position
    /// error for an invalid edit; in both cases nothing changes.
    fn handle_edit(&mut self, location: &Vec<u8>, edit: &TextEdit) -> (r: Result<
        (),
        UpdateDocError,
    >)
        requires
            old(self).wf(),
        ensures
            final(self).wf(),
            final(self).root_path == old(self).root_path,
            final(self).policies@.len() == old(self).policies@.len(),
            forall|i: int|
                0 <= i < old(self).policies@.len() ==> (#[trigger] final(self).policies@[i]).0
                    == old(self).policies@[i].0,
            r is Ok <==> (match spec_lookup(old(self).policies@, location@) {
                Some(p) => spec_delta_valid(p.text@, *edit),
                None => false,
            }),
            forall|i: int|
                0 <= i < old(self).policies@.len() && (#[trigger] old(self).policies@[i]).0@
                    != location@ ==> final(self).policies@[i] == old(self).policies@[i],
            match spec_lookup(old(self).policies@, location@) {
                Some(p) => spec_lookup(final(self).policies@, location@) matches Some(p2) && p2.text@
                    == (if spec_delta_valid(p.text@, *edit) {
                    spec_apply_edit(p.text@, *edit)
                } else {
                    p.text@
                }),
                None => *final(self) == *old(self),
            },
    {
        let n = self.policies.len();
        let mut idx: usize = 0;
        while idx < n && !bytes_eq(&self.policies[idx].0, location)
            invariant
                0 <= idx <= n,
                forall|k: int| 0 <= k < idx ==> (#[trigger] self.policies@[k]).0@ != location@,
            decreases n - idx,
        {
            idx += 1;
        }
        if idx == n {
            proof {
                lemma_lookup_none(self.policies@, location@);
            }
            return Err(UpdateDocError::new("Document not found"));
        }
        proof {
            lemma_lookup_at_index(self.policies@, idx as int);
        }
        let ghost old_ps = self.policies@;
        let (loc_key, mut pol) = self.policies.remove(idx);
        let res = pol.handle_edit(edit);
        self.policies.insert(idx, (loc_key, pol));
        proof {
            assert(self.policies@ =~= old_ps.update(
                idx as int,
                (old_ps[idx as int].0, self.policies@[idx as int].1),
            ));
            assert forall|j: int| 0 <= j < idx implies (#[trigger] self.policies@[j]).0@
                != self.policies@[idx as int].0@ by {
                assert(self.policies@[j] == old_ps[j]);
            }
            lemma_lookup_at_index(self.policies@, idx as int);
        }
        res
    }

    /// Apply a batch of edits to the document at `location`, strictly in
    /// the order given, each against the text the earlier ones produced.
    /// An untracked location is a reported error; a malformed edit stops
    /// the batch at that point and is reported, the edits before it
    /// remaining applied.
    pub fn update_document(&mut self, document: &Vec<u8>, changes: &Vec<TextEdit>) -> (r: Result<
        (),
        UpdateDocError,
    >)
        requires
            old(self).wf(),
        ensures
            final(self).wf(),
            final(self).root_path == old(self).root_path,
            final(self).policies@.len() == old(self).policies@.len(),
            forall|i: int|
                0 <= i < old(self).policies@.len() ==> (#[trigger] final(self).policies@[i]).0
                    == old(self).policies@[i].0,
            r is Ok <==> (match spec_lookup(old(self).policies@, document@) {
                Some(p) => spec_edits_valid(p.text@, changes@),
                None => false,
            }),
            forall|i: int|
                0 <= i < old(self).policies@.len() && (#[trigger] old(self).policies@[i]).0@
                    != document@ ==> final(self).policies@[i] == old(self).policies@[i],
            match spec_lookup(old(self).policies@, document@) {
                Some(p) => spec_lookup(final(self).policies@, document@) matches Some(p2)
                    && p2.text@ == spec_apply_valid_prefix(p.text@, changes@),
                None => *final(self) == *old(self),
            },
    {
        if !contains_location(&self.policies, document) {
            proof {
                lemma_lookup_none(self.policies@, document@);
            }
            return Err(UpdateDocError::new("Document not found"));
        }
        proof {
            let i = choose|i: int|
                0 <= i < self.policies@.len() && (#[trigger] self.policies@[i]).0@ == document@;
            assert forall|j: int| 0 <= j < i implies (#[trigger] self.policies@[j]).0@
                != self.policies@[i].0@ by {}
            lemma_lookup_at_index(self.policies@, i);
        }
        let ghost orig = spec_lookup(self.policies@, document@).unwrap().text@;
        let n = changes.len();
        let mut j: usize = 0;
        assert(changes@.subrange(0, n as int) =~= changes@);
        while j < n
            invariant
                0 <= j <= n,
                self.wf(),
                self.root_path == old(self).root_path,
                self.policies@.len() == old(self).policies@.len(),
                forall|i: int|
                    0 <= i < old(self).policies@.len() ==> (#[trigger] self.policies@[i]).0 == old(
                        self,
                    ).policies@[i].0,
                forall|i: int|
                    0 <= i < old(self).policies@.len() && (#[trigger] old(self).policies@[i]).0@
                        != document@ ==> self.policies@[i] == old(self).policies@[i],
                spec_lookup(self.policies@, document@) is Some,
                spec_apply_valid_prefix(orig, changes@) == spec_apply_valid_prefix(
                    spec_lookup(self.policies@, document@).unwrap().text@,
                    changes@.subrange(j as int, n as int),
                ),
                spec_edits_valid(orig, changes@) == spec_edits_valid(
                    spec_lookup(self.policies@, document@).unwrap().text@,
                    changes@.subrange(j as int, n as int),
                ),
            decreases n - j,
        {
            proof {
                assert(changes@.subrange(j as int, n as int).first() == changes@[j as int]);
                assert(changes@.subrange(j as int, n as int).drop_first() =~= changes@.subrange(
                    (j + 1) as int,
                    n as int,
                ));
            }
            match self.handle_edit(document, &changes[j]) {
                Ok(()) => {},
                Err(e) => {
                    return Err(e);
                },
            }
            j += 1;
        }
        assert(changes@.subrange(n as int, n as int) =~= Seq::<TextEdit>::empty());
        Ok(())
    }
}

/// Whether every edit of the batch, applied in order, is valid against
/// the text the earlier ones produced.
pub open spec fn spec_edits_valid(s: Seq<u8>, edits: Seq<TextEdit>) -> bool
    decreases edits.len(),
{
    edits.len() == 0 || (spec_delta_valid(s, edits.first()) && spec_edits_valid(
        spec_apply_edit(s, edits.first()),
        edits.drop_first(),
    ))
}

/// The text after applying the batch's longest valid prefix, in order.
pub open spec fn spec_apply_valid_prefix(s: Seq<u8>, edits: Seq<TextEdit>) -> Seq<u8>
    decreases edits.len(),
{
    if edits.len() == 0 {
        s
    } else if !spec_delta_valid(s, edits.first()) {
        s
    } else {
        spec_apply_valid_prefix(spec_apply_edit(s, edits.first()), edits.drop_first())
    }
}

/// Every tracked document's location and text come from the given
/// (location, text) pairs.
pub open spec fn spec_from_documents(
    ps: Seq<(Vec<u8>, IEF_Policy)>,
    docs: Seq<(Vec<u8>, Vec<u8>)>,
) -> bool {
    forall|i: int|
        0 <= i < ps.len() ==> exists|j: int|
            0 <= j < docs.len() && (#[trigger] ps[i]).0@ == (#[trigger] docs[j]).0@
                && ps[i].1.text@ == docs[j].1@
}

/// Whether candidate `j` of the given (location, text) pairs is tracked
/// as owed: a pair whose text parses, whose fixed queries compile, and
/// whose location no earlier pair carries (the first entry wins) must
/// stand in the workspace under its location, with its text.
pub open spec fn spec_tracks_candidate(
    ps: Seq<(Vec<u8>, IEF_Policy)>,
    docs: Seq<(Vec<u8>, Vec<u8>)>,
    j: int,
) -> bool {
    (spec_parses(docs[j].1@) && query_compiles(spec_id_query_pattern()) && query_compiles(
        spec_base_query_pattern(),
    ) && (forall|k: int| 0 <= k < j ==> (#[trigger] docs[k]).0@ != docs[j].0@)) ==> (exists|i: int|
        0 <= i < ps.len() && (#[trigger] ps[i]).0@ == docs[j].0@ && ps[i].1.text@ == docs[j].1@)
}

/// Every tracked location stems from one of the first `upto` pairs.
spec fn spec_origin_upto(
    ps: Seq<(Vec<u8>, IEF_Policy)>,
    docs: Seq<(Vec<u8>, Vec<u8>)>,
    upto: int,
) -> bool {
    forall|a: int|
        0 <= a < ps.len() ==> exists|j: int|
            0 <= j < upto && (#[trigger] ps[a]).0@ == (#[trigger] docs[j]).0@
}

/// Build a workspace from the documents discovered under a root: one
/// policy per parseable document, the first entry winning a duplicated
/// location; unparseable documents are skipped, not fatal.
pub fn new_workspace(root_path: Vec<u8>, documents: &Vec<(Vec<u8>, Vec<u8>)>) -> (r: IEF_Workspace)
    ensures
        r.wf(),
        r.root_path@ == root_path@,
        forall|i: int| 0 <= i < r.policies@.len() ==> (#[trigger] r.policies@[i]).1.fresh(),
        spec_from_documents(r.policies@, documents@),
        forall|j: int| 0 <= j < documents@.len() ==> spec_tracks_candidate(r.policies@, documents@, j),
{
    let mut policies: Vec<(Vec<u8>, IEF_Policy)> = Vec::new();
    let mut i: usize = 0;
    while i < documents.len()
        invariant
            i <= documents@.len(),
            forall|a: int, b: int|
                #![trigger policies@[a], policies@[b]]
                0 <= a < b < policies@.len() ==> policies@[a].0@ != policies@[b].0@,
            forall|a: int| 0 <= a < policies@.len() ==> (#[trigger] policies@[a]).1.wf(),
            forall|a: int| 0 <= a < policies@.len() ==> (#[trigger] policies@[a]).1.fresh(),
            spec_from_documents(policies@, documents@),
            spec_origin_upto(policies@, documents@, i as int),
            forall|j: int| 0 <= j < i ==> spec_tracks_candidate(policies@, documents@, j),
        decreases documents@.len() - i,
    {
        let ghost before = policies@;
        let loc = &documents[i].0;
        if !contains_location(&policies, loc) {
            let text = copy_bytes(&documents[i].1);
            if let Some(p) = IEF_Policy::new(text) {
                let key = copy_bytes(loc);
                policies.push((key, p));
                proof {
                    let last = policies@.len() - 1;
                    assert(policies@[last].0@ == documents@[i as int].0@
                        && policies@[last].1.text@ == documents@[i as int].1@);
                    assert forall|j: int| 0 <= j < i + 1 implies spec_tracks_candidate(
                        policies@,
                        documents@,
                        j,
                    ) by {
                        if j < i {
                            assert(spec_tracks_candidate(before, documents@, j));
                            assert forall|a: int|
                                0 <= a < before.len() implies policies@[a] == before[a] by {}
                        }
                    }
                }
            } else {
                proof {
                    // The pair's text does not parse (or a query does not
                    // compile), so nothing is owed for it.
                    assert forall|j: int| 0 <= j < i + 1 implies spec_tracks_candidate(
                        policies@,
                        documents@,
                        j,
                    ) by {}
                }
            }
        } else {
            proof {
                // An entry with this location already stands and it stems
                // from an earlier pair, so this pair is not the first
                // with its location and nothing is owed for it.
                assert forall|j: int| 0 <= j < i + 1 implies spec_tracks_candidate(
                    policies@,
                    documents@,
                    j,
                ) by {
                    if j == i {
                        if forall|k: int| 0 <= k < j ==> (#[trigger] documents@[k]).0@
                            != documents@[j].0@ {
                            let a = choose|a: int|
                                0 <= a < policies@.len() && (#[trigger] policies@[a]).0@
                                    == documents@[i as int].0@;
                            let k = choose|k: int|
                                0 <= k < i && (#[trigger] policies@[a]).0@ == (#[trigger] documents@[k]).0@;
                            assert(documents@[k].0@ == documents@[j].0@);
                            assert(false);
                        }
                    }
                }
            }
        }
        i += 1;
    }
    IEF_Workspace { root_path, policies }
}

} // verus!

// The diagnostic engine: per document, a dangling base reference and a
// missing identifier each yield one Error diagnostic; a resolved
// reference yields none.

verus! {

/// The message reported for a base reference no document satisfies.
pub open spec fn spec_dangling_message(id: Seq<u8>) -> Seq<u8> {
    ("referenced policy '").spec_bytes() + id + ("' does not exist.").spec_bytes()
}

/// The message reported for a document that declares no identifier.
pub open spec fn spec_missing_id_message() -> Seq<u8> {
    ("Policy requires a Policy ID").spec_bytes()
}

/// The source tag this engine stamps on every diagnostic.
pub open spec fn spec_source_tag() -> Seq<u8> {
    ("IEF_LSP").spec_bytes()
}

fn dangling_message(id: &Vec<u8>) -> (r: Vec<u8>)
    ensures
        r@ == spec_dangling_message(id@),
{
    let mut m = ("referenced policy '").as_bytes_vec();
    m.extend_from_slice(id.as_slice());
    let suffix = ("' does not exist.").as_bytes_vec();
    m.extend_from_slice(suffix.as_slice());
    m
}

fn missing_id_message() -> (r: Vec<u8>)
    ensures
        r@ == spec_missing_id_message(),
{
    ("Policy requires a Policy ID").as_bytes_vec()
}

fn source_tag() -> (r: Vec<u8>)
    ensures
        r@ == spec_source_tag(),
{
    ("IEF_LSP").as_bytes_vec()
}

/// Whether the document's base reference dangles: it declares one, and no
/// tracked document declares that identifier.
pub open spec fn spec_dangling(p: IEF_Policy, ps: Seq<(Vec<u8>, IEF_Policy)>) -> bool {
    match p.base_id {
        Some(m) => !spec_resolves(ps, m.txt@),
        None => false,
    }
}

/// Whether the document declares no identifier.
pub open spec fn spec_missing_id(p: IEF_Policy) -> bool {
    p.id@.len() == 0
}

/// The diagnostic placed at a dangling reference's recorded range.
pub open spec fn spec_is_dangling_diag(d: Diagnostic, m: IEFQueryMatch) -> bool {
    &&& d.range == m.range
    &&& d.severity == DiagnosticSeverity::Error
    &&& d.message@ == spec_dangling_message(m.txt@)
    &&& d.source@ == spec_source_tag()
}

/// The diagnostic placed at the document's start for a missing
/// identifier.
pub open spec fn spec_is_missing_diag(d: Diagnostic) -> bool {
    &&& d.range == spec_null_range()
    &&& d.severity == DiagnosticSeverity::Error
    &&& d.message@ == spec_missing_id_message()
    &&& d.source@ == spec_source_tag()
}

/// Exactly which diagnostics one document gets: one per condition that
/// holds (dangling reference first, then missing identifier), none
/// otherwise.
pub open spec fn spec_diags_ok(p: IEF_Policy, ps: Seq<(Vec<u8>, IEF_Policy)>, ds: Seq<Diagnostic>) -> bool {
    if spec_dangling(p, ps) && spec_missing_id(p) {
        ds.len() == 2 && spec_is_dangling_diag(ds[0], p.base_id.unwrap()) && spec_is_missing_diag(
            ds[1],
        )
    } else if spec_dangling(p, ps) {
        ds.len() == 1 && spec_is_dangling_diag(ds[0], p.base_id.unwrap())
    } else if spec_missing_id(p) {
        ds.len() == 1 && spec_is_missing_diag(ds[0])
    } else {
        ds.len() == 0
    }
}

impl IEF_Workspace {
    /// Compute fresh diagnostics for every tracked document, from the
    /// current facts alone: per document its location as a URI and its
    /// diagnostic list (empty lists included).
    pub fn get_diagnostics(&self) -> (r: Vec<(Vec<u8>, Vec<Diagnostic>)>)
        ensures
            r@.len() == self.policies@.len(),
            forall|i: int|
                0 <= i < self.policies@.len() ==> (#[trigger] r@[i]).0@ == spec_to_uri(
                    self.policies@[i].0@,
                ) && spec_diags_ok(self.policies@[i].1, self.policies@, r@[i].1@),
    {
        let mut out: Vec<(Vec<u8>, Vec<Diagnostic>)> = Vec::new();
        let mut i: usize = 0;
        while i < self.policies.len()
            invariant
                0 <= i <= self.policies@.len(),
                out@.len() == i,
                forall|k: int|
                    0 <= k < i ==> (#[trigger] out@[k]).0@ == spec_to_uri(self.policies@[k].0@)
                        && spec_diags_ok(self.policies@[k].1, self.policies@, out@[k].1@),
            decreases self.policies@.len() - i,
        {
            let mut diags: Vec<Diagnostic> = Vec::new();
            match &self.policies[i].1.base_id {
                None => {},
                Some(base) => {
                    match self.find_policy_by_id(&base.txt) {
                        Some(_) => {},
                        None => {
                            diags.push(
                                Diagnostic {
                                    range: base.range,
                                    severity: DiagnosticSeverity::Error,
                                    message: dangling_message(&base.txt),
                                    source: source_tag(),
                                },
                            );
                        },
                    }
                },
            }
            if self.policies[i].1.id.len() == 0 {
                diags.push(
                    Diagnostic {
                        range: null_range(),
                        severity: DiagnosticSeverity::Error,
                        message: missing_id_message(),
                        source: source_tag(),
                    },
                );
            }
            assert(spec_diags_ok(self.policies@[i as int].1, self.policies@, diags@));
            let uri = to_uri(&self.policies[i].0);
            out.push((uri, diags));
            i += 1;
        }
        out
    }
}

/// Reference resolution: a document with an identifier of its own whose
/// base reference resolves (or which declares none) gets an empty
/// diagnostic list.
pub proof fn lemma_reference_resolution(
    p: IEF_Policy,
    ps: Seq<(Vec<u8>, IEF_Policy)>,
    ds: Seq<Diagnostic>,
)
    requires
        spec_diags_ok(p, ps, ds),
        p.id@.len() != 0,
        match p.base_id {
            Some(m) => spec_resolves(ps, m.txt@),
            None => true,
        },
    ensures
        ds.len() == 0,
{
}

/// Dangling reference: a document with an identifier of its own whose
/// base reference no tracked document declares gets exactly one Error
/// diagnostic, at the reference's recorded range, whose message embeds
/// the referenced identifier.
pub proof fn lemma_dangling_reference(
    p: IEF_Policy,
    ps: Seq<(Vec<u8>, IEF_Policy)>,
    ds: Seq<Diagnostic>,
)
    requires
        spec_diags_ok(p, ps, ds),
        p.id@.len() != 0,
        p.base_id is Some,
        !spec_resolves(ps, p.base_id.unwrap().txt@),
    ensures
        ds.len() == 1,
        spec_is_dangling_diag(ds[0], p.base_id.unwrap()),
{
}

/// Missing identifier: a document that declares no identifier, and whose
/// base reference does not also dangle, gets exactly one Error diagnostic
/// at the document's start. (When the base reference dangles as well, the
/// dangling diagnostic precedes it and the list has two entries.)
pub proof fn lemma_missing_identifier(
    p: IEF_Policy,
    ps: Seq<(Vec<u8>, IEF_Policy)>,
    ds: Seq<Diagnostic>,
)
    requires
        spec_diags_ok(p, ps, ds),
        p.id@.len() == 0,
        !spec_dangling(p, ps),
    ensures
        ds.len() == 1,
        spec_is_missing_diag(ds[0]),
{
}

} // verus!
