//! The text buffer: one document's raw bytes, kept consistent under
//! range-based edits, with (line, byte-column) to byte-offset translation.
//!
//! Lines are the byte runs separated by the newline byte 0x0A; a column
//! counts bytes from the line's start. A position is translated to the
//! offset `line start + column`; translation fails (returns `None`) when
//! the line does not exist or the resulting offset would lie past the end
//! of the text, so that a malformed position is always reported rather
//! than silently clamped.

use vstd::prelude::*;

use crate::types::TextEdit;

verus! {

/// The line separator byte.
pub const NL: u8 = 10;

/// How many newline bytes `s` holds.
pub open spec fn nl_count(s: Seq<u8>) -> nat
    decreases s.len(),
{
    if s.len() == 0 {
        0
    } else {
        (if s.first() == NL {
            1nat
        } else {
            0nat
        }) + nl_count(s.drop_first())
    }
}

/// The byte offset at which line `line` starts: 0 for line 0, otherwise
/// the offset just past the line-th newline. `None` when `s` holds fewer
/// than `line` newlines.
pub open spec fn spec_line_start(s: Seq<u8>, line: nat) -> Option<int>
    decreases s.len(),
{
    if line == 0 {
        Some(0int)
    } else if s.len() == 0 {
        None
    } else {
        let rest = spec_line_start(
            s.drop_first(),
            if s.first() == NL {
                (line - 1) as nat
            } else {
                line
            },
        );
        match rest {
            Some(o) => Some(o + 1),
            None => None,
        }
    }
}

/// How many bytes lie before the first newline of `s` (all of `s` if it
/// holds none).
pub open spec fn dist_to_nl(s: Seq<u8>) -> nat
    decreases s.len(),
{
    if s.len() == 0 {
        0
    } else if s.first() == NL {
        0
    } else {
        1 + dist_to_nl(s.drop_first())
    }
}

/// How many bytes follow the last newline of `s` (all of `s` if it holds
/// none).
pub open spec fn tail_after_last_nl(s: Seq<u8>) -> nat
    decreases s.len(),
{
    if s.len() == 0 {
        0
    } else if s.last() == NL {
        0
    } else {
        1 + tail_after_last_nl(s.drop_last())
    }
}

/// The number of lines of `s`: every newline ends a line, and a trailing
/// run of bytes without a final newline counts as one more line. The empty
/// text has no lines.
pub open spec fn spec_lines(s: Seq<u8>) -> nat {
    nl_count(s) + if s.len() > 0 && s.last() != NL {
        1nat
    } else {
        0nat
    }
}

/// The byte offset of position (`line`, `character`): the line's start
/// plus the column. `None` when the line does not exist or the offset
/// would exceed the text's length.
pub open spec fn spec_byte_pos(s: Seq<u8>, line: nat, character: nat) -> Option<int> {
    match spec_line_start(s, line) {
        Some(o) => if o + character <= s.len() {
            Some(o + character)
        } else {
            None
        },
        None => None,
    }
}

/// The byte length of line `line` (not counting its newline); 0 when the
/// line does not exist.
pub open spec fn spec_line_len(s: Seq<u8>, line: nat) -> nat {
    match spec_line_start(s, line) {
        Some(o) => dist_to_nl(s.subrange(o, s.len() as int)),
        None => 0,
    }
}

/// `s` with the byte span `[start, end)` replaced by `repl`.
pub open spec fn spec_splice(s: Seq<u8>, start: int, end: int, repl: Seq<u8>) -> Seq<u8>
    recommends
        0 <= start <= end <= s.len(),
{
    s.subrange(0, start) + repl + s.subrange(end, s.len() as int)
}

/// The byte offset of an edit's start position in `s`.
pub open spec fn spec_edit_start(s: Seq<u8>, e: TextEdit) -> Option<int> {
    spec_byte_pos(s, e.range.start.line as nat, e.range.start.character as nat)
}

/// The byte offset of an edit's end position in `s`.
pub open spec fn spec_edit_end(s: Seq<u8>, e: TextEdit) -> Option<int> {
    spec_byte_pos(s, e.range.end.line as nat, e.range.end.character as nat)
}

/// Whether both of an edit's positions are well-formed in `s` and in
/// order. Only such edits are applied.
pub open spec fn spec_edit_valid(s: Seq<u8>, e: TextEdit) -> bool {
    match (spec_edit_start(s, e), spec_edit_end(s, e)) {
        (Some(sb), Some(eb)) => sb <= eb,
        _ => false,
    }
}

/// A no-op edit: both positions at the same byte, with an empty
/// replacement.
pub open spec fn spec_noop_edit(s: Seq<u8>, e: TextEdit) -> bool {
    spec_edit_start(s, e) == spec_edit_end(s, e) && e.new_text@.len() == 0
}

/// The text after applying a valid edit; an invalid edit leaves the text
/// unchanged.
pub open spec fn spec_apply_edit(s: Seq<u8>, e: TextEdit) -> Seq<u8> {
    if spec_edit_valid(s, e) {
        let sb = spec_edit_start(s, e).unwrap();
        let eb = spec_edit_end(s, e).unwrap();
        spec_splice(s, sb, eb, e.new_text@)
    } else {
        s
    }
}

/// A text buffer owning one document's bytes.
pub struct TextSync {
    raw_text: Vec<u8>,
}

impl View for TextSync {
    type V = Seq<u8>;

    closed spec fn view(&self) -> Seq<u8> {
        self.raw_text@
    }
}

/// `txt` with the byte span `[start_byte, end_byte)` removed.
pub fn delete_range(txt: &Vec<u8>, start_byte: usize, end_byte: usize) -> (r: Vec<u8>)
    requires
        start_byte <= end_byte <= txt@.len(),
    ensures
        r@ == txt@.subrange(0, start_byte as int) + txt@.subrange(
            end_byte as int,
            txt@.len() as int,
        ),
{
    let mut r: Vec<u8> = Vec::new();
    let mut i: usize = 0;
    while i < start_byte
        invariant
            i <= start_byte <= end_byte <= txt@.len(),
            r@ == txt@.subrange(0, i as int),
        decreases start_byte - i,
    {
        r.push(txt[i]);
        assert(txt@.subrange(0, (i + 1) as int) =~= txt@.subrange(0, i as int).push(
            txt@[i as int],
        ));
        i += 1;
    }
    let mut j: usize = end_byte;
    while j < txt.len()
        invariant
            end_byte <= j <= txt@.len(),
            start_byte <= end_byte,
            r@ == txt@.subrange(0, start_byte as int) + txt@.subrange(end_byte as int, j as int),
        decreases txt@.len() - j,
    {
        r.push(txt[j]);
        assert(txt@.subrange(end_byte as int, (j + 1) as int) =~= txt@.subrange(
            end_byte as int,
            j as int,
        ).push(txt@[j as int]));
        j += 1;
    }
    r
}

/// `txt` with `ins` inserted at byte offset `byte`.
pub fn insert_text(txt: &Vec<u8>, ins: &Vec<u8>, byte: usize) -> (r: Vec<u8>)
    requires
        byte <= txt@.len(),
    ensures
        r@ == txt@.subrange(0, byte as int) + ins@ + txt@.subrange(byte as int, txt@.len() as int),
{
    let mut r: Vec<u8> = Vec::new();
    let mut i: usize = 0;
    while i < byte
        invariant
            i <= byte <= txt@.len(),
            r@ == txt@.subrange(0, i as int),
        decreases byte - i,
    {
        r.push(txt[i]);
        assert(txt@.subrange(0, (i + 1) as int) =~= txt@.subrange(0, i as int).push(
            txt@[i as int],
        ));
        i += 1;
    }
    r.extend_from_slice(ins.as_slice());
    let mut j: usize = byte;
    while j < txt.len()
        invariant
            byte <= j <= txt@.len(),
            r@ == txt@.subrange(0, byte as int) + ins@ + txt@.subrange(byte as int, j as int),
        decreases txt@.len() - j,
    {
        r.push(txt[j]);
        assert(txt@.subrange(byte as int, (j + 1) as int) =~= txt@.subrange(
            byte as int,
            j as int,
        ).push(txt@[j as int]));
        j += 1;
    }
    r
}

impl TextSync {
    pub fn new(text: Vec<u8>) -> (r: TextSync)
        ensures
            r@ == text@,
    {
        TextSync { raw_text: text }
    }

    pub fn text(&self) -> (r: &Vec<u8>)
        ensures
            r@ == self@,
    {
        &self.raw_text
    }

    /// The number of lines of the current text. A newline-terminated
    /// text's empty final line is not counted, though `byte_pos` still
    /// accepts the end-of-text position on it.
    pub fn lines(&self) -> (r: usize)
        ensures
            r == spec_lines(self@),
    {
        let len = self.raw_text.len();
        let mut cnt: usize = 0;
        let mut i: usize = 0;
        assert(self@.subrange(0, len as int) =~= self@);
        while i < len
            invariant
                i <= len,
                cnt <= i,
                cnt + nl_count(self@.subrange(i as int, len as int)) == nl_count(self@),
            decreases len - i,
        {
            assert(self@.subrange(i as int, len as int).drop_first() =~= self@.subrange(
                (i + 1) as int,
                len as int,
            ));
            if self.raw_text[i] == NL {
                cnt += 1;
            }
            i += 1;
        }
        if len > 0 && self.raw_text[len - 1] != NL {
            proof {
                lemma_nl_count_le_len(self@);
                assert(self@.drop_last() =~= self@.subrange(0, (len - 1) as int));
                lemma_nl_count_last(self@);
            }
            cnt + 1
        } else {
            cnt
        }
    }

    /// The byte length of line `line`; 0 when the line does not exist.
    pub fn characters(&self, line: usize) -> (r: usize)
        ensures
            r == spec_line_len(self@, line as nat),
    {
        let len = self.raw_text.len();
        proof {
            lemma_line_start_le_len(self@, line as nat);
        }
        let start = match self.byte_pos(line, 0) {
            Some(b) => b,
            None => {
                return 0;
            },
        };
        let mut j: usize = start;
        while j < len && self.raw_text[j] != NL
            invariant
                start <= j <= len,
                dist_to_nl(self@.subrange(start as int, len as int)) == (j - start)
                    + dist_to_nl(self@.subrange(j as int, len as int)),
            decreases len - j,
        {
            assert(self@.subrange(j as int, len as int).drop_first() =~= self@.subrange(
                (j + 1) as int,
                len as int,
            ));
            j += 1;
        }
        j - start
    }

    /// The byte offset of position (`line`, `character`) in the current
    /// text; `None` when the position is malformed (line out of range, or
    /// offset past the end). For a newline-terminated text the position
    /// just past the last newline is still well-formed — its line start
    /// is the text's end — although `lines` does not count that empty
    /// final line.
    pub fn byte_pos(&self, line: usize, character: usize) -> (r: Option<usize>)
        ensures
            match r {
                Some(b) => spec_byte_pos(self@, line as nat, character as nat) == Some(b as int),
                None => spec_byte_pos(self@, line as nat, character as nat) is None,
            },
    {
        let len = self.raw_text.len();
        let mut i: usize = 0;
        let mut remaining: usize = line;
        assert(self@.subrange(0, len as int) =~= self@);
        while remaining > 0 && i < len
            invariant
                i <= len,
                remaining <= line,
                spec_line_start(self@, line as nat) == (match spec_line_start(
                    self@.subrange(i as int, len as int),
                    remaining as nat,
                ) {
                    Some(o) => Some(o + i),
                    None => None::<int>,
                }),
            decreases len - i,
        {
            assert(self@.subrange(i as int, len as int).drop_first() =~= self@.subrange(
                (i + 1) as int,
                len as int,
            ));
            if self.raw_text[i] == NL {
                remaining -= 1;
            }
            i += 1;
        }
        if remaining > 0 {
            return None;
        }
        if character <= len - i {
            Some(i + character)
        } else {
            None
        }
    }

    /// Apply one edit to the buffer. Returns `true` and splices the text
    /// when both edit positions are well-formed and in order; returns
    /// `false` and leaves the text unchanged otherwise, so a malformed
    /// position is always reported.
    pub fn edit(&mut self, e: &TextEdit) -> (r: bool)
        ensures
            r == spec_edit_valid(old(self)@, *e),
            final(self)@ == spec_apply_edit(old(self)@, *e),
    {
        let sb = self.byte_pos(e.range.start.line as usize, e.range.start.character as usize);
        let eb = self.byte_pos(e.range.end.line as usize, e.range.end.character as usize);
        let (s, t) = match (sb, eb) {
            (Some(s), Some(t)) => (s, t),
            _ => {
                return false;
            },
        };
        if t < s {
            return false;
        }
        let deleted = delete_range(&self.raw_text, s, t);
        let inserted = insert_text(&deleted, &e.new_text, s);
        proof {
            let old_text = self@;
            let prefix = old_text.subrange(0, s as int);
            let suffix = old_text.subrange(t as int, old_text.len() as int);
            assert(deleted@.subrange(0, s as int) =~= prefix);
            assert(deleted@.subrange(s as int, deleted@.len() as int) =~= suffix);
            assert(inserted@ =~= spec_splice(old_text, s as int, t as int, e.new_text@));
        }
        self.raw_text = inserted;
        true
    }
}

/// The byte/position delta an edit causes, in the shape the structural
/// tree's incremental update wants: the edit's start, the old end (both
/// against the pre-edit text) and the new end (where the replacement's
/// last byte will land).
#[derive(Clone, Copy, PartialEq, Eq, Structural, Debug)]
pub struct EditDelta {
    pub start_byte: usize,
    pub old_end_byte: usize,
    pub new_end_byte: usize,
    pub start_row: usize,
    pub start_col: usize,
    pub old_end_row: usize,
    pub old_end_col: usize,
    pub new_end_row: usize,
    pub new_end_col: usize,
}

/// The line of the edit's new end: the start line plus one per line break
/// in the replacement.
pub open spec fn spec_new_end_row(e: TextEdit) -> int {
    e.range.start.line + nl_count(e.new_text@)
}

/// The column of the edit's new end: the byte count after the
/// replacement's last line break, or the start column plus the
/// replacement's length when it has none.
pub open spec fn spec_new_end_col(e: TextEdit) -> int {
    if nl_count(e.new_text@) > 0 {
        tail_after_last_nl(e.new_text@) as int
    } else {
        e.range.start.character + e.new_text@.len()
    }
}

/// Whether a delta can be computed for the edit: its positions must be
/// well-formed and in order, and the new-end coordinates must fit the
/// machine's word size.
pub open spec fn spec_delta_valid(s: Seq<u8>, e: TextEdit) -> bool {
    &&& spec_edit_valid(s, e)
    &&& spec_edit_start(s, e).unwrap() + e.new_text@.len() <= usize::MAX
    &&& spec_new_end_row(e) <= usize::MAX
    &&& spec_new_end_col(e) <= usize::MAX
}

/// Compute the structural delta of `e` against the pre-edit text. This
/// must run before the buffer applies the edit, because the delta reads
/// the old extents. Returns `None` exactly on a malformed edit, whose
/// delta must not be handed on.
pub fn edit_delta(text: &TextSync, e: &TextEdit) -> (r: Option<EditDelta>)
    ensures
        r is Some <==> spec_delta_valid(text@, *e),
        r matches Some(d) ==> {
            &&& d.start_byte as int == spec_edit_start(text@, *e).unwrap()
            &&& d.old_end_byte as int == spec_edit_end(text@, *e).unwrap()
            &&& d.new_end_byte == d.start_byte + e.new_text@.len()
            &&& d.start_row == e.range.start.line
            &&& d.start_col == e.range.start.character
            &&& d.old_end_row == e.range.end.line
            &&& d.old_end_col == e.range.end.character
            &&& d.new_end_row as int == spec_new_end_row(*e)
            &&& d.new_end_col as int == spec_new_end_col(*e)
        },
{
    let start_byte = match text.byte_pos(
        e.range.start.line as usize,
        e.range.start.character as usize,
    ) {
        Some(b) => b,
        None => {
            return None;
        },
    };
    let old_end_byte = match text.byte_pos(
        e.range.end.line as usize,
        e.range.end.character as usize,
    ) {
        Some(b) => b,
        None => {
            return None;
        },
    };
    if old_end_byte < start_byte {
        return None;
    }
    let repl = &e.new_text;
    let rlen = repl.len();
    let mut k: usize = 0;
    let mut nls: usize = 0;
    let mut tail: usize = 0;
    assert(repl@.subrange(0, rlen as int) =~= repl@);
    assert(repl@.subrange(0, 0) =~= Seq::<u8>::empty());
    while k < rlen
        invariant
            k <= rlen,
            nls <= k,
            tail <= k,
            nls + nl_count(repl@.subrange(k as int, rlen as int)) == nl_count(repl@),
            tail == tail_after_last_nl(repl@.subrange(0, k as int)),
            (nls > 0) <==> nl_count(repl@.subrange(0, k as int)) > 0,
        decreases rlen - k,
    {
        proof {
            assert(repl@.subrange(k as int, rlen as int).drop_first() =~= repl@.subrange(
                (k + 1) as int,
                rlen as int,
            ));
            assert(repl@.subrange(0, (k + 1) as int).drop_last() =~= repl@.subrange(0, k as int));
            lemma_nl_count_push(repl@.subrange(0, k as int), repl@[k as int]);
            assert(repl@.subrange(0, (k + 1) as int) =~= repl@.subrange(0, k as int).push(
                repl@[k as int],
            ));
        }
        if repl[k] == NL {
            nls += 1;
            tail = 0;
        } else {
            tail += 1;
        }
        k += 1;
    }
    let new_end_byte = match start_byte.checked_add(rlen) {
        Some(v) => v,
        None => {
            return None;
        },
    };
    let new_end_row = match (e.range.start.line as usize).checked_add(nls) {
        Some(v) => v,
        None => {
            return None;
        },
    };
    let new_end_col = if nls > 0 {
        tail
    } else {
        match (e.range.start.character as usize).checked_add(rlen) {
            Some(v) => v,
            None => {
                return None;
            },
        }
    };
    Some(
        EditDelta {
            start_byte,
            old_end_byte,
            new_end_byte,
            start_row: e.range.start.line as usize,
            start_col: e.range.start.character as usize,
            old_end_row: e.range.end.line as usize,
            old_end_col: e.range.end.character as usize,
            new_end_row,
            new_end_col,
        },
    )
}

/// A zero-width edit with an empty replacement leaves the text unchanged.
pub proof fn lemma_noop_edit(s: Seq<u8>, e: TextEdit)
    requires
        spec_edit_valid(s, e),
        spec_edit_start(s, e) == spec_edit_end(s, e),
        e.new_text@.len() == 0,
    ensures
        spec_apply_edit(s, e) == s,
{
    let b = spec_edit_start(s, e).unwrap();
    lemma_line_start_le_len(s, e.range.start.line as nat);
    assert(spec_splice(s, b, b, e.new_text@) =~= s);
}

/// Batch equivalence, second edit after the first: splicing `[s1, e1)`
/// to `r1` and then — against the resulting text — `[s2, e2)` to `r2`,
/// where `[s2, e2)` lies entirely at or after the end of `r1`, equals one
/// splice of the original text that covers both spans and carries the
/// text between them along unchanged.
pub proof fn lemma_batch_equivalence_after(
    t: Seq<u8>,
    s1: int,
    e1: int,
    r1: Seq<u8>,
    s2: int,
    e2: int,
    r2: Seq<u8>,
)
    requires
        0 <= s1 <= e1 <= t.len(),
        s1 + r1.len() <= s2 <= e2 <= spec_splice(t, s1, e1, r1).len(),
    ensures
        spec_splice(spec_splice(t, s1, e1, r1), s2, e2, r2) == spec_splice(
            t,
            s1,
            e2 + (e1 - s1) - r1.len(),
            r1 + t.subrange(e1, s2 + (e1 - s1) - r1.len()) + r2,
        ),
{
    let mid = spec_splice(t, s1, e1, r1);
    let s2o = s2 + (e1 - s1) - r1.len();
    let e2o = e2 + (e1 - s1) - r1.len();
    assert(mid.len() == t.len() - (e1 - s1) + r1.len());
    assert(spec_splice(mid, s2, e2, r2) =~= spec_splice(
        t,
        s1,
        e2o,
        r1 + t.subrange(e1, s2o) + r2,
    ));
}

/// Batch equivalence, second edit before the first: splicing `[s1, e1)`
/// to `r1` and then `[s2, e2)` to `r2`, where `e2` lies at or before
/// `s1`, equals one splice of the original text covering both spans.
pub proof fn lemma_batch_equivalence_before(
    t: Seq<u8>,
    s1: int,
    e1: int,
    r1: Seq<u8>,
    s2: int,
    e2: int,
    r2: Seq<u8>,
)
    requires
        0 <= s1 <= e1 <= t.len(),
        0 <= s2 <= e2 <= s1,
    ensures
        spec_splice(spec_splice(t, s1, e1, r1), s2, e2, r2) == spec_splice(
            t,
            s2,
            e1,
            r2 + t.subrange(e2, s1) + r1,
        ),
{
    let mid = spec_splice(t, s1, e1, r1);
    assert(spec_splice(mid, s2, e2, r2) =~= spec_splice(t, s2, e1, r2 + t.subrange(e2, s1) + r1));
}

/// Batch equivalence at the edit level: applying two valid edits in
/// order — the second interpreted against the text the first produced,
/// and lying entirely at or after the end of the first's replacement —
/// yields the same text as a single edit of the original text covering
/// both spans, whose replacement carries the text between them along
/// unchanged.
pub proof fn lemma_edit_batch_equivalence(s: Seq<u8>, e1: TextEdit, e2: TextEdit)
    requires
        spec_edit_valid(s, e1),
        spec_edit_valid(spec_apply_edit(s, e1), e2),
        spec_edit_start(s, e1).unwrap() + e1.new_text@.len() <= spec_edit_start(
            spec_apply_edit(s, e1),
            e2,
        ).unwrap(),
    ensures
        ({
            let s1 = spec_edit_start(s, e1).unwrap();
            let t1 = spec_edit_end(s, e1).unwrap();
            let shift = (t1 - s1) - e1.new_text@.len();
            let s2o = spec_edit_start(spec_apply_edit(s, e1), e2).unwrap() + shift;
            let t2o = spec_edit_end(spec_apply_edit(s, e1), e2).unwrap() + shift;
            spec_apply_edit(spec_apply_edit(s, e1), e2) == spec_splice(
                s,
                s1,
                t2o,
                e1.new_text@ + s.subrange(t1, s2o) + e2.new_text@,
            )
        }),
{
    let s1 = spec_edit_start(s, e1).unwrap();
    let t1 = spec_edit_end(s, e1).unwrap();
    let mid = spec_apply_edit(s, e1);
    let s2 = spec_edit_start(mid, e2).unwrap();
    let t2 = spec_edit_end(mid, e2).unwrap();
    lemma_line_start_le_len(s, e1.range.start.line as nat);
    lemma_line_start_le_len(s, e1.range.end.line as nat);
    lemma_line_start_le_len(mid, e2.range.start.line as nat);
    lemma_line_start_le_len(mid, e2.range.end.line as nat);
    lemma_batch_equivalence_after(s, s1, t1, e1.new_text@, s2, t2, e2.new_text@);
}

/// Batch equivalence at the edit level, second edit before the first:
/// applying two valid edits in order — the second interpreted against the
/// text the first produced, its span lying entirely at or before the
/// first's start (that region is unshifted by the first edit) — yields
/// the same text as a single edit of the original text covering both
/// spans.
pub proof fn lemma_edit_batch_equivalence_before(s: Seq<u8>, e1: TextEdit, e2: TextEdit)
    requires
        spec_edit_valid(s, e1),
        spec_edit_valid(spec_apply_edit(s, e1), e2),
        spec_edit_end(spec_apply_edit(s, e1), e2).unwrap() <= spec_edit_start(s, e1).unwrap(),
    ensures
        ({
            let s1 = spec_edit_start(s, e1).unwrap();
            let t1 = spec_edit_end(s, e1).unwrap();
            let s2 = spec_edit_start(spec_apply_edit(s, e1), e2).unwrap();
            let t2 = spec_edit_end(spec_apply_edit(s, e1), e2).unwrap();
            spec_apply_edit(spec_apply_edit(s, e1), e2) == spec_splice(
                s,
                s2,
                t1,
                e2.new_text@ + s.subrange(t2, s1) + e1.new_text@,
            )
        }),
{
    let s1 = spec_edit_start(s, e1).unwrap();
    let t1 = spec_edit_end(s, e1).unwrap();
    let mid = spec_apply_edit(s, e1);
    let s2 = spec_edit_start(mid, e2).unwrap();
    let t2 = spec_edit_end(mid, e2).unwrap();
    lemma_line_start_le_len(s, e1.range.start.line as nat);
    lemma_line_start_le_len(s, e1.range.end.line as nat);
    lemma_line_start_le_len(mid, e2.range.start.line as nat);
    lemma_line_start_le_len(mid, e2.range.end.line as nat);
    lemma_batch_equivalence_before(s, s1, t1, e1.new_text@, s2, t2, e2.new_text@);
}

/// The line that byte offset `b` falls on.
pub open spec fn spec_line_of_byte(s: Seq<u8>, b: int) -> nat {
    nl_count(s.subrange(0, b))
}

/// The byte column of byte offset `b` within its line.
pub open spec fn spec_col_of_byte(s: Seq<u8>, b: int) -> int {
    b - spec_line_start(s, spec_line_of_byte(s, b)).unwrap()
}

/// Counting newlines over a prefix extended by one byte.
pub proof fn lemma_nl_count_push(s: Seq<u8>, b: u8)
    ensures
        nl_count(s.push(b)) == nl_count(s) + (if b == NL {
            1nat
        } else {
            0nat
        }),
    decreases s.len(),
{
    if s.len() == 0 {
        assert(s.push(b).drop_first() =~= s);
    } else {
        assert(s.push(b).drop_first() =~= s.drop_first().push(b));
        lemma_nl_count_push(s.drop_first(), b);
    }
}

/// The prefix ending at a line's start holds exactly `line` newlines.
pub proof fn lemma_line_start_count(s: Seq<u8>, line: nat)
    ensures
        spec_line_start(s, line) matches Some(o) ==> nl_count(s.subrange(0, o)) == line,
    decreases s.len(),
{
    if line == 0 {
        assert(s.subrange(0, 0) =~= Seq::<u8>::empty());
    } else if s.len() == 0 {
    } else {
        let l2 = if s.first() == NL {
            (line - 1) as nat
        } else {
            line
        };
        lemma_line_start_count(s.drop_first(), l2);
        lemma_line_start_le_len(s.drop_first(), l2);
        if spec_line_start(s, line) is Some {
            let o = spec_line_start(s, line).unwrap();
            assert(s.subrange(0, o).drop_first() =~= s.drop_first().subrange(0, o - 1));
        }
    }
}

/// Newline counting is unchanged across a newline-free span.
pub proof fn lemma_nl_count_stable(s: Seq<u8>, a: int, b: int)
    requires
        0 <= a <= b <= s.len(),
        forall|k: int| a <= k < b ==> s[k] != NL,
    ensures
        nl_count(s.subrange(0, b)) == nl_count(s.subrange(0, a)),
    decreases b - a,
{
    if a < b {
        lemma_nl_count_stable(s, a, b - 1);
        assert(s.subrange(0, b) =~= s.subrange(0, b - 1).push(s[b - 1]));
        lemma_nl_count_push(s.subrange(0, b - 1), s[b - 1]);
    }
}

/// No byte before a text's first newline is a newline, and the distance
/// to it never exceeds the length.
pub proof fn lemma_dist_to_nl_no_nl(s: Seq<u8>)
    ensures
        dist_to_nl(s) <= s.len(),
        forall|k: int| 0 <= k < dist_to_nl(s) ==> s[k] != NL,
    decreases s.len(),
{
    if s.len() == 0 {
    } else if s.first() == NL {
    } else {
        lemma_dist_to_nl_no_nl(s.drop_first());
        assert forall|k: int| 0 <= k < dist_to_nl(s) implies s[k] != NL by {
            if k > 0 {
                assert(s[k] == s.drop_first()[k - 1]);
            }
        }
    }
}

/// The next line starts just past the first newline at or after the
/// current line's start.
pub proof fn lemma_line_start_extend(s: Seq<u8>, line: nat, i: int)
    requires
        spec_line_start(s, line) is Some,
        spec_line_start(s, line).unwrap() <= i < s.len(),
        s[i] == NL,
        forall|k: int| spec_line_start(s, line).unwrap() <= k < i ==> s[k] != NL,
    ensures
        spec_line_start(s, (line + 1) as nat) == Some(i + 1),
    decreases s.len(),
{
    let o = spec_line_start(s, line).unwrap();
    if line == 0 {
        if i == 0 {
        } else {
            assert(s.drop_first()[i - 1] == s[i]);
            assert forall|k: int| 0 <= k < i - 1 implies s.drop_first()[k] != NL by {
                assert(s.drop_first()[k] == s[k + 1]);
            }
            lemma_line_start_extend(s.drop_first(), 0, i - 1);
        }
    } else {
        let l2 = if s.first() == NL {
            (line - 1) as nat
        } else {
            line
        };
        lemma_line_start_le_len(s.drop_first(), l2);
        let o2 = spec_line_start(s.drop_first(), l2).unwrap();
        assert(o == o2 + 1);
        assert(s.drop_first()[i - 1] == s[i]);
        assert forall|k: int| o2 <= k < i - 1 implies s.drop_first()[k] != NL by {
            assert(s.drop_first()[k] == s[k + 1]);
        }
        lemma_line_start_extend(s.drop_first(), l2, i - 1);
    }
}

/// Position round-trip: a valid (line, column) within the text, taken to
/// its byte offset, comes back as the same position.
pub proof fn lemma_position_round_trip(s: Seq<u8>, line: nat, character: nat)
    requires
        spec_line_start(s, line) is Some,
        character <= spec_line_len(s, line),
    ensures
        spec_byte_pos(s, line, character) is Some,
        spec_line_of_byte(s, spec_byte_pos(s, line, character).unwrap()) == line,
        spec_col_of_byte(s, spec_byte_pos(s, line, character).unwrap()) == character,
{
    let o = spec_line_start(s, line).unwrap();
    lemma_line_start_le_len(s, line);
    let suffix = s.subrange(o, s.len() as int);
    lemma_dist_to_nl_no_nl(suffix);
    assert(o + character <= s.len());
    let b = o + character;
    lemma_line_start_count(s, line);
    assert forall|k: int| o <= k < b implies s[k] != NL by {
        assert(s[k] == suffix[k - o]);
    }
    lemma_nl_count_stable(s, o, b);
}

impl TextSync {
    /// The (line, byte-column) position of byte offset `offset` in the
    /// current text; `None` when the offset lies past the end.
    pub fn position_of_byte(&self, offset: usize) -> (r: Option<(usize, usize)>)
        ensures
            match r {
                Some(p) => offset <= self@.len() && p.0 as nat == spec_line_of_byte(
                    self@,
                    offset as int,
                ) && p.1 as int == spec_col_of_byte(self@, offset as int),
                None => offset > self@.len(),
            },
    {
        if offset > self.raw_text.len() {
            return None;
        }
        let mut line: usize = 0;
        let mut start: usize = 0;
        let mut i: usize = 0;
        assert(self@.subrange(0, 0) =~= Seq::<u8>::empty());
        while i < offset
            invariant
                i <= offset <= self@.len(),
                start <= i,
                line <= i,
                line as nat == nl_count(self@.subrange(0, i as int)),
                spec_line_start(self@, line as nat) == Some(start as int),
                forall|k: int| start <= k < i ==> self@[k] != NL,
            decreases offset - i,
        {
            let b = self.raw_text[i];
            proof {
                assert(self@.subrange(0, (i + 1) as int) =~= self@.subrange(0, i as int).push(
                    self@[i as int],
                ));
                lemma_nl_count_push(self@.subrange(0, i as int), self@[i as int]);
                if self@[i as int] == NL {
                    lemma_line_start_extend(self@, line as nat, i as int);
                }
            }
            if b == NL {
                line += 1;
                start = i + 1;
            }
            i += 1;
        }
        Some((line, offset - start))
    }
}

/// A line's start offset, where defined, lies within the text.
pub proof fn lemma_line_start_le_len(s: Seq<u8>, line: nat)
    ensures
        spec_line_start(s, line) matches Some(o) ==> 0 <= o <= s.len(),
    decreases s.len(),
{
    if line == 0 {
    } else if s.len() == 0 {
    } else {
        lemma_line_start_le_len(
            s.drop_first(),
            if s.first() == NL {
                (line - 1) as nat
            } else {
                line
            },
        );
    }
}

/// There are at most as many newlines as bytes.
pub proof fn lemma_nl_count_le_len(s: Seq<u8>)
    ensures
        nl_count(s) <= s.len(),
    decreases s.len(),
{
    if s.len() > 0 {
        lemma_nl_count_le_len(s.drop_first());
    }
}

/// A text whose last byte is not a newline has strictly fewer newlines
/// than bytes.
pub proof fn lemma_nl_count_last(s: Seq<u8>)
    requires
        s.len() > 0,
        s.last() != NL,
    ensures
        nl_count(s) < s.len(),
    decreases s.len(),
{
    if s.len() == 1 {
        assert(s.first() == s.last());
        assert(nl_count(s.drop_first()) == 0);
    } else {
        assert(s.drop_first().last() == s.last());
        lemma_nl_count_last(s.drop_first());
    }
}

} // verus!
