//! The composed-text builder: an append-only text buffer paired with a
//! provenance index and a running 1-indexed line cursor.
//!
//! The cursor always equals one plus the number of line terminators in the
//! buffer ([`StringStorage::inv`]); every operation states this.  Fragments
//! appended with an identifier get their occupied line range recorded, with
//! a deliberately conservative upper bound one past the last occupied line,
//! so that a diagnostic reported on the fragment's final, possibly
//! unterminated, line still falls inside the range.

use vstd::prelude::*;
use vstd::string::StringExecFns;

use crate::identifier::ErrId;
use crate::line_index::{can_shift, shift_map, LineNumbersByKey, LineRange};
use crate::text::{count_newlines, lemma_newline_count_concat, newline_count};

verus! {

/// Append-only text accumulator with provenance tracking.
#[derive(Clone, Debug)]
pub struct StringStorage {
    /// The composed text.
    pub storage: String,
    /// For every identified fragment, the line range it occupies in
    /// `storage`.
    pub line_numbers: LineNumbersByKey,
    /// The running line cursor: the 1-indexed line on which the next
    /// appended character lands.
    pub current_line_no: usize,
}

impl StringStorage {
    /// Line-count invariant: the cursor always equals one plus the number
    /// of line terminators currently in the buffer.  Established at
    /// construction and preserved by every append operation.
    pub open spec fn inv(&self) -> bool {
        &&& self.current_line_no == 1 + newline_count(self.storage@)
        &&& self.line_numbers.inv()
    }

    /// Appends `s` verbatim to the buffer and advances the line cursor by
    /// the count of line terminators in `s`.  The provenance index is
    /// untouched.
    pub fn add_string(&mut self, s: &str)
        requires
            old(self).inv(),
            old(self).current_line_no + newline_count(s@) <= usize::MAX,
        ensures
            final(self).inv(),
            final(self).storage@ == old(self).storage@ + s@,
            final(self).line_numbers@ == old(self).line_numbers@,
            final(self).current_line_no == old(self).current_line_no + newline_count(s@),
    {
        let n = count_newlines(s);
        self.current_line_no = self.current_line_no + n;
        self.storage.append(s);
        proof {
            lemma_newline_count_concat(old(self).storage@, s@);
        }
    }

    /// Appends `s` and records under `identifier` the half-open range from
    /// the line the fragment starts on to one line past the line the
    /// cursor ends on.  Recording an identifier already present in the
    /// index is a programming error, so the identifier must be fresh.
    pub fn add_identifier_string(&mut self, identifier: ErrId, s: &str)
        requires
            old(self).inv(),
            !old(self).line_numbers@.contains_key(identifier),
            old(self).current_line_no + newline_count(s@) + 1 <= usize::MAX,
        ensures
            final(self).inv(),
            final(self).storage@ == old(self).storage@ + s@,
            final(self).current_line_no == old(self).current_line_no + newline_count(s@),
            final(self).line_numbers@ == old(self).line_numbers@.insert(
                identifier,
                (LineRange {
                    start: old(self).current_line_no,
                    end: (old(self).current_line_no + newline_count(s@) + 1) as usize,
                }),
            ),
    {
        let start = self.current_line_no;
        self.add_string(s);
        let end = self.current_line_no;
        self.line_numbers.add(identifier, LineRange::new(start, end + 1));
    }

    /// Splices `other` into this builder: shifts every range in `other`'s
    /// index by this builder's cursor minus one, appends `other`'s text,
    /// and merges the shifted index.  The resulting text is exactly the
    /// result of appending `other`'s text directly; the merged ranges are
    /// `other`'s ranges moved to their final position in this document.
    /// An identifier present in both indices is a programming error, so
    /// the identifier sets must be disjoint.
    pub fn add_string_storage(&mut self, other: StringStorage)
        requires
            old(self).inv(),
            other.inv(),
            old(self).line_numbers@.dom().disjoint(other.line_numbers@.dom()),
            old(self).current_line_no + newline_count(other.storage@) <= usize::MAX,
            can_shift(other.line_numbers@, old(self).current_line_no - 1),
        ensures
            final(self).inv(),
            final(self).storage@ == old(self).storage@ + other.storage@,
            final(self).current_line_no == old(self).current_line_no + newline_count(other.storage@),
            final(self).line_numbers@ == old(self).line_numbers@.union_prefer_right(
                shift_map(other.line_numbers@, old(self).current_line_no - 1),
            ),
    {
        self.add_spliced(&other);
    }

    /// Splices a borrowed builder, leaving it untouched; the contract is
    /// that of [`StringStorage::add_string_storage`].
    pub fn add_spliced(&mut self, other: &StringStorage)
        requires
            old(self).inv(),
            other.inv(),
            old(self).line_numbers@.dom().disjoint(other.line_numbers@.dom()),
            old(self).current_line_no + newline_count(other.storage@) <= usize::MAX,
            can_shift(other.line_numbers@, old(self).current_line_no - 1),
        ensures
            final(self).inv(),
            final(self).storage@ == old(self).storage@ + other.storage@,
            final(self).current_line_no == old(self).current_line_no + newline_count(other.storage@),
            final(self).line_numbers@ == old(self).line_numbers@.union_prefer_right(
                shift_map(other.line_numbers@, old(self).current_line_no - 1),
            ),
    {
        let delta = self.current_line_no - 1;
        self.add_string(other.storage.as_str());
        proof {
            assert(shift_map(
                other.line_numbers@,
                delta as int,
            ).dom() =~= other.line_numbers@.dom());
        }
        self.line_numbers.extend_shifted(&other.line_numbers, delta);
    }
}

/// The mathematical state of a builder: its text, its recorded ranges and
/// its line cursor, with the cursor unbounded so that compositions can be
/// written down before overflow is ruled out.
pub ghost struct BuildState {
    pub text: Seq<char>,
    pub index: Map<ErrId, LineRange>,
    pub cursor: int,
}

/// The state that an empty builder starts from.
pub open spec fn empty_model() -> BuildState {
    BuildState { text: Seq::empty(), index: Map::empty(), cursor: 1 }
}

/// The state a builder reaches.
pub open spec fn model_of(s: StringStorage) -> BuildState {
    BuildState { text: s.storage@, index: s.line_numbers@, cursor: s.current_line_no as int }
}

/// What [`StringStorage::add_string`] does to a builder's state.
pub open spec fn append_model(b: BuildState, t: Seq<char>) -> BuildState {
    BuildState { text: b.text + t, index: b.index, cursor: b.cursor + newline_count(t) }
}

/// What [`StringStorage::add_identifier_string`] does to a builder's
/// state.
pub open spec fn ident_append_model(b: BuildState, id: ErrId, t: Seq<char>) -> BuildState {
    BuildState {
        text: b.text + t,
        index: b.index.insert(
            id,
            LineRange { start: b.cursor as usize, end: (b.cursor + newline_count(t) + 1) as usize },
        ),
        cursor: b.cursor + newline_count(t),
    }
}

/// What [`StringStorage::add_string_storage`] does to a builder's state.
pub open spec fn splice_model(b: BuildState, other: BuildState) -> BuildState {
    BuildState {
        text: b.text + other.text,
        index: b.index.union_prefer_right(shift_map(other.index, b.cursor - 1)),
        cursor: b.cursor + newline_count(other.text),
    }
}

impl Default for StringStorage {
    /// An empty builder: no text, no recorded ranges, cursor at line 1.
    fn default() -> (r: Self)
        ensures
            r.inv(),
            r.storage@ == Seq::<char>::empty(),
            r.line_numbers@ == Map::<ErrId, LineRange>::empty(),
            r.current_line_no == 1,
    {
        StringStorage {
            storage: String::new(),
            line_numbers: LineNumbersByKey::default(),
            current_line_no: 1,
        }
    }
}

/// Containment: every line physically spanned by an identified fragment
/// lies inside the recorded range.  A fragment appended while the cursor
/// stood at `start`, whose text holds `count` line terminators, spans the
/// lines `start` through `start + count`; the range that
/// [`StringStorage::add_identifier_string`] records for it is
/// `[start, start + count + 1)`, which contains them all.
pub proof fn lemma_identified_range_contains(start: usize, count: nat, line: int)
    requires
        start + count + 1 <= usize::MAX,
        start <= line <= start + count,
    ensures
        (LineRange { start, end: (start + count + 1) as usize }).spec_contains(line),
{
}

} // verus!
