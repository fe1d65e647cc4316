//! The provenance index: an ordered mapping from fragment identifier to the
//! half-open range of 1-indexed lines the fragment occupies in a composed
//! text.
//!
//! The index supports bulk shifting of every range by a constant (used when
//! the owning text is spliced into a larger text at an offset), merging two
//! indices with disjoint identifier sets, and reverse lookup: given an
//! absolute line number, find the owning identifier and the line's position
//! relative to the fragment's first line.  Reverse lookup returns the first
//! matching range in identifier order, so ties between overlapping ranges
//! are broken by identifier ordering, not by insertion order.
//!
//! Entries are held in a vector sorted strictly by identifier; the
//! abstraction seen by callers is the map [`LineNumbersByKey::view`].

use vstd::prelude::*;

use crate::identifier::ErrId;

verus! {

/// Half-open interval `[start, end)` of 1-indexed line numbers.
#[derive(Clone, Copy, Debug, Eq, PartialEq, Structural)]
pub struct LineRange {
    pub start: usize,
    pub end: usize,
}

impl LineRange {
    /// Line ranges are 1-indexed and never empty.
    pub open spec fn wf(self) -> bool {
        1 <= self.start <= self.end
    }

    /// Whether `line` falls inside the half-open interval.
    pub open spec fn spec_contains(self, line: int) -> bool {
        self.start <= line < self.end
    }

    pub fn new(start: usize, end: usize) -> (r: LineRange)
        ensures
            r.start == start,
            r.end == end,
    {
        LineRange { start, end }
    }

    /// Whether `line` falls inside the half-open interval.
    pub fn contains(self, line: usize) -> (r: bool)
        ensures
            r == self.spec_contains(line as int),
    {
        self.start <= line && line < self.end
    }
}

/// `r` moved down the document by `delta` lines.
pub open spec fn shift_range(r: LineRange, delta: int) -> LineRange {
    LineRange { start: (r.start + delta) as usize, end: (r.end + delta) as usize }
}

/// Every range of `m` moved down the document by `delta` lines.
pub open spec fn shift_map(m: Map<ErrId, LineRange>, delta: int) -> Map<ErrId, LineRange> {
    Map::new(|k: ErrId| m.contains_key(k), |k: ErrId| shift_range(m[k], delta))
}

/// Shifting every range of `m` by `delta` stays within the machine's line
/// numbers.
pub open spec fn can_shift(m: Map<ErrId, LineRange>, delta: int) -> bool {
    forall|k: ErrId| #[trigger] m.contains_key(k) ==> m[k].end + delta <= usize::MAX
}

/// Every range recorded in `m` is well-formed.
pub open spec fn ranges_wf(m: Map<ErrId, LineRange>) -> bool {
    forall|k: ErrId| #[trigger] m.contains_key(k) ==> m[k].wf()
}

/// No line at all is inside any range of `m`: `line` cannot be attributed.
pub open spec fn no_owner(m: Map<ErrId, LineRange>, line: int) -> bool {
    forall|k: ErrId| #[trigger] m.contains_key(k) ==> !m[k].spec_contains(line)
}

/// `k` is the first identifier, in identifier order, whose recorded range
/// contains `line`.
pub open spec fn is_first_owner(m: Map<ErrId, LineRange>, line: int, k: ErrId) -> bool {
    &&& m.contains_key(k)
    &&& m[k].spec_contains(line)
    &&& forall|k2: ErrId|
        #[trigger] m.contains_key(k2) && k2.0 < k.0 ==> !m[k2].spec_contains(line)
}

/// The owner that reverse lookup finds for `line`: the first identifier,
/// in identifier order, whose range contains it, paired with the line's
/// 1-indexed position relative to that range's first line.
pub open spec fn spec_find_owner(m: Map<ErrId, LineRange>, line: int) -> Option<(ErrId, usize)> {
    if exists|k: ErrId| is_first_owner(m, line, k) {
        let k = choose|k: ErrId| is_first_owner(m, line, k);
        Some((k, (line - m[k].start + 1) as usize))
    } else {
        None
    }
}

/// Some entry of `s` carries the key `k`.
pub open spec fn seq_has_key(s: Seq<(ErrId, LineRange)>, k: ErrId) -> bool {
    exists|i: int| 0 <= i < s.len() && s[i].0 == k
}

/// The keys of `s` are strictly increasing.
pub open spec fn sorted_keys(s: Seq<(ErrId, LineRange)>) -> bool {
    forall|i: int, j: int| 0 <= i < j < s.len() ==> s[i].0.0 < s[j].0.0
}

/// The mapping that an association list denotes; a later entry would win
/// over an earlier one with the same key, but sorted lists never repeat a
/// key.
pub open spec fn map_of(s: Seq<(ErrId, LineRange)>) -> Map<ErrId, LineRange>
    decreases s.len(),
{
    if s.len() == 0 {
        Map::empty()
    } else {
        map_of(s.drop_last()).insert(s.last().0, s.last().1)
    }
}

/// A key is in the denoted map exactly when some entry carries it.
pub proof fn lemma_map_of_domain(s: Seq<(ErrId, LineRange)>)
    ensures
        forall|k: ErrId| #[trigger] map_of(s).contains_key(k) <==> seq_has_key(s, k),
    decreases s.len(),
{
    if s.len() > 0 {
        lemma_map_of_domain(s.drop_last());
        assert forall|k: ErrId| #[trigger] map_of(s).contains_key(k) implies seq_has_key(s, k) by {
            if k == s.last().0 {
                assert(s[s.len() - 1].0 == k);
            } else {
                assert(map_of(s.drop_last()).contains_key(k));
                assert(seq_has_key(s.drop_last(), k));
                let i = choose|i: int| 0 <= i < s.drop_last().len() && s.drop_last()[i].0 == k;
                assert(s.drop_last()[i] == s[i]);
                assert(s[i].0 == k);
            }
        }
        assert forall|k: ErrId| seq_has_key(s, k) implies #[trigger] map_of(s).contains_key(k) by {
            let i = choose|i: int| 0 <= i < s.len() && s[i].0 == k;
            if i < s.len() - 1 {
                assert(s.drop_last()[i].0 == k);
                assert(seq_has_key(s.drop_last(), k));
                assert(map_of(s.drop_last()).contains_key(k));
            } else {
                assert(k == s.last().0);
            }
        }
    }
}

/// With distinct keys, the denoted map sends each entry's key to its range.
pub proof fn lemma_map_of_index(s: Seq<(ErrId, LineRange)>, i: int)
    requires
        sorted_keys(s),
        0 <= i < s.len(),
    ensures
        map_of(s).contains_key(s[i].0),
        map_of(s)[s[i].0] == s[i].1,
    decreases s.len(),
{
    if i < s.len() - 1 {
        assert(sorted_keys(s.drop_last())) by {
            assert forall|x: int, y: int|
                0 <= x < y < s.drop_last().len() implies s.drop_last()[x].0.0
                < s.drop_last()[y].0.0 by {
                assert(s[x].0.0 < s[y].0.0);
            }
        }
        lemma_map_of_index(s.drop_last(), i);
        assert(s.drop_last()[i] == s[i]);
        assert(s[i].0.0 < s[s.len() - 1].0.0);
    }
}

/// Inserting an entry with a fresh key anywhere in the list inserts it into
/// the denoted map.
pub proof fn lemma_map_of_insert(s: Seq<(ErrId, LineRange)>, pos: int, p: (ErrId, LineRange))
    requires
        0 <= pos <= s.len(),
        !seq_has_key(s, p.0),
    ensures
        map_of(s.insert(pos, p)) == map_of(s).insert(p.0, p.1),
    decreases s.len() - pos,
{
    s.insert_ensures(pos, p);
    let t = s.insert(pos, p);
    if pos == s.len() {
        assert(t =~= s.push(p));
        assert(s.push(p).drop_last() =~= s);
    } else {
        assert(t.len() == s.len() + 1);
        assert(t.last() == s[s.len() - 1]);
        assert(t.drop_last() =~= s.drop_last().insert(pos, p)) by {
            s.drop_last().insert_ensures(pos, p);
        }
        assert(!seq_has_key(s.drop_last(), p.0)) by {
            if seq_has_key(s.drop_last(), p.0) {
                let i = choose|i: int|
                    0 <= i < s.drop_last().len() && s.drop_last()[i].0 == p.0;
                assert(s[i].0 == p.0);
            }
        }
        lemma_map_of_insert(s.drop_last(), pos, p);
        assert(s[s.len() - 1].0 != p.0);
        assert(map_of(t) =~= map_of(s).insert(p.0, p.1));
    }
}

/// Ordered mapping from identifier to the line range the fragment occupies.
#[derive(Clone, Debug)]
pub struct LineNumbersByKey {
    entries: Vec<(ErrId, LineRange)>,
}

impl View for LineNumbersByKey {
    type V = Map<ErrId, LineRange>;

    closed spec fn view(&self) -> Map<ErrId, LineRange> {
        map_of(self.entries@)
    }
}

impl Default for LineNumbersByKey {
    /// An index with no entries.
    fn default() -> (r: Self)
        ensures
            r.inv(),
            r@ == Map::<ErrId, LineRange>::empty(),
    {
        LineNumbersByKey { entries: Vec::new() }
    }
}

impl LineNumbersByKey {
    /// Well-formed: entries sorted strictly by identifier, ranges 1-indexed
    /// and non-empty.
    pub closed spec fn inv(&self) -> bool {
        &&& sorted_keys(self.entries@)
        &&& forall|i: int| 0 <= i < self.entries@.len() ==> (#[trigger] self.entries@[i]).1.wf()
    }

    /// A well-formed index records only well-formed ranges.
    pub proof fn lemma_inv_ranges_wf(&self)
        requires
            self.inv(),
        ensures
            ranges_wf(self@),
    {
        lemma_map_of_domain(self.entries@);
        assert forall|k: ErrId| #[trigger] self@.contains_key(k) implies self@[k].wf() by {
            assert(map_of(self.entries@).contains_key(k));
            assert(seq_has_key(self.entries@, k));
            let i = choose|i: int| 0 <= i < self.entries@.len() && self.entries@[i].0 == k;
            lemma_map_of_index(self.entries@, i);
        }
    }

    /// Records the range occupied by a fresh identifier.  Recording the
    /// same identifier twice within one index is a programming error, so a
    /// caller must first make sure the identifier is absent.
    pub fn add(&mut self, identifier: ErrId, lines: LineRange)
        requires
            old(self).inv(),
            !old(self)@.contains_key(identifier),
            lines.wf(),
        ensures
            final(self).inv(),
            final(self)@ == old(self)@.insert(identifier, lines),
    {
        proof {
            lemma_map_of_domain(self.entries@);
        }
        let ghost orig = self.entries@;
        let n = self.entries.len();
        let mut pos: usize = 0;
        while pos < n && self.entries[pos].0.0 < identifier.0
            invariant
                pos <= n,
                n == self.entries@.len(),
                self.entries@ == orig,
                forall|j: int| 0 <= j < pos ==> (#[trigger] self.entries@[j]).0.0 < identifier.0,
            decreases n - pos,
        {
            pos = pos + 1;
        }
        proof {
            assert forall|j: int|
                pos <= j < orig.len() implies identifier.0 < (#[trigger] orig[j]).0.0 by {
                assert(orig[pos as int].0 != identifier);
                assert(orig[pos as int].0.0 != identifier.0);
                if pos < j {
                    assert(orig[pos as int].0.0 < orig[j].0.0);
                }
            }
            orig.insert_ensures(pos as int, (identifier, lines));
            lemma_map_of_insert(orig, pos as int, (identifier, lines));
        }
        self.entries.insert(pos, (identifier, lines));
        proof {
            let t = self.entries@;
            assert forall|i: int, j: int| 0 <= i < j < t.len() implies t[i].0.0 < t[j].0.0 by {
                if j < pos {
                } else if i < pos && j == pos {
                } else if i < pos && j > pos {
                    assert(t[j] == orig[j - 1]);
                } else if i == pos {
                    assert(t[j] == orig[j - 1]);
                } else {
                    assert(t[i] == orig[i - 1]);
                    assert(t[j] == orig[j - 1]);
                }
            }
            assert forall|i: int| 0 <= i < t.len() implies (#[trigger] t[i]).1.wf() by {
                if i < pos {
                } else if i == pos {
                } else {
                    assert(t[i] == orig[i - 1]);
                }
            }
        }
    }

    /// Looks up the range recorded for `identifier`, if any.
    pub fn get(&self, identifier: ErrId) -> (r: Option<LineRange>)
        requires
            self.inv(),
        ensures
            r == if self@.contains_key(identifier) {
                Some(self@[identifier])
            } else {
                None::<LineRange>
            },
    {
        proof {
            lemma_map_of_domain(self.entries@);
        }
        let n = self.entries.len();
        let mut i: usize = 0;
        while i < n
            invariant
                i <= n,
                n == self.entries@.len(),
                self.inv(),
                forall|j: int| 0 <= j < i ==> (#[trigger] self.entries@[j]).0 != identifier,
            decreases n - i,
        {
            let (id, range) = self.entries[i];
            if id.0 == identifier.0 {
                proof {
                    assert(self.entries@[i as int].0 == identifier);
                    lemma_map_of_index(self.entries@, i as int);
                }
                return Some(range);
            }
            i = i + 1;
        }
        None
    }

    /// Adds `lines` to both bounds of every recorded range, moving the
    /// whole index down the document.
    pub fn offset(&mut self, lines: usize)
        requires
            old(self).inv(),
            can_shift(old(self)@, lines as int),
        ensures
            final(self).inv(),
            final(self)@ == shift_map(old(self)@, lines as int),
    {
        let ghost orig = self.entries@;
        let n = self.entries.len();
        let mut out: Vec<(ErrId, LineRange)> = Vec::new();
        let mut i: usize = 0;
        while i < n
            invariant
                i <= n,
                n == self.entries@.len(),
                self.entries@ == orig,
                old(self).inv(),
                can_shift(old(self)@, lines as int),
                self == old(self),
                out@.len() == i,
                forall|j: int|
                    0 <= j < i ==> (#[trigger] out@[j]).0 == orig[j].0
                        && out@[j].1.start == orig[j].1.start + lines
                        && out@[j].1.end == orig[j].1.end + lines,
            decreases n - i,
        {
            let (id, r) = self.entries[i];
            proof {
                lemma_map_of_index(orig, i as int);
            }
            let moved = LineRange { start: r.start + lines, end: r.end + lines };
            out.push((id, moved));
            i = i + 1;
        }
        self.entries = out;
        proof {
            let t = self.entries@;
            lemma_map_of_domain(orig);
            lemma_map_of_domain(t);
            assert(old(self)@ == map_of(orig));
            assert(sorted_keys(t)) by {
                assert forall|x: int, y: int| 0 <= x < y < t.len() implies t[x].0.0 < t[y].0.0 by {
                    assert(orig[x].0.0 < orig[y].0.0);
                }
            }
            assert forall|k: ErrId| #[trigger] map_of(t).contains_key(k) implies shift_map(
                old(self)@,
                lines as int,
            ).contains_key(k) by {
                assert(seq_has_key(t, k));
                let j = choose|j: int| 0 <= j < t.len() && t[j].0 == k;
                assert(orig[j].0 == k);
                assert(seq_has_key(orig, k));
                assert(map_of(orig).contains_key(k));
            }
            assert forall|k: ErrId| #[trigger] shift_map(old(self)@, lines as int).contains_key(k)
                implies map_of(t).contains_key(k) && map_of(t)[k] == shift_map(
                old(self)@,
                lines as int,
            )[k] by {
                assert(map_of(orig).contains_key(k));
                assert(seq_has_key(orig, k));
                let j = choose|j: int| 0 <= j < orig.len() && orig[j].0 == k;
                assert(t[j].0 == k);
                lemma_map_of_index(orig, j);
                lemma_map_of_index(t, j);
            }
            assert(map_of(t) =~= shift_map(old(self)@, lines as int));
        }
    }

    /// Merges `other` into this index, with every range of `other` first
    /// shifted down the document by `delta` lines.  The identifier sets
    /// must be disjoint: a collision would silently lose provenance, so it
    /// is a programming error.
    pub fn extend_shifted(&mut self, other: &LineNumbersByKey, delta: usize)
        requires
            old(self).inv(),
            other.inv(),
            old(self)@.dom().disjoint(other@.dom()),
            can_shift(other@, delta as int),
        ensures
            final(self).inv(),
            final(self)@ == old(self)@.union_prefer_right(shift_map(other@, delta as int)),
    {
        proof {
            lemma_map_of_domain(other.entries@);
        }
        let n = other.entries.len();
        let mut i: usize = 0;
        while i < n
            invariant
                i <= n,
                n == other.entries@.len(),
                other.inv(),
                old(self)@.dom().disjoint(other@.dom()),
                can_shift(other@, delta as int),
                self.inv(),
                self@ == old(self)@.union_prefer_right(
                    shift_map(map_of(other.entries@.subrange(0, i as int)), delta as int),
                ),
            decreases n - i,
        {
            let (id, range) = other.entries[i];
            proof {
                lemma_map_of_domain(other.entries@);
                let pre = other.entries@.subrange(0, i as int);
                lemma_map_of_domain(pre);
                lemma_map_of_index(other.entries@, i as int);
                assert(!self@.contains_key(id)) by {
                    if seq_has_key(pre, id) {
                        let j = choose|j: int| 0 <= j < pre.len() && pre[j].0 == id;
                        assert(other.entries@[j].0 == id);
                        assert(other.entries@[j].0.0 < other.entries@[i as int].0.0);
                    }
                    assert(other@.contains_key(id));
                }
            }
            let moved = LineRange { start: range.start + delta, end: range.end + delta };
            self.add(id, moved);
            proof {
                let pre = other.entries@.subrange(0, i as int);
                let pre1 = other.entries@.subrange(0, i + 1);
                assert(pre1.drop_last() =~= pre);
                assert(pre1.last() == other.entries@[i as int]);
                assert(map_of(pre1) == map_of(pre).insert(id, range));
                assert(shift_map(map_of(pre1), delta as int) =~= shift_map(
                    map_of(pre),
                    delta as int,
                ).insert(id, moved));
                assert(old(self)@.union_prefer_right(
                    shift_map(map_of(pre1), delta as int),
                ) =~= old(self)@.union_prefer_right(
                    shift_map(map_of(pre), delta as int),
                ).insert(id, moved));
            }
            i = i + 1;
        }
        proof {
            assert(other.entries@.subrange(0, n as int) =~= other.entries@);
        }
    }

    /// Merges `other` into this index.  The identifier sets must be
    /// disjoint: a collision would silently lose provenance, so it is a
    /// programming error.
    pub fn extend(&mut self, other: LineNumbersByKey)
        requires
            old(self).inv(),
            other.inv(),
            old(self)@.dom().disjoint(other@.dom()),
        ensures
            final(self).inv(),
            final(self)@ == old(self)@.union_prefer_right(other@),
    {
        self.extend_shifted(&other, 0);
        proof {
            assert(shift_map(other@, 0) =~= other@);
        }
    }

    /// Reverse lookup: the first identifier, in identifier order, whose
    /// recorded range contains the absolute line `line_no`, together with
    /// the line's 1-indexed position relative to that range's first line.
    /// `None` when no recorded range contains the line.
    pub fn get_identifier(&self, line_no: usize) -> (r: Option<(ErrId, usize)>)
        requires
            self.inv(),
        ensures
            match r {
                Some(p) => {
                    &&& self@.contains_key(p.0)
                    &&& self@[p.0].spec_contains(line_no as int)
                    &&& p.1 == line_no - self@[p.0].start + 1
                    &&& forall|k: ErrId|
                        #[trigger] self@.contains_key(k) && k.0 < p.0.0
                            ==> !self@[k].spec_contains(line_no as int)
                },
                None => no_owner(self@, line_no as int),
            },
    {
        proof {
            lemma_map_of_domain(self.entries@);
        }
        let n = self.entries.len();
        let mut i: usize = 0;
        while i < n
            invariant
                i <= n,
                n == self.entries@.len(),
                self.inv(),
                forall|j: int|
                    0 <= j < i ==> !(#[trigger] self.entries@[j]).1.spec_contains(line_no as int),
            decreases n - i,
        {
            let (id, range) = self.entries[i];
            if range.contains(line_no) {
                proof {
                    lemma_map_of_domain(self.entries@);
                    lemma_map_of_index(self.entries@, i as int);
                    assert forall|k: ErrId| #[trigger] self@.contains_key(k) && k.0 < id.0
                        implies !self@[k].spec_contains(line_no as int) by {
                        assert(map_of(self.entries@).contains_key(k));
                        assert(seq_has_key(self.entries@, k));
                        let j = choose|j: int|
                            0 <= j < self.entries@.len() && self.entries@[j].0 == k;
                        lemma_map_of_index(self.entries@, j);
                        if j > i {
                            assert(self.entries@[i as int].0.0 < self.entries@[j].0.0);
                        }
                        if j == i {
                            assert(k == id);
                        }
                    }
                }
                return Some((id, line_no - range.start + 1));
            }
            i = i + 1;
        }
        proof {
            lemma_map_of_domain(self.entries@);
            assert forall|k: ErrId| #[trigger] self@.contains_key(k)
                implies !self@[k].spec_contains(line_no as int) by {
                assert(map_of(self.entries@).contains_key(k));
                assert(seq_has_key(self.entries@, k));
                let j = choose|j: int| 0 <= j < self.entries@.len() && self.entries@[j].0 == k;
                lemma_map_of_index(self.entries@, j);
            }
        }
        None
    }

    /// Reverse lookup, pinned to its mathematical description
    /// [`spec_find_owner`].
    pub fn find_owner(&self, absolute_line: usize) -> (r: Option<(ErrId, usize)>)
        requires
            self.inv(),
        ensures
            r == spec_find_owner(self@, absolute_line as int),
    {
        let r = self.get_identifier(absolute_line);
        proof {
            self.lemma_inv_ranges_wf();
            let line = absolute_line as int;
            match r {
                Some(p) => {
                    assert(is_first_owner(self@, line, p.0));
                    let k = choose|k: ErrId| is_first_owner(self@, line, k);
                    assert(k == p.0) by {
                        if k.0 < p.0.0 {
                            assert(!self@[k].spec_contains(line));
                        }
                        if p.0.0 < k.0 {
                            assert(!self@[p.0].spec_contains(line));
                        }
                    }
                    assert(self@[p.0].wf());
                },
                None => {
                    if exists|k: ErrId| is_first_owner(self@, line, k) {
                        let k = choose|k: ErrId| is_first_owner(self@, line, k);
                        assert(self@[k].spec_contains(line));
                    }
                },
            }
        }
        r
    }
}

} // verus!
