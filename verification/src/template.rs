//! The named-placeholder template expander.
//!
//! A template document holds placeholders written between `//%` delimiter
//! tokens.  Splitting the document on the delimiter yields literal spans at
//! even positions and placeholder names at odd positions.  Expansion walks
//! the segments, appending each literal span into a fresh builder and
//! splicing in the named builder for each placeholder, so the output's
//! provenance index speaks in absolute line numbers of the final document.
//!
//! A placeholder name missing from the mapping, a name used twice, or a
//! supplied builder that no placeholder consumes is a template contract
//! violation — a build-time defect, not a runtime input — so
//! [`apply_template`] requires the template and the mapping to agree.

use vstd::prelude::*;
use vstd::string::StrSliceExecFns;

use crate::identifier::ErrId;
use crate::line_index::{can_shift, shift_map, shift_range};
use crate::text::lemma_newline_count_concat;
use crate::storage::{
    append_model, empty_model, model_of, splice_model, BuildState, StringStorage,
};
use crate::text::newline_count;

verus! {

/// The delimiter token that brackets placeholder names in a template.
pub open spec fn delim() -> Seq<char> {
    seq!['/', '/', '%']
}

/// A delimiter occurrence starts at position `i` of `s`.
pub open spec fn is_delim_at(s: Seq<char>, i: int) -> bool {
    0 <= i && i + 3 <= s.len() && s.subrange(i, i + 3) == delim()
}

/// A delimiter occurrence is exactly the three delimiter characters.
pub proof fn lemma_delim_chars(s: Seq<char>, i: int)
    requires
        0 <= i,
        i + 3 <= s.len(),
    ensures
        is_delim_at(s, i) <==> (s[i] == '/' && s[i + 1] == '/' && s[i + 2] == '%'),
{
    if s[i] == '/' && s[i + 1] == '/' && s[i + 2] == '%' {
        assert(s.subrange(i, i + 3) =~= delim());
    }
    if is_delim_at(s, i) {
        assert(s.subrange(i, i + 3)[0] == s[i]);
        assert(s.subrange(i, i + 3)[1] == s[i + 1]);
        assert(s.subrange(i, i + 3)[2] == s[i + 2]);
    }
}

/// The position of the first delimiter occurrence at or after `i`.
pub open spec fn first_delim_from(s: Seq<char>, i: int) -> Option<int>
    recommends
        0 <= i <= s.len(),
    decreases s.len() - i,
{
    if i + 3 > s.len() {
        None
    } else if is_delim_at(s, i) {
        Some(i)
    } else {
        first_delim_from(s, i + 1)
    }
}

/// What a first-delimiter search result means: the position found is a
/// delimiter occurrence and nothing before it is one; a miss means there
/// is no occurrence at all.
pub proof fn lemma_first_delim_props(s: Seq<char>, i: int)
    requires
        0 <= i,
    ensures
        match first_delim_from(s, i) {
            Some(j) => i <= j && is_delim_at(s, j) && forall|l: int|
                i <= l < j ==> !is_delim_at(s, l),
            None => forall|l: int| i <= l ==> !is_delim_at(s, l),
        },
    decreases s.len() - i,
{
    if i + 3 > s.len() {
    } else if is_delim_at(s, i) {
    } else {
        lemma_first_delim_props(s, i + 1);
    }
}

/// The least delimiter position pins the search result down.
pub proof fn lemma_first_delim_is(s: Seq<char>, j: int)
    requires
        0 <= j,
        is_delim_at(s, j),
        forall|l: int| 0 <= l < j ==> !is_delim_at(s, l),
    ensures
        first_delim_from(s, 0) == Some(j),
{
    lemma_first_delim_props(s, 0);
    match first_delim_from(s, 0) {
        None => {
            assert(!is_delim_at(s, j));
        },
        Some(j2) => {
            if j2 < j {
                assert(!is_delim_at(s, j2));
            }
            if j2 > j {
                assert(!is_delim_at(s, j));
            }
        },
    }
}

/// Delimiter occurrences in a tail of `s` are occurrences of `s` moved by
/// the tail's offset.
pub proof fn lemma_delim_subrange(s: Seq<char>, off: int, l: int)
    requires
        0 <= off <= s.len(),
        0 <= l,
    ensures
        is_delim_at(s.subrange(off, s.len() as int), l) <==> (off + l + 3 <= s.len()
            && is_delim_at(s, off + l)),
{
    let sub = s.subrange(off, s.len() as int);
    if l + 3 <= sub.len() {
        assert(sub.subrange(l, l + 3) =~= s.subrange(off + l, off + l + 3));
    }
}

/// The segments of `s` split on the delimiter: literal spans at even
/// positions, placeholder names at odd positions.
pub open spec fn split_spec(s: Seq<char>) -> Seq<Seq<char>>
    decreases s.len(),
    via split_spec_decreases
{
    match first_delim_from(s, 0) {
        None => seq![s],
        Some(j) => seq![s.subrange(0, j)] + split_spec(s.subrange(j + 3, s.len() as int)),
    }
}

#[via_fn]
proof fn split_spec_decreases(s: Seq<char>) {
    lemma_first_delim_props(s, 0);
}

/// The views of a vector of string slices.
pub open spec fn views_of(parts: Seq<&str>) -> Seq<Seq<char>> {
    parts.map_values(|p: &str| p@)
}

/// Splits `s` on the delimiter token.
pub fn split_template<'a>(s: &'a str) -> (r: Vec<&'a str>)
    ensures
        r@.len() == split_spec(s@).len(),
        forall|i: int| 0 <= i < r@.len() ==> (#[trigger] r@[i])@ == split_spec(s@)[i],
{
    let len = s.unicode_len();
    let mut parts: Vec<&'a str> = Vec::new();
    let mut start: usize = 0;
    let mut i: usize = 0;
    proof {
        assert(s@.subrange(0, len as int) =~= s@);
        assert(views_of(parts@) + split_spec(s@) =~= split_spec(s@));
    }
    while len - i >= 3
        invariant
            start <= i <= len,
            len == s@.len(),
            split_spec(s@) == views_of(parts@) + split_spec(
                s@.subrange(start as int, len as int),
            ),
            forall|l: int| start <= l < i ==> !is_delim_at(s@, l),
        decreases len - i,
    {
        let c0 = s.get_char(i);
        let c1 = s.get_char(i + 1);
        let c2 = s.get_char(i + 2);
        proof {
            lemma_delim_chars(s@, i as int);
        }
        if c0 == '/' && c1 == '/' && c2 == '%' {
            let ghost pre_parts = parts@;
            let ghost sub = s@.subrange(start as int, len as int);
            proof {
                assert forall|l: int| 0 <= l implies (is_delim_at(sub, l) <==> (start + l + 3
                    <= len && is_delim_at(s@, start + l))) by {
                    lemma_delim_subrange(s@, start as int, l);
                }
                assert(is_delim_at(sub, i - start));
                assert forall|l: int| 0 <= l < i - start implies !is_delim_at(sub, l) by {
                    assert(!is_delim_at(s@, start + l));
                }
                lemma_first_delim_is(sub, i - start);
                assert(sub.subrange(0, i - start) =~= s@.subrange(start as int, i as int));
                assert(sub.subrange(i - start + 3, sub.len() as int) =~= s@.subrange(
                    i + 3,
                    len as int,
                ));
            }
            let seg = s.substring_char(start, i);
            parts.push(seg);
            proof {
                assert(views_of(parts@) =~= views_of(pre_parts).push(seg@));
                assert(views_of(pre_parts) + split_spec(sub) =~= views_of(parts@) + split_spec(
                    s@.subrange(i + 3, len as int),
                ));
            }
            start = i + 3;
            i = i + 3;
        } else {
            i = i + 1;
        }
    }
    let ghost sub = s@.subrange(start as int, len as int);
    proof {
        assert forall|l: int| 0 <= l implies !is_delim_at(sub, l) by {
            lemma_delim_subrange(s@, start as int, l);
            if start + l + 3 <= len {
                assert(!is_delim_at(s@, start + l));
            }
        }
        lemma_first_delim_props(sub, 0);
        match first_delim_from(sub, 0) {
            Some(j) => {
                assert(is_delim_at(sub, j));
            },
            None => {},
        }
        assert(split_spec(sub) == seq![sub]);
    }
    let ghost pre_parts = parts@;
    let seg = s.substring_char(start, len);
    parts.push(seg);
    proof {
        assert(views_of(parts@) =~= views_of(pre_parts).push(seg@));
        assert(views_of(pre_parts) + seq![sub] =~= views_of(parts@));
        assert(split_spec(s@) =~= views_of(parts@));
    }
    parts
}

/// Character-for-character equality of two string slices.
pub fn str_eq(a: &str, b: &str) -> (r: bool)
    ensures
        r == (a@ == b@),
{
    let la = a.unicode_len();
    let lb = b.unicode_len();
    if la != lb {
        return false;
    }
    let mut i: usize = 0;
    while i < la
        invariant
            i <= la,
            la == a@.len(),
            la == b@.len(),
            forall|j: int| 0 <= j < i ==> a@[j] == b@[j],
        decreases la - i,
    {
        if a.get_char(i) != b.get_char(i) {
            return false;
        }
        i = i + 1;
    }
    proof {
        assert(a@ =~= b@);
    }
    true
}

/// Some entry of `s` carries the name `k`.
pub open spec fn assoc_has_name(s: Seq<(String, StringStorage)>, k: Seq<char>) -> bool {
    exists|i: int| 0 <= i < s.len() && s[i].0@ == k
}

/// No two entries of `s` carry the same name.
pub open spec fn assoc_distinct(s: Seq<(String, StringStorage)>) -> bool {
    forall|i: int, j: int| 0 <= i < j < s.len() ==> s[i].0@ != s[j].0@
}

/// The mapping that a named-section list denotes.
pub open spec fn assoc_map_of(s: Seq<(String, StringStorage)>) -> Map<Seq<char>, StringStorage>
    decreases s.len(),
{
    if s.len() == 0 {
        Map::empty()
    } else {
        assoc_map_of(s.drop_last()).insert(s.last().0@, s.last().1)
    }
}

/// A name is in the denoted map exactly when some entry carries it.
pub proof fn lemma_assoc_domain(s: Seq<(String, StringStorage)>)
    ensures
        forall|k: Seq<char>| #[trigger] assoc_map_of(s).contains_key(k) <==> assoc_has_name(s, k),
    decreases s.len(),
{
    if s.len() > 0 {
        lemma_assoc_domain(s.drop_last());
        assert forall|k: Seq<char>| #[trigger] assoc_map_of(s).contains_key(k)
            implies assoc_has_name(s, k) by {
            if k == s.last().0@ {
                assert(s[s.len() - 1].0@ == k);
            } else {
                assert(assoc_map_of(s.drop_last()).contains_key(k));
                assert(assoc_has_name(s.drop_last(), k));
                let i = choose|i: int| 0 <= i < s.drop_last().len() && s.drop_last()[i].0@ == k;
                assert(s[i].0@ == k);
            }
        }
        assert forall|k: Seq<char>| assoc_has_name(s, k) implies #[trigger] assoc_map_of(
            s,
        ).contains_key(k) by {
            let i = choose|i: int| 0 <= i < s.len() && s[i].0@ == k;
            if i < s.len() - 1 {
                assert(s.drop_last()[i].0@ == k);
                assert(assoc_has_name(s.drop_last(), k));
                assert(assoc_map_of(s.drop_last()).contains_key(k));
            } else {
                assert(k == s.last().0@);
            }
        }
    }
}

/// With distinct names, the denoted map sends each entry's name to its
/// section.
pub proof fn lemma_assoc_index(s: Seq<(String, StringStorage)>, i: int)
    requires
        assoc_distinct(s),
        0 <= i < s.len(),
    ensures
        assoc_map_of(s).contains_key(s[i].0@),
        assoc_map_of(s)[s[i].0@] == s[i].1,
    decreases s.len(),
{
    if i < s.len() - 1 {
        assert(assoc_distinct(s.drop_last())) by {
            assert forall|x: int, y: int|
                0 <= x < y < s.drop_last().len() implies s.drop_last()[x].0@
                != s.drop_last()[y].0@ by {
                assert(s[x].0@ != s[y].0@);
            }
        }
        lemma_assoc_index(s.drop_last(), i);
        assert(s.drop_last()[i] == s[i]);
        assert(s[i].0@ != s[s.len() - 1].0@);
    }
}

/// The named sections handed to [`apply_template`]: one builder per
/// placeholder name.
pub struct NamedStorages {
    entries: Vec<(String, StringStorage)>,
}

impl View for NamedStorages {
    type V = Map<Seq<char>, StringStorage>;

    closed spec fn view(&self) -> Map<Seq<char>, StringStorage> {
        assoc_map_of(self.entries@)
    }
}

impl Default for NamedStorages {
    /// A mapping with no sections.
    fn default() -> (r: Self)
        ensures
            r.inv(),
            r@ == Map::<Seq<char>, StringStorage>::empty(),
    {
        NamedStorages { entries: Vec::new() }
    }
}

impl NamedStorages {
    /// Well-formed: no name occurs twice.
    pub closed spec fn inv(&self) -> bool {
        assoc_distinct(self.entries@)
    }

    /// Adds the section for a fresh placeholder name.
    pub fn insert(&mut self, name: String, section: StringStorage)
        requires
            old(self).inv(),
            !old(self)@.contains_key(name@),
        ensures
            final(self).inv(),
            final(self)@ == old(self)@.insert(name@, section),
    {
        proof {
            lemma_assoc_domain(self.entries@);
        }
        let ghost orig = self.entries@;
        self.entries.push((name, section));
        proof {
            assert(self.entries@.drop_last() =~= orig);
            assert forall|x: int, y: int|
                0 <= x < y < self.entries@.len() implies self.entries@[x].0@
                != self.entries@[y].0@ by {
                if y < orig.len() {
                    assert(orig[x].0@ != orig[y].0@);
                } else {
                    assert(orig[x].0@ == self.entries@[x].0@);
                    if orig[x].0@ == name@ {
                        assert(assoc_has_name(orig, name@));
                    }
                }
            }
        }
    }

    /// Looks up the section supplied for `name`, if any.
    pub fn get_by_name(&self, name: &str) -> (r: Option<&StringStorage>)
        requires
            self.inv(),
        ensures
            match r {
                Some(section) => self@.contains_key(name@) && *section == self@[name@],
                None => !self@.contains_key(name@),
            },
    {
        proof {
            lemma_assoc_domain(self.entries@);
        }
        let n = self.entries.len();
        let mut i: usize = 0;
        while i < n
            invariant
                i <= n,
                n == self.entries@.len(),
                self.inv(),
                forall|j: int| 0 <= j < i ==> (#[trigger] self.entries@[j]).0@ != name@,
            decreases n - i,
        {
            if str_eq(self.entries[i].0.as_str(), name) {
                proof {
                    lemma_assoc_index(self.entries@, i as int);
                }
                return Some(&self.entries[i].1);
            }
            i = i + 1;
        }
        proof {
            lemma_assoc_domain(self.entries@);
            if assoc_has_name(self.entries@, name@) {
                let j = choose|j: int|
                    0 <= j < self.entries@.len() && self.entries@[j].0@ == name@;
            }
        }
        None
    }
}

/// The builder state that expanding segments `i..` of the template against
/// the mapping `m`, starting from state `b`, arrives at.
pub open spec fn expand_model_from(
    segs: Seq<Seq<char>>,
    m: Map<Seq<char>, StringStorage>,
    i: int,
    b: BuildState,
) -> BuildState
    decreases segs.len() - i,
{
    if i < 0 || i >= segs.len() {
        b
    } else if i % 2 == 1 {
        expand_model_from(segs, m, i + 1, splice_model(b, model_of(m[segs[i]])))
    } else {
        expand_model_from(segs, m, i + 1, append_model(b, segs[i]))
    }
}

/// The builder state that expanding the whole template arrives at.
pub open spec fn final_expansion(
    segs: Seq<Seq<char>>,
    m: Map<Seq<char>, StringStorage>,
) -> BuildState {
    expand_model_from(segs, m, 0, empty_model())
}

/// Expansion only ever moves the cursor forward.
pub proof fn lemma_expand_cursor_grows(
    segs: Seq<Seq<char>>,
    m: Map<Seq<char>, StringStorage>,
    i: int,
    b: BuildState,
)
    ensures
        expand_model_from(segs, m, i, b).cursor >= b.cursor,
    decreases segs.len() - i,
{
    if 0 <= i < segs.len() {
        if i % 2 == 1 {
            lemma_expand_cursor_grows(segs, m, i + 1, splice_model(b, model_of(m[segs[i]])));
        } else {
            lemma_expand_cursor_grows(segs, m, i + 1, append_model(b, segs[i]));
        }
    }
}

/// Template and mapping agree: every placeholder name is supplied exactly
/// once and every supplied section is consumed.  Anything else is a
/// template contract violation.
pub open spec fn placeholders_wf(
    segs: Seq<Seq<char>>,
    m: Map<Seq<char>, StringStorage>,
) -> bool {
    &&& forall|i: int| 0 <= i < segs.len() && i % 2 == 1 ==> m.contains_key(#[trigger] segs[i])
    &&& forall|i: int, j: int|
        0 <= i < j < segs.len() && i % 2 == 1 && j % 2 == 1 ==> segs[i] != segs[j]
    &&& forall|n: Seq<char>| #[trigger] m.contains_key(n) ==> exists|i: int|
        0 <= i < segs.len() && i % 2 == 1 && segs[i] == n
}

/// Every supplied section is a well-formed builder.
pub open spec fn sections_wf(m: Map<Seq<char>, StringStorage>) -> bool {
    forall|n: Seq<char>| #[trigger] m.contains_key(n) ==> m[n].inv()
}

/// No identifier is recorded by two different sections: a collision in the
/// merged index is a programming error.
pub open spec fn sections_disjoint(m: Map<Seq<char>, StringStorage>) -> bool {
    forall|n1: Seq<char>, n2: Seq<char>|
        #[trigger] m.contains_key(n1) && #[trigger] m.contains_key(n2) && n1 != n2
            ==> m[n1].line_numbers@.dom().disjoint(m[n2].line_numbers@.dom())
}

/// The expanded document's line numbers stay within the machine's range.
pub open spec fn expansion_fits(segs: Seq<Seq<char>>, m: Map<Seq<char>, StringStorage>) -> bool {
    &&& final_expansion(segs, m).cursor <= usize::MAX
    &&& forall|n: Seq<char>| #[trigger] m.contains_key(n) ==> can_shift(
        m[n].line_numbers@,
        final_expansion(segs, m).cursor - 1,
    )
}

/// The builder state that expanding segments `i..` against the section
/// states `sm`, starting from `b`, arrives at.
pub open spec fn expand_states(
    segs: Seq<Seq<char>>,
    sm: Map<Seq<char>, BuildState>,
    i: int,
    b: BuildState,
) -> BuildState
    decreases segs.len() - i,
{
    if i < 0 || i >= segs.len() {
        b
    } else if i % 2 == 1 {
        expand_states(segs, sm, i + 1, splice_model(b, sm[segs[i]]))
    } else {
        expand_states(segs, sm, i + 1, append_model(b, segs[i]))
    }
}

/// Expanding against section states agrees with expanding against
/// builders that realize those states.
pub proof fn lemma_expand_agree(
    segs: Seq<Seq<char>>,
    m: Map<Seq<char>, StringStorage>,
    sm: Map<Seq<char>, BuildState>,
    i: int,
    b: BuildState,
)
    requires
        forall|j: int|
            0 <= j < segs.len() && j % 2 == 1 ==> m.contains_key(#[trigger] segs[j])
                && sm.contains_key(segs[j]) && model_of(m[segs[j]]) == sm[segs[j]],
    ensures
        expand_states(segs, sm, i, b) == expand_model_from(segs, m, i, b),
    decreases segs.len() - i,
{
    if 0 <= i < segs.len() {
        if i % 2 == 1 {
            assert(sm[segs[i]] == model_of(m[segs[i]]));
            lemma_expand_agree(segs, m, sm, i + 1, splice_model(b, model_of(m[segs[i]])));
        } else {
            lemma_expand_agree(segs, m, sm, i + 1, append_model(b, segs[i]));
        }
    }
}

/// Everything [`apply_template`] asks of its inputs.
pub open spec fn template_ok(segs: Seq<Seq<char>>, m: Map<Seq<char>, StringStorage>) -> bool {
    &&& placeholders_wf(segs, m)
    &&& sections_wf(m)
    &&& sections_disjoint(m)
    &&& expansion_fits(segs, m)
}

/// The texts that expansion lays out from segment `i` on: literal spans
/// as they stand, section texts in substitution order.
pub open spec fn interleave_from(
    segs: Seq<Seq<char>>,
    m: Map<Seq<char>, StringStorage>,
    i: int,
) -> Seq<char>
    decreases segs.len() - i,
{
    if i < 0 || i >= segs.len() {
        Seq::empty()
    } else if i % 2 == 1 {
        m[segs[i]].storage@ + interleave_from(segs, m, i + 1)
    } else {
        segs[i] + interleave_from(segs, m, i + 1)
    }
}

/// The texts that expansion lays out from segment `i` up to segment `hi`.
pub open spec fn interleave_between(
    segs: Seq<Seq<char>>,
    m: Map<Seq<char>, StringStorage>,
    i: int,
    hi: int,
) -> Seq<char>
    decreases hi - i,
{
    if i < 0 || i >= hi || i >= segs.len() {
        Seq::empty()
    } else if i % 2 == 1 {
        m[segs[i]].storage@ + interleave_between(segs, m, i + 1, hi)
    } else {
        segs[i] + interleave_between(segs, m, i + 1, hi)
    }
}

/// Template round trip, text part: the expanded document is the literal
/// spans in their original template order, interleaved with each named
/// builder's text in substitution order, and the cursor advances by
/// exactly the terminators of that text.
pub proof fn lemma_expansion_text(
    segs: Seq<Seq<char>>,
    m: Map<Seq<char>, StringStorage>,
    i: int,
    b: BuildState,
)
    ensures
        expand_model_from(segs, m, i, b).text == b.text + interleave_from(segs, m, i),
        expand_model_from(segs, m, i, b).cursor == b.cursor + newline_count(
            interleave_from(segs, m, i),
        ),
    decreases segs.len() - i,
{
    if 0 <= i < segs.len() {
        if i % 2 == 1 {
            let piece = m[segs[i]].storage@;
            let b2 = splice_model(b, model_of(m[segs[i]]));
            lemma_expansion_text(segs, m, i + 1, b2);
            lemma_newline_count_concat(piece, interleave_from(segs, m, i + 1));
            assert(b.text + (piece + interleave_from(segs, m, i + 1)) =~= (b.text + piece)
                + interleave_from(segs, m, i + 1));
        } else {
            let piece = segs[i];
            let b2 = append_model(b, piece);
            lemma_expansion_text(segs, m, i + 1, b2);
            lemma_newline_count_concat(piece, interleave_from(segs, m, i + 1));
            assert(b.text + (piece + interleave_from(segs, m, i + 1)) =~= (b.text + piece)
                + interleave_from(segs, m, i + 1));
        }
    } else {
        assert(b.text + Seq::<char>::empty() =~= b.text);
        assert(newline_count(Seq::<char>::empty()) == 0);
    }
}

/// Some placeholder at or after `i` consumes a section that records `k`.
pub open spec fn section_records_from(
    segs: Seq<Seq<char>>,
    m: Map<Seq<char>, StringStorage>,
    i: int,
    k: ErrId,
) -> bool {
    exists|j: int|
        i <= j < segs.len() && j % 2 == 1 && #[trigger] m[segs[j]].line_numbers@.contains_key(k)
}

/// Template round trip, identifier part: the expanded index holds exactly
/// the identifiers accumulated so far together with those of every
/// consumed section.
pub proof fn lemma_expansion_identifiers(
    segs: Seq<Seq<char>>,
    m: Map<Seq<char>, StringStorage>,
    i: int,
    b: BuildState,
)
    requires
        0 <= i,
    ensures
        forall|k: ErrId|
            #[trigger] expand_model_from(segs, m, i, b).index.contains_key(k)
                <==> b.index.contains_key(k) || section_records_from(segs, m, i, k),
    decreases segs.len() - i,
{
    if i < segs.len() {
        if i % 2 == 1 {
            let b2 = splice_model(b, model_of(m[segs[i]]));
            lemma_expansion_identifiers(segs, m, i + 1, b2);
            assert(expand_model_from(segs, m, i, b) == expand_model_from(segs, m, i + 1, b2));
            assert forall|k: ErrId|
                #[trigger] expand_model_from(segs, m, i, b).index.contains_key(k)
                implies b.index.contains_key(k) || section_records_from(segs, m, i, k) by {
                assert(expand_model_from(segs, m, i + 1, b2).index.contains_key(k));
                if !b.index.contains_key(k) {
                    if b2.index.contains_key(k) {
                        assert(shift_map(
                            model_of(m[segs[i]]).index,
                            b.cursor - 1,
                        ).contains_key(k));
                        assert(m[segs[i]].line_numbers@.contains_key(k));
                    } else {
                        assert(section_records_from(segs, m, i + 1, k));
                        let j = choose|j: int|
                            i + 1 <= j < segs.len() && j % 2 == 1 && #[trigger] m[segs[j]].line_numbers@.contains_key(k);
                        assert(i <= j < segs.len() && j % 2 == 1 && m[segs[j]].line_numbers@.contains_key(k));
                    }
                }
            }
            assert forall|k: ErrId|
                b.index.contains_key(k) || section_records_from(segs, m, i, k)
                implies #[trigger] expand_model_from(segs, m, i, b).index.contains_key(k) by {
                if b.index.contains_key(k) {
                    assert(b2.index.contains_key(k));
                    assert(expand_model_from(segs, m, i + 1, b2).index.contains_key(k));
                } else {
                    let j = choose|j: int|
                        i <= j < segs.len() && j % 2 == 1 && #[trigger] m[segs[j]].line_numbers@.contains_key(k);
                    if j == i {
                        assert(shift_map(
                            model_of(m[segs[i]]).index,
                            b.cursor - 1,
                        ).contains_key(k));
                        assert(b2.index.contains_key(k));
                    } else {
                        assert(section_records_from(segs, m, i + 1, k));
                    }
                    assert(expand_model_from(segs, m, i + 1, b2).index.contains_key(k));
                }
            }
        } else {
            let b2 = append_model(b, segs[i]);
            lemma_expansion_identifiers(segs, m, i + 1, b2);
            assert(expand_model_from(segs, m, i, b) == expand_model_from(segs, m, i + 1, b2));
            assert forall|k: ErrId|
                section_records_from(segs, m, i, k) implies section_records_from(
                segs,
                m,
                i + 1,
                k,
            ) by {
                let j = choose|j: int|
                    i <= j < segs.len() && j % 2 == 1 && #[trigger] m[segs[j]].line_numbers@.contains_key(k);
                assert(j != i);
            }
            assert forall|k: ErrId|
                section_records_from(segs, m, i + 1, k) implies section_records_from(
                segs,
                m,
                i,
                k,
            ) by {
                let j = choose|j: int|
                    i + 1 <= j < segs.len() && j % 2 == 1 && #[trigger] m[segs[j]].line_numbers@.contains_key(k);
                assert(i <= j < segs.len() && j % 2 == 1 && m[segs[j]].line_numbers@.contains_key(k));
            }
        }
    } else {
        assert forall|k: ErrId| !section_records_from(segs, m, i, k) by {
            if section_records_from(segs, m, i, k) {
                let j = choose|j: int|
                    i <= j < segs.len() && j % 2 == 1 && #[trigger] m[segs[j]].line_numbers@.contains_key(k);
            }
        }
    }
}

/// Later expansion steps leave an already-recorded range untouched, as
/// long as no later section records the same identifier.
pub proof fn lemma_expansion_preserves(
    segs: Seq<Seq<char>>,
    m: Map<Seq<char>, StringStorage>,
    i: int,
    b: BuildState,
    k: ErrId,
)
    requires
        0 <= i,
        b.index.contains_key(k),
        forall|j: int|
            i <= j < segs.len() && j % 2 == 1 ==> !(#[trigger] m[segs[j]]).line_numbers@.contains_key(k),
    ensures
        expand_model_from(segs, m, i, b).index.contains_key(k),
        expand_model_from(segs, m, i, b).index[k] == b.index[k],
    decreases segs.len() - i,
{
    if i < segs.len() {
        if i % 2 == 1 {
            let b2 = splice_model(b, model_of(m[segs[i]]));
            assert(!shift_map(model_of(m[segs[i]]).index, b.cursor - 1).contains_key(k));
            assert(b2.index.contains_key(k) && b2.index[k] == b.index[k]);
            lemma_expansion_preserves(segs, m, i + 1, b2, k);
        } else {
            lemma_expansion_preserves(segs, m, i + 1, append_model(b, segs[i]), k);
        }
    }
}

/// Template round trip, range part: a fragment recorded by the one
/// section that a placeholder consumes keeps its range, shifted by
/// exactly the count of line terminators that precede that section's text
/// in the expanded document.
pub proof fn lemma_expansion_ranges(
    segs: Seq<Seq<char>>,
    m: Map<Seq<char>, StringStorage>,
    i: int,
    b: BuildState,
    j: int,
    k: ErrId,
)
    requires
        0 <= i <= j < segs.len(),
        j % 2 == 1,
        m[segs[j]].line_numbers@.contains_key(k),
        !b.index.contains_key(k),
        forall|j2: int|
            0 <= j2 < segs.len() && j2 % 2 == 1 && j2 != j ==> !(#[trigger] m[segs[j2]]).line_numbers@.contains_key(k),
    ensures
        expand_model_from(segs, m, i, b).index.contains_key(k),
        expand_model_from(segs, m, i, b).index[k] == shift_range(
            m[segs[j]].line_numbers@[k],
            b.cursor + newline_count(interleave_between(segs, m, i, j)) - 1,
        ),
    decreases segs.len() - i,
{
    if i == j {
        let b2 = splice_model(b, model_of(m[segs[i]]));
        assert(shift_map(model_of(m[segs[i]]).index, b.cursor - 1).contains_key(k));
        assert(b2.index.contains_key(k));
        assert(b2.index[k] == shift_range(m[segs[j]].line_numbers@[k], b.cursor - 1));
        lemma_expansion_preserves(segs, m, i + 1, b2, k);
        assert(newline_count(interleave_between(segs, m, i, j)) == 0);
    } else {
        if i % 2 == 1 {
            let piece = m[segs[i]].storage@;
            let b2 = splice_model(b, model_of(m[segs[i]]));
            assert(!shift_map(model_of(m[segs[i]]).index, b.cursor - 1).contains_key(k));
            lemma_expansion_ranges(segs, m, i + 1, b2, j, k);
            lemma_newline_count_concat(piece, interleave_between(segs, m, i + 1, j));
        } else {
            let piece = segs[i];
            let b2 = append_model(b, piece);
            lemma_expansion_ranges(segs, m, i + 1, b2, j, k);
            lemma_newline_count_concat(piece, interleave_between(segs, m, i + 1, j));
        }
    }
}

/// Some section at an odd position before `hi` records `k`.
pub open spec fn some_section_has(
    segs: Seq<Seq<char>>,
    m: Map<Seq<char>, StringStorage>,
    hi: int,
    k: ErrId,
) -> bool {
    exists|j: int|
        0 <= j < hi && j % 2 == 1 && #[trigger] m[segs[j]].line_numbers@.contains_key(k)
}

/// Expands the template against the supplied named sections: literal spans
/// are appended as they stand; each placeholder consumes the section of
/// its name, splicing its text and its shifted provenance into the result.
pub fn apply_template(template: &str, storages: NamedStorages) -> (r: StringStorage)
    requires
        storages.inv(),
        template_ok(split_spec(template@), storages@),
    ensures
        r.inv(),
        model_of(r) == final_expansion(split_spec(template@), storages@),
{
    let ghost segs = split_spec(template@);
    let ghost m = storages@;
    let parts = split_template(template);
    let mut result = StringStorage::default();
    let n = parts.len();
    let mut idx: usize = 0;
    while idx < n
        invariant
            idx <= n,
            n == parts@.len(),
            segs == split_spec(template@),
            m == storages@,
            n == segs.len(),
            storages.inv(),
            forall|k: int| 0 <= k < n ==> (#[trigger] parts@[k])@ == segs[k],
            template_ok(segs, m),
            result.inv(),
            expand_model_from(segs, m, idx as int, model_of(result)) == final_expansion(segs, m),
            forall|k: ErrId| #[trigger] result.line_numbers@.contains_key(k)
                ==> some_section_has(segs, m, idx as int, k),
        decreases n - idx,
    {
        let part: &str = parts[idx];
        let ghost b0 = model_of(result);
        if idx % 2 == 1 {
            match storages.get_by_name(part) {
                Some(section) => {
                    proof {
                        assert(*section == m[segs[idx as int]]);
                        let stepped = splice_model(b0, model_of(*section));
                        assert(expand_model_from(segs, m, idx as int, b0)
                            == expand_model_from(segs, m, idx as int + 1, stepped));
                        lemma_expand_cursor_grows(segs, m, idx as int + 1, stepped);
                        assert(result.current_line_no + newline_count(section.storage@)
                            <= usize::MAX);
                        assert forall|k: ErrId| result.line_numbers@.contains_key(k)
                            implies !section.line_numbers@.dom().contains(k) by {
                            let j = choose|j: int|
                                0 <= j < idx as int && j % 2 == 1
                                    && #[trigger] m[segs[j]].line_numbers@.contains_key(k);
                            assert(segs[j] != segs[idx as int]);
                            assert(m[segs[j]].line_numbers@.dom().disjoint(
                                m[segs[idx as int]].line_numbers@.dom(),
                            ));
                        }
                        assert(result.line_numbers@.dom().disjoint(
                            section.line_numbers@.dom(),
                        ));
                        assert(can_shift(
                            section.line_numbers@,
                            result.current_line_no - 1,
                        )) by {
                            assert(can_shift(
                                m[segs[idx as int]].line_numbers@,
                                final_expansion(segs, m).cursor - 1,
                            ));
                        }
                    }
                    result.add_spliced(section);
                    proof {
                        assert(model_of(result) =~= splice_model(b0, model_of(*section)));
                        assert forall|k: ErrId| #[trigger] result.line_numbers@.contains_key(k)
                            implies some_section_has(segs, m, idx as int + 1, k) by {
                            if b0.index.contains_key(k) {
                                let j = choose|j: int|
                                    0 <= j < idx as int && j % 2 == 1
                                        && #[trigger] m[segs[j]].line_numbers@.contains_key(k);
                                assert(m[segs[j]].line_numbers@.contains_key(k));
                            } else {
                                assert(shift_map(
                                    model_of(*section).index,
                                    b0.cursor - 1,
                                ).contains_key(k));
                                assert(m[segs[idx as int]].line_numbers@.contains_key(k));
                            }
                        }
                    }
                },
                None => {
                    proof {
                        assert(m.contains_key(segs[idx as int]));
                    }
                    vstd::pervasive::unreached()
                },
            }
        } else {
            proof {
                let stepped = append_model(b0, segs[idx as int]);
                assert(expand_model_from(segs, m, idx as int, b0) == expand_model_from(
                    segs,
                    m,
                    idx as int + 1,
                    stepped,
                ));
                lemma_expand_cursor_grows(segs, m, idx as int + 1, stepped);
                assert(result.current_line_no + newline_count(part@) <= usize::MAX);
            }
            result.add_string(part);
            proof {
                assert(model_of(result) =~= append_model(b0, segs[idx as int]));
                assert forall|k: ErrId| #[trigger] result.line_numbers@.contains_key(k)
                    implies some_section_has(segs, m, idx as int + 1, k) by {
                    let j = choose|j: int|
                        0 <= j < idx as int && j % 2 == 1
                            && #[trigger] m[segs[j]].line_numbers@.contains_key(k);
                    assert(m[segs[j]].line_numbers@.contains_key(k));
                }
            }
        }
        idx = idx + 1;
    }
    result
}

} // verus!
