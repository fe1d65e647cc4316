//! The diagnostic back-mapper.
//!
//! The external compiler reports diagnostics against absolute lines of the
//! composed document.  Given the document's provenance index, each
//! recognized `(line, message)` diagnostic is routed to the fragment whose
//! recorded range contains the line, with the line translated to the
//! fragment's own 1-indexed numbering.  A diagnostic outside every range,
//! or one that could not be parsed at all, lands in the bucket of the
//! reserved default identifier, so no compiler output is ever dropped.
//! Within each bucket, diagnostics keep the order they were received in.

use vstd::prelude::*;

use crate::identifier::ErrId;
use crate::line_index::{no_owner, ranges_wf, spec_find_owner, LineNumbersByKey, LineRange};

verus! {

/// The local line number recorded for a diagnostic that carries no line
/// information.
pub const NO_LINE_INFO: usize = usize::MAX;

/// One raw compiler diagnostic, as the diagnostic parser hands it over.
pub enum RawDiagnostic {
    /// A recognized pair of absolute line number and message.
    Line(usize, String),
    /// Compiler output that could not be parsed into a line and a message.
    Unparsed(String),
}

/// Some entry of `s` carries the key `k`.
pub open spec fn bucket_seq_has_key(s: Seq<(ErrId, Seq<(usize, String)>)>, k: ErrId) -> bool {
    exists|i: int| 0 <= i < s.len() && s[i].0 == k
}

/// No two entries of `s` carry the same key.
pub open spec fn bucket_seq_distinct(s: Seq<(ErrId, Seq<(usize, String)>)>) -> bool {
    forall|i: int, j: int| 0 <= i < j < s.len() ==> s[i].0 != s[j].0
}

/// The mapping that a bucket list denotes.
pub open spec fn bucket_map_of(
    s: Seq<(ErrId, Seq<(usize, String)>)>,
) -> Map<ErrId, Seq<(usize, String)>>
    decreases s.len(),
{
    if s.len() == 0 {
        Map::empty()
    } else {
        bucket_map_of(s.drop_last()).insert(s.last().0, s.last().1)
    }
}

/// A key is in the denoted map exactly when some entry carries it.
pub proof fn lemma_bucket_domain(s: Seq<(ErrId, Seq<(usize, String)>)>)
    ensures
        forall|k: ErrId| #[trigger] bucket_map_of(s).contains_key(k) <==> bucket_seq_has_key(
            s,
            k,
        ),
    decreases s.len(),
{
    if s.len() > 0 {
        lemma_bucket_domain(s.drop_last());
        assert forall|k: ErrId| #[trigger] bucket_map_of(s).contains_key(k)
            implies bucket_seq_has_key(s, k) by {
            if k == s.last().0 {
                assert(s[s.len() - 1].0 == k);
            } else {
                assert(bucket_map_of(s.drop_last()).contains_key(k));
                assert(bucket_seq_has_key(s.drop_last(), k));
                let i = choose|i: int| 0 <= i < s.drop_last().len() && s.drop_last()[i].0 == k;
                assert(s[i].0 == k);
            }
        }
        assert forall|k: ErrId| bucket_seq_has_key(s, k) implies #[trigger] bucket_map_of(
            s,
        ).contains_key(k) by {
            let i = choose|i: int| 0 <= i < s.len() && s[i].0 == k;
            if i < s.len() - 1 {
                assert(s.drop_last()[i].0 == k);
                assert(bucket_seq_has_key(s.drop_last(), k));
                assert(bucket_map_of(s.drop_last()).contains_key(k));
            } else {
                assert(k == s.last().0);
            }
        }
    }
}

/// With distinct keys, the denoted map sends each entry's key to its
/// bucket.
pub proof fn lemma_bucket_index(s: Seq<(ErrId, Seq<(usize, String)>)>, i: int)
    requires
        bucket_seq_distinct(s),
        0 <= i < s.len(),
    ensures
        bucket_map_of(s).contains_key(s[i].0),
        bucket_map_of(s)[s[i].0] == s[i].1,
    decreases s.len(),
{
    if i < s.len() - 1 {
        assert(bucket_seq_distinct(s.drop_last())) by {
            assert forall|x: int, y: int|
                0 <= x < y < s.drop_last().len() implies s.drop_last()[x].0 != s.drop_last()[
                y].0 by {
                assert(s[x].0 != s[y].0);
            }
        }
        lemma_bucket_index(s.drop_last(), i);
        assert(s.drop_last()[i] == s[i]);
        assert(s[i].0 != s[s.len() - 1].0);
    }
}

/// Replacing entry `i`'s bucket updates the denoted map at its key.
pub proof fn lemma_bucket_update(
    s: Seq<(ErrId, Seq<(usize, String)>)>,
    i: int,
    v: Seq<(usize, String)>,
)
    requires
        bucket_seq_distinct(s),
        0 <= i < s.len(),
    ensures
        bucket_map_of(s.update(i, (s[i].0, v))) == bucket_map_of(s).insert(s[i].0, v),
    decreases s.len(),
{
    let t = s.update(i, (s[i].0, v));
    if i == s.len() - 1 {
        assert(t.drop_last() =~= s.drop_last());
        assert(t.last() == (s[i].0, v));
        assert(bucket_map_of(t) =~= bucket_map_of(s).insert(s[i].0, v));
    } else {
        assert(bucket_seq_distinct(s.drop_last())) by {
            assert forall|x: int, y: int|
                0 <= x < y < s.drop_last().len() implies s.drop_last()[x].0 != s.drop_last()[
                y].0 by {
                assert(s[x].0 != s[y].0);
            }
        }
        lemma_bucket_update(s.drop_last(), i, v);
        assert(t.drop_last() =~= s.drop_last().update(i, (s[i].0, v)));
        assert(t.last() == s.last());
        assert(s[i].0 != s[s.len() - 1].0);
        assert(bucket_map_of(t) =~= bucket_map_of(s).insert(s[i].0, v));
    }
}

/// The entries of a bucket list, with each bucket abstracted to its
/// sequence of diagnostics.
pub open spec fn buckets_viewed(
    s: Seq<(ErrId, Vec<(usize, String)>)>,
) -> Seq<(ErrId, Seq<(usize, String)>)> {
    s.map_values(|p: (ErrId, Vec<(usize, String)>)| (p.0, p.1@))
}

/// Per-identifier diagnostic buckets: for each identifier, the ordered
/// list of `(local line, message)` pairs attributed to it.
pub struct ShaderErrors {
    entries: Vec<(ErrId, Vec<(usize, String)>)>,
}

impl View for ShaderErrors {
    type V = Map<ErrId, Seq<(usize, String)>>;

    closed spec fn view(&self) -> Map<ErrId, Seq<(usize, String)>> {
        bucket_map_of(buckets_viewed(self.entries@))
    }
}

impl Default for ShaderErrors {
    /// No diagnostics at all.
    fn default() -> (r: Self)
        ensures
            r.inv(),
            r@ == Map::<ErrId, Seq<(usize, String)>>::empty(),
    {
        ShaderErrors { entries: Vec::new() }
    }
}

/// Appending one attributed diagnostic to its bucket: an existing bucket
/// grows at its end, a fresh identifier opens a new one-element bucket.
pub open spec fn push_bucket(
    m: Map<ErrId, Seq<(usize, String)>>,
    id: ErrId,
    item: (usize, String),
) -> Map<ErrId, Seq<(usize, String)>> {
    if m.contains_key(id) {
        m.insert(id, m[id].push(item))
    } else {
        m.insert(id, seq![item])
    }
}

impl ShaderErrors {
    /// Well-formed: one bucket per identifier.
    pub closed spec fn inv(&self) -> bool {
        bucket_seq_distinct(buckets_viewed(self.entries@))
    }

    /// Appends one attributed diagnostic to the bucket of `id`.
    pub fn add_entry(&mut self, id: ErrId, line: usize, message: String)
        requires
            old(self).inv(),
        ensures
            final(self).inv(),
            final(self)@ == push_bucket(old(self)@, id, (line, message)),
    {
        proof {
            lemma_bucket_domain(buckets_viewed(self.entries@));
        }
        let n = self.entries.len();
        let mut i: usize = 0;
        while i < n
            invariant
                i <= n,
                n == self.entries@.len(),
                self.inv(),
                self == old(self),
                forall|j: int| 0 <= j < i ==> (#[trigger] self.entries@[j]).0 != id,
            decreases n - i,
        {
            if self.entries[i].0.0 == id.0 {
                let ghost pre = buckets_viewed(self.entries@);
                proof {
                    assert(self.entries@[i as int].0 == id);
                    assert(pre[i as int].0 == id);
                    lemma_bucket_index(pre, i as int);
                }
                let slot = vstd::std_specs::vec::vec_index_mut(&mut self.entries, i);
                slot.1.push((line, message));
                proof {
                    lemma_bucket_update(pre, i as int, pre[i as int].1.push((line, message)));
                    assert(buckets_viewed(self.entries@) =~= pre.update(
                        i as int,
                        (id, pre[i as int].1.push((line, message))),
                    ));
                    assert(self@ =~= push_bucket(old(self)@, id, (line, message)));
                    assert(bucket_seq_distinct(buckets_viewed(self.entries@)));
                }
                return ;
            }
            i = i + 1;
        }
        let ghost pre = buckets_viewed(self.entries@);
        let mut bucket: Vec<(usize, String)> = Vec::new();
        bucket.push((line, message));
        self.entries.push((id, bucket));
        proof {
            lemma_bucket_domain(pre);
            assert(!bucket_map_of(pre).contains_key(id)) by {
                if bucket_seq_has_key(pre, id) {
                    let j = choose|j: int| 0 <= j < pre.len() && pre[j].0 == id;
                    assert(self.entries@[j].0 == id);
                }
            }
            assert(buckets_viewed(self.entries@).drop_last() =~= pre);
            assert(buckets_viewed(self.entries@).last() == (id, seq![(line, message)]));
            assert(self@ =~= push_bucket(old(self)@, id, (line, message)));
            assert forall|x: int, y: int|
                0 <= x < y < buckets_viewed(self.entries@).len() implies buckets_viewed(
                self.entries@,
            )[x].0 != buckets_viewed(self.entries@)[y].0 by {
                if y < pre.len() {
                    assert(pre[x].0 != pre[y].0);
                } else {
                    assert(buckets_viewed(self.entries@)[x].0 == pre[x].0);
                    if pre[x].0 == id {
                        assert(bucket_seq_has_key(pre, id));
                    }
                }
            }
        }
    }

    /// The bucket attributed to `id`, if any diagnostic landed there.
    pub fn get_bucket(&self, id: ErrId) -> (r: Option<&Vec<(usize, String)>>)
        requires
            self.inv(),
        ensures
            match r {
                Some(bucket) => self@.contains_key(id) && bucket@ == self@[id],
                None => !self@.contains_key(id),
            },
    {
        proof {
            lemma_bucket_domain(buckets_viewed(self.entries@));
        }
        let n = self.entries.len();
        let mut i: usize = 0;
        while i < n
            invariant
                i <= n,
                n == self.entries@.len(),
                self.inv(),
                forall|j: int| 0 <= j < i ==> (#[trigger] self.entries@[j]).0 != id,
            decreases n - i,
        {
            if self.entries[i].0.0 == id.0 {
                proof {
                    assert(buckets_viewed(self.entries@)[i as int].0 == id);
                    lemma_bucket_index(buckets_viewed(self.entries@), i as int);
                }
                return Some(&self.entries[i].1);
            }
            i = i + 1;
        }
        proof {
            lemma_bucket_domain(buckets_viewed(self.entries@));
            if bucket_seq_has_key(buckets_viewed(self.entries@), id) {
                let j = choose|j: int|
                    0 <= j < buckets_viewed(self.entries@).len() && buckets_viewed(
                        self.entries@,
                    )[j].0 == id;
                assert(self.entries@[j].0 == id);
            }
        }
        None
    }
}

/// Where one raw diagnostic lands: the target bucket and the recorded
/// `(local line, message)` pair.  A recognized diagnostic goes to the
/// owner of its line with the line made fragment-local; one outside every
/// range goes to the default identifier with its absolute line; an
/// unparsed message goes to the default identifier with the no-line-info
/// sentinel.
pub open spec fn bucket_item(
    index: Map<ErrId, LineRange>,
    d: RawDiagnostic,
) -> (ErrId, (usize, String)) {
    match d {
        RawDiagnostic::Line(l, msg) => match spec_find_owner(index, l as int) {
            Some(p) => (p.0, (p.1, msg)),
            None => (ErrId(0), (l, msg)),
        },
        RawDiagnostic::Unparsed(msg) => (ErrId(0), (NO_LINE_INFO, msg)),
    }
}

/// The buckets that routing `diags` against `index` produces, starting
/// from the buckets `acc`.
pub open spec fn back_map_spec(
    index: Map<ErrId, LineRange>,
    diags: Seq<RawDiagnostic>,
    acc: Map<ErrId, Seq<(usize, String)>>,
) -> Map<ErrId, Seq<(usize, String)>>
    decreases diags.len(),
{
    if diags.len() == 0 {
        acc
    } else {
        back_map_spec(
            index,
            diags.drop_first(),
            push_bucket(acc, bucket_item(index, diags.first()).0, bucket_item(index, diags.first()).1),
        )
    }
}

/// Routes each raw diagnostic to the bucket of the fragment that owns its
/// line, or to the default identifier's bucket when no fragment does or
/// when the diagnostic carries no line.
pub fn back_map(index: &LineNumbersByKey, diags: &Vec<RawDiagnostic>) -> (r: ShaderErrors)
    requires
        index.inv(),
    ensures
        r.inv(),
        r@ == back_map_spec(index@, diags@, Map::<ErrId, Seq<(usize, String)>>::empty()),
{
    let mut result = ShaderErrors::default();
    let n = diags.len();
    let mut i: usize = 0;
    proof {
        assert(diags@.skip(0) =~= diags@);
    }
    while i < n
        invariant
            i <= n,
            n == diags@.len(),
            index.inv(),
            result.inv(),
            back_map_spec(index@, diags@.skip(i as int), result@) == back_map_spec(
                index@,
                diags@,
                Map::<ErrId, Seq<(usize, String)>>::empty(),
            ),
        decreases n - i,
    {
        let ghost pre = result@;
        let d = &diags[i];
        match d {
            RawDiagnostic::Line(l, msg) => {
                match index.find_owner(*l) {
                    Some(p) => {
                        result.add_entry(p.0, p.1, msg.clone());
                    },
                    None => {
                        result.add_entry(ErrId(0), *l, msg.clone());
                    },
                }
            },
            RawDiagnostic::Unparsed(msg) => {
                result.add_entry(ErrId(0), NO_LINE_INFO, msg.clone());
            },
        }
        proof {
            let tail = diags@.skip(i as int);
            assert(tail.first() == diags@[i as int]);
            assert(tail.drop_first() =~= diags@.skip(i as int + 1));
            assert(result@ == push_bucket(
                pre,
                bucket_item(index@, diags@[i as int]).0,
                bucket_item(index@, diags@[i as int]).1,
            ));
        }
        i = i + 1;
    }
    proof {
        assert(diags@.skip(n as int).len() == 0);
    }
    result
}

/// Back-mapping determinism: the buckets are a function of the provenance
/// index and the diagnostic list alone, so two runs over the same inputs
/// agree.
pub proof fn lemma_back_map_deterministic(
    index: Map<ErrId, LineRange>,
    diags: Seq<RawDiagnostic>,
    r1: Map<ErrId, Seq<(usize, String)>>,
    r2: Map<ErrId, Seq<(usize, String)>>,
)
    requires
        r1 == back_map_spec(index, diags, Map::<ErrId, Seq<(usize, String)>>::empty()),
        r2 == back_map_spec(index, diags, Map::<ErrId, Seq<(usize, String)>>::empty()),
    ensures
        r1 == r2,
{
}

/// Default-bucket fallback: a recognized diagnostic whose line is zero, or
/// at or beyond every recorded range's end, is always routed to the
/// reserved default identifier, keeping its absolute line number.
pub proof fn lemma_default_bucket_fallback(
    index: Map<ErrId, LineRange>,
    l: usize,
    msg: String,
)
    requires
        ranges_wf(index),
        l == 0 || forall|k: ErrId| #[trigger] index.contains_key(k) ==> index[k].end <= l,
    ensures
        bucket_item(index, RawDiagnostic::Line(l, msg)) == (ErrId(0), (l, msg)),
{
    assert(no_owner(index, l as int)) by {
        assert forall|k: ErrId| #[trigger] index.contains_key(k) implies !index[k].spec_contains(
            l as int,
        ) by {
            assert(index[k].wf());
        }
    }
}

} // verus!
