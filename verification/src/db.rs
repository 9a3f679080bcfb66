//! The per-collection vector index: an ordered sequence of records, a
//! tombstone set for soft deletion, and inline compaction once enough ids
//! have been tombstoned.
//!
//! A search ranks every stored record by its squared Euclidean distance to
//! the query (position in insertion order breaks ties), keeps a bounded
//! candidate list, drops tombstoned candidates and reports the rest in
//! ascending distance order.

use vstd::prelude::*;
use crate::errors::ServiceError;

verus! {

/// Number of tombstoned ids above which a removal triggers an inline
/// rebuild.
pub const MAX_REMOVED_BEFORE_REBUILD: usize = 100;

/// Size of the candidate list a search ranks before tombstones are
/// filtered out.
pub const SEARCH_CANDIDATES: usize = 8;

/// The square of an integer.
pub open spec fn sq(x: int) -> int {
    x * x
}

/// The length of the shared prefix of two vectors.
pub open spec fn shared_len(a: Seq<i32>, b: Seq<i32>) -> int {
    if a.len() <= b.len() {
        a.len() as int
    } else {
        b.len() as int
    }
}

/// Sum of the squared component differences over the first `n` shared
/// positions of two vectors.
pub open spec fn sq_dist_upto(a: Seq<i32>, b: Seq<i32>, n: int) -> int
    decreases n,
{
    if n <= 0 {
        0
    } else {
        sq_dist_upto(a, b, n - 1) + sq(a[n - 1] - b[n - 1])
    }
}

/// Exact squared Euclidean distance over the shared prefix of two vectors.
pub open spec fn sq_dist(a: Seq<i32>, b: Seq<i32>) -> int {
    sq_dist_upto(a, b, shared_len(a, b))
}

/// The distance as the index ranks by it: the squared Euclidean distance,
/// capped at `u64::MAX`.
pub open spec fn dist64(a: Seq<i32>, b: Seq<i32>) -> int {
    if sq_dist(a, b) > u64::MAX as int {
        u64::MAX as int
    } else {
        sq_dist(a, b)
    }
}

/// The distance as a search result reports it: `dist64`, capped once more
/// at `u32::MAX`.
pub open spec fn dist32(a: Seq<i32>, b: Seq<i32>) -> int {
    if dist64(a, b) > u32::MAX as int {
        u32::MAX as int
    } else {
        dist64(a, b)
    }
}

proof fn lemma_sq_dist_upto_nonneg(a: Seq<i32>, b: Seq<i32>, n: int)
    ensures
        sq_dist_upto(a, b, n) >= 0,
    decreases n,
{
    if n > 0 {
        lemma_sq_dist_upto_nonneg(a, b, n - 1);
        assert(sq(a[n - 1] - b[n - 1]) >= 0) by (nonlinear_arith);
    }
}

/// A vector of equal-length components is at distance zero from itself.
proof fn lemma_sq_dist_self_zero(a: Seq<i32>, b: Seq<i32>, n: int)
    requires
        forall|i: int| 0 <= i < n ==> a[i] == b[i],
    ensures
        sq_dist_upto(a, b, n) == 0,
    decreases n,
{
    if n > 0 {
        lemma_sq_dist_self_zero(a, b, n - 1);
        assert(a[n - 1] == b[n - 1]);
        assert(sq(a[n - 1] - b[n - 1]) == 0) by (nonlinear_arith)
            requires
                a[n - 1] == b[n - 1],
        ;
    }
}

/// The Euclidean metric over quantized vectors, computed exactly in integer
/// arithmetic.
pub struct Euclidean;

impl Clone for Euclidean {
    fn clone(&self) -> (r: Self)
        ensures
            r == Euclidean,
    {
        Euclidean
    }
}

impl Euclidean {
    /// Squared Euclidean distance over the shared prefix of `a` and `b`,
    /// saturating at `u64::MAX`.
    pub fn distance(&self, a: &Vec<i32>, b: &Vec<i32>) -> (r: u64)
        ensures
            r == dist64(a@, b@),
    {
        let n = if a.len() <= b.len() {
            a.len()
        } else {
            b.len()
        };
        let mut acc: u64 = 0;
        let mut i: usize = 0;
        while i < n
            invariant
                i <= n,
                n == shared_len(a@, b@),
                acc == if sq_dist_upto(a@, b@, i as int) > u64::MAX as int {
                    u64::MAX as int
                } else {
                    sq_dist_upto(a@, b@, i as int)
                },
            decreases n - i,
        {
            let ai = a[i] as i64;
            let bi = b[i] as i64;
            let diff: i64 = ai - bi;
            let ud: u64 = if diff < 0 {
                (-diff) as u64
            } else {
                diff as u64
            };
            assert(ud * ud <= 0xffff_ffffu64 * 0xffff_ffffu64) by (nonlinear_arith)
                requires
                    ud <= 0xffff_ffffu64,
            ;
            let term: u64 = ud * ud;
            proof {
                let d = a@[i as int] - b@[i as int];
                assert(ud == if d < 0 { -d } else { d });
                assert(ud * ud == sq(d)) by (nonlinear_arith)
                    requires
                        ud == if d < 0 { -d } else { d },
                ;
                lemma_sq_dist_upto_nonneg(a@, b@, i as int);
            }
            acc = if acc > u64::MAX - term {
                u64::MAX
            } else {
                acc + term
            };
            i += 1;
        }
        acc
    }
}

/// One stored entry: an external id and its quantized embedding vector.
pub struct VectorRecord {
    pub id: String,
    pub vector: Vec<i32>,
}

/// The mathematical model of a record.
pub struct RecordModel {
    pub id: Seq<char>,
    pub vector: Seq<i32>,
}

impl View for VectorRecord {
    type V = RecordModel;

    open spec fn view(&self) -> RecordModel {
        RecordModel { id: self.id@, vector: self.vector@ }
    }
}

impl Clone for VectorRecord {
    fn clone(&self) -> (r: Self)
        ensures
            r@ == self@,
    {
        let v = self.vector.clone();
        proof {
            assert(v@ =~= self.vector@);
        }
        VectorRecord { id: self.id.clone(), vector: v }
    }
}

/// One search hit: the record's id, its position in the record sequence,
/// and its reported distance to the query.
#[derive(Debug)]
pub struct AnnNeighbor {
    pub id: String,
    pub index: usize,
    pub distance: u32,
}

/// The mathematical model of a search hit.
pub struct NeighborModel {
    pub id: Seq<char>,
    pub index: int,
    pub distance: int,
}

impl View for AnnNeighbor {
    type V = NeighborModel;

    open spec fn view(&self) -> NeighborModel {
        NeighborModel { id: self.id@, index: self.index as int, distance: self.distance as int }
    }
}

/// The ranking order of a search: record `i` comes before record `j` when
/// it is closer to the query, or equally close and stored earlier.
pub open spec fn precedes(recs: Seq<RecordModel>, q: Seq<i32>, i: int, j: int) -> bool {
    ||| dist64(recs[i].vector, q) < dist64(recs[j].vector, q)
    ||| (dist64(recs[i].vector, q) == dist64(recs[j].vector, q) && i < j)
}

/// `s` lists record positions in ranking order.
pub open spec fn ranked_sorted(recs: Seq<RecordModel>, q: Seq<i32>, s: Seq<int>) -> bool {
    forall|i: int, j: int| 0 <= i < j < s.len() ==> precedes(recs, q, s[i], s[j])
}

/// Position `p` inserted into the ranked sequence `s`, before the first
/// element that does not precede it.
pub open spec fn insert_ranked(recs: Seq<RecordModel>, q: Seq<i32>, s: Seq<int>, p: int) -> Seq<
    int,
>
    decreases s.len(),
{
    if s.len() == 0 {
        seq![p]
    } else if precedes(recs, q, s[0], p) {
        seq![s[0]] + insert_ranked(recs, q, s.drop_first(), p)
    } else {
        seq![p] + s
    }
}

/// The positions `0 .. n`, listed in ranking order.
pub open spec fn ranking_upto(recs: Seq<RecordModel>, q: Seq<i32>, n: int) -> Seq<int>
    decreases n,
{
    if n <= 0 {
        Seq::empty()
    } else {
        insert_ranked(recs, q, ranking_upto(recs, q, n - 1), n - 1)
    }
}

/// All record positions, listed in ranking order for query `q`.
pub open spec fn ranking(recs: Seq<RecordModel>, q: Seq<i32>) -> Seq<int> {
    ranking_upto(recs, q, recs.len() as int)
}

/// How many candidates a search over `n_records` records ranks.
pub open spec fn candidate_count(n_records: int) -> int {
    if n_records <= SEARCH_CANDIDATES as int {
        n_records
    } else {
        SEARCH_CANDIDATES as int
    }
}

/// The candidate positions of a search: the best-ranked
/// `candidate_count` positions, tombstoned or not.
pub open spec fn candidates(recs: Seq<RecordModel>, q: Seq<i32>) -> Seq<int> {
    ranking(recs, q).take(candidate_count(recs.len() as int))
}

/// The search hit reported for the record at position `p`.
pub open spec fn neighbor_of(recs: Seq<RecordModel>, q: Seq<i32>, p: int) -> NeighborModel {
    NeighborModel { id: recs[p].id, index: p, distance: dist32(recs[p].vector, q) }
}

/// The hits reported for the candidate positions `cands`: tombstoned
/// candidates are dropped, the rest keep their order.
pub open spec fn results_of(
    recs: Seq<RecordModel>,
    removed: Seq<Seq<char>>,
    q: Seq<i32>,
    cands: Seq<int>,
) -> Seq<NeighborModel>
    decreases cands.len(),
{
    if cands.len() == 0 {
        Seq::empty()
    } else {
        let rest = results_of(recs, removed, q, cands.drop_last());
        if id_removed(removed, recs[cands.last()].id) {
            rest
        } else {
            rest.push(neighbor_of(recs, q, cands.last()))
        }
    }
}

/// What a search over the given records and tombstones returns for `q`.
pub open spec fn search_results(
    recs: Seq<RecordModel>,
    removed: Seq<Seq<char>>,
    q: Seq<i32>,
) -> Seq<NeighborModel> {
    results_of(recs, removed, q, candidates(recs, q))
}

/// The models of a vector of search hits.
pub open spec fn neighbors_view(v: Seq<AnnNeighbor>) -> Seq<NeighborModel> {
    v.map_values(|n: AnnNeighbor| n@)
}

/// Ranking precedence is total on distinct positions.
proof fn lemma_precedes_total(recs: Seq<RecordModel>, q: Seq<i32>, a: int, b: int)
    requires
        a != b,
    ensures
        precedes(recs, q, a, b) || precedes(recs, q, b, a),
{
}

/// Inserting into a ranked sequence at the scanned split point.
proof fn lemma_insert_ranked_split(
    recs: Seq<RecordModel>,
    q: Seq<i32>,
    s: Seq<int>,
    p: int,
    k: int,
)
    requires
        0 <= k <= s.len(),
        forall|j: int| 0 <= j < k ==> precedes(recs, q, s[j], p),
        k < s.len() ==> !precedes(recs, q, s[k], p),
    ensures
        insert_ranked(recs, q, s, p) == s.take(k) + seq![p] + s.skip(k),
    decreases s.len(),
{
    if s.len() == 0 {
        assert(insert_ranked(recs, q, s, p) =~= s.take(k) + seq![p] + s.skip(k));
    } else if k == 0 {
        assert(!precedes(recs, q, s[0], p));
        assert(insert_ranked(recs, q, s, p) =~= s.take(0) + seq![p] + s.skip(0));
    } else {
        assert(precedes(recs, q, s[0], p));
        let rest = s.drop_first();
        assert(forall|j: int| 0 <= j < k - 1 ==> rest[j] == s[j + 1]);
        lemma_insert_ranked_split(recs, q, rest, p, k - 1);
        assert(insert_ranked(recs, q, s, p) =~= s.take(k) + seq![p] + s.skip(k));
    }
}

/// Length and membership of an insertion into a ranked sequence.
proof fn lemma_insert_ranked_basic(recs: Seq<RecordModel>, q: Seq<i32>, s: Seq<int>, p: int)
    ensures
        insert_ranked(recs, q, s, p).len() == s.len() + 1,
        forall|x: int| #[trigger]
            insert_ranked(recs, q, s, p).contains(x) <==> (s.contains(x) || x == p),
    decreases s.len(),
{
    let t = insert_ranked(recs, q, s, p);
    if s.len() == 0 {
        assert forall|x: int| #[trigger] t.contains(x) <==> (s.contains(x) || x == p) by {
            if x == p {
                assert(t[0] == p);
            }
        }
    } else if precedes(recs, q, s[0], p) {
        let rest = s.drop_first();
        lemma_insert_ranked_basic(recs, q, rest, p);
        let tr = insert_ranked(recs, q, rest, p);
        assert(t == seq![s[0]] + tr);
        assert forall|x: int| #[trigger] t.contains(x) <==> (s.contains(x) || x == p) by {
            if t.contains(x) {
                let i = choose|i: int| 0 <= i < t.len() && t[i] == x;
                if i == 0 {
                    assert(s[0] == x);
                } else {
                    assert(tr[i - 1] == x);
                    assert(tr.contains(x));
                    if rest.contains(x) {
                        let j = choose|j: int| 0 <= j < rest.len() && rest[j] == x;
                        assert(s[j + 1] == x);
                    }
                }
            }
            if s.contains(x) {
                let i = choose|i: int| 0 <= i < s.len() && s[i] == x;
                if i == 0 {
                    assert(t[0] == x);
                } else {
                    assert(rest[i - 1] == x);
                    assert(rest.contains(x));
                    assert(tr.contains(x));
                    let j = choose|j: int| 0 <= j < tr.len() && tr[j] == x;
                    assert(t[j + 1] == x);
                }
            }
            if x == p {
                assert(tr.contains(x));
                let j = choose|j: int| 0 <= j < tr.len() && tr[j] == x;
                assert(t[j + 1] == x);
            }
        }
    } else {
        assert(t == seq![p] + s);
        assert forall|x: int| #[trigger] t.contains(x) <==> (s.contains(x) || x == p) by {
            if t.contains(x) {
                let i = choose|i: int| 0 <= i < t.len() && t[i] == x;
                if i > 0 {
                    assert(s[i - 1] == x);
                }
            }
            if s.contains(x) {
                let i = choose|i: int| 0 <= i < s.len() && s[i] == x;
                assert(t[i + 1] == x);
            }
            if x == p {
                assert(t[0] == x);
            }
        }
    }
}

/// Inserting a fresh position into a ranked sorted sequence keeps it
/// sorted.
proof fn lemma_insert_ranked_sorted(recs: Seq<RecordModel>, q: Seq<i32>, s: Seq<int>, p: int)
    requires
        ranked_sorted(recs, q, s),
        !s.contains(p),
    ensures
        ranked_sorted(recs, q, insert_ranked(recs, q, s, p)),
    decreases s.len(),
{
    let t = insert_ranked(recs, q, s, p);
    if s.len() == 0 {
    } else if precedes(recs, q, s[0], p) {
        let rest = s.drop_first();
        assert(forall|i: int, j: int|
            0 <= i < j < rest.len() ==> precedes(recs, q, rest[i], rest[j]));
        assert(!rest.contains(p)) by {
            if rest.contains(p) {
                let i = choose|i: int| 0 <= i < rest.len() && rest[i] == p;
                assert(s[i + 1] == p);
                assert(s.contains(p));
            }
        }
        lemma_insert_ranked_sorted(recs, q, rest, p);
        let tr = insert_ranked(recs, q, rest, p);
        lemma_insert_ranked_basic(recs, q, rest, p);
        assert(t == seq![s[0]] + tr);
        assert forall|i: int, j: int| 0 <= i < j < t.len() implies precedes(
            recs,
            q,
            t[i],
            t[j],
        ) by {
            if i == 0 {
                assert(t[0] == s[0]);
                assert(tr.contains(tr[j - 1]));
                if tr[j - 1] == p {
                    assert(precedes(recs, q, s[0], p));
                } else {
                    assert(rest.contains(tr[j - 1]));
                    let m = choose|m: int| 0 <= m < rest.len() && rest[m] == tr[j - 1];
                    assert(s[m + 1] == tr[j - 1]);
                    assert(precedes(recs, q, s[0], s[m + 1]));
                }
            } else {
                assert(t[i] == tr[i - 1] && t[j] == tr[j - 1]);
            }
        }
    } else {
        assert(p != s[0]);
        lemma_precedes_total(recs, q, s[0], p);
        assert(precedes(recs, q, p, s[0]));
        assert(t == seq![p] + s);
        assert forall|i: int, j: int| 0 <= i < j < t.len() implies precedes(
            recs,
            q,
            t[i],
            t[j],
        ) by {
            if i == 0 {
                if j == 1 {
                    assert(t[j] == s[0]);
                } else {
                    assert(t[j] == s[j - 1]);
                    assert(precedes(recs, q, s[0], s[j - 1]));
                    assert(s.contains(s[j - 1]));
                    assert(s[j - 1] != p);
                    lemma_precedes_trans(recs, q, p, s[0], s[j - 1]);
                }
            } else {
                assert(t[i] == s[i - 1] && t[j] == s[j - 1]);
            }
        }
    }
}

/// Ranking precedence is transitive.
proof fn lemma_precedes_trans(recs: Seq<RecordModel>, q: Seq<i32>, a: int, b: int, c: int)
    requires
        precedes(recs, q, a, b),
        precedes(recs, q, b, c),
    ensures
        precedes(recs, q, a, c),
{
}

/// The ranking of the first `n` positions is a ranked sorted permutation
/// of `0 .. n`.
proof fn lemma_ranking_upto_props(recs: Seq<RecordModel>, q: Seq<i32>, n: int)
    ensures
        ranking_upto(recs, q, n).len() == if n <= 0 {
            0
        } else {
            n
        },
        forall|x: int| #[trigger] ranking_upto(recs, q, n).contains(x) <==> 0 <= x < n,
        ranked_sorted(recs, q, ranking_upto(recs, q, n)),
        forall|j: int|
            0 <= j < ranking_upto(recs, q, n).len() ==> 0 <= #[trigger] ranking_upto(
                recs,
                q,
                n,
            )[j] < n,
    decreases n,
{
    if n > 0 {
        lemma_ranking_upto_props(recs, q, n - 1);
        let s = ranking_upto(recs, q, n - 1);
        lemma_insert_ranked_basic(recs, q, s, n - 1);
        assert(!s.contains(n - 1));
        lemma_insert_ranked_sorted(recs, q, s, n - 1);
        let t = ranking_upto(recs, q, n);
        assert forall|j: int| 0 <= j < t.len() implies 0 <= #[trigger] t[j] < n by {
            assert(t.contains(t[j]));
        }
    }
}

/// Whether `id` occurs among the tombstoned ids `removed`.
pub open spec fn id_removed(removed: Seq<Seq<char>>, id: Seq<char>) -> bool {
    exists|i: int| 0 <= i < removed.len() && removed[i] == id
}

/// The records of `recs` whose id is not tombstoned, in their original
/// relative order.
pub open spec fn filter_live(recs: Seq<RecordModel>, removed: Seq<Seq<char>>) -> Seq<RecordModel>
    decreases recs.len(),
{
    if recs.len() == 0 {
        Seq::empty()
    } else {
        let rest = filter_live(recs.drop_last(), removed);
        if id_removed(removed, recs.last().id) {
            rest
        } else {
            rest.push(recs.last())
        }
    }
}

/// After this state is reached, no search on it can return `id`: either the
/// id is tombstoned or no record carries it.
pub open spec fn id_hidden(recs: Seq<RecordModel>, removed: Seq<Seq<char>>, id: Seq<char>) -> bool {
    id_removed(removed, id) || (forall|i: int| 0 <= i < recs.len() ==> recs[i].id != id)
}

/// How a removal changes an index: the id is tombstoned, and once more
/// than `MAX_REMOVED_BEFORE_REBUILD` distinct ids are tombstoned the
/// index is rebuilt inline. Afterwards the id is hidden from searches.
pub open spec fn remove_post(pre: VectorIndex, post: VectorIndex, id: Seq<char>) -> bool {
    &&& post.dim == pre.dim
    &&& ({
        let tombs = if id_removed(pre.removed_ids(), id) {
            pre.removed_ids()
        } else {
            pre.removed_ids().push(id)
        };
        if tombs.len() > MAX_REMOVED_BEFORE_REBUILD {
            &&& post.records() == filter_live(pre.records(), tombs)
            &&& post.removed_ids() =~= Seq::<Seq<char>>::empty()
        } else {
            &&& post.records() == pre.records()
            &&& post.removed_ids() == tombs
        }
    })
    &&& id_hidden(post.records(), post.removed_ids(), id)
}

/// The per-collection index: records in insertion order, tombstoned ids,
/// and the established vector dimension.
pub struct VectorIndex {
    pub vectors: Vec<VectorRecord>,
    pub removed: Vec<String>,
    pub dim: Option<usize>,
}

impl VectorIndex {
    /// The model of the stored record sequence.
    pub open spec fn records(&self) -> Seq<RecordModel> {
        self.vectors@.map_values(|r: VectorRecord| r@)
    }

    /// The model of the tombstone set, as a sequence of distinct ids.
    pub open spec fn removed_ids(&self) -> Seq<Seq<char>> {
        self.removed@.map_values(|s: String| s@)
    }

    /// Well-formedness: tombstoned ids are distinct, and every stored
    /// vector has the established dimension.
    pub open spec fn wf(&self) -> bool {
        &&& forall|i: int, j: int|
            0 <= i < j < self.removed@.len() ==> self.removed@[i]@ != self.removed@[j]@
        &&& match self.dim {
            Some(d) => forall|i: int|
                0 <= i < self.vectors@.len() ==> self.vectors@[i].vector@.len() == d,
            None => self.vectors@.len() == 0,
        }
    }

    /// A fresh, empty index with no established dimension.
    pub fn new() -> (r: Self)
        ensures
            r.wf(),
            r.records() =~= Seq::<RecordModel>::empty(),
            r.removed_ids() =~= Seq::<Seq<char>>::empty(),
            r.dim is None,
    {
        VectorIndex { vectors: Vec::new(), removed: Vec::new(), dim: None }
    }

    /// Appends `(id, v)` to the record sequence. The first insert
    /// establishes the index's dimension; a later insert whose vector
    /// length disagrees with it is rejected and leaves the index unchanged.
    pub fn insert(&mut self, v: Vec<i32>, id: String) -> (r: Result<(), ServiceError>)
        requires
            old(self).wf(),
        ensures
            final(self).wf(),
            match old(self).dim {
                Some(d) if v@.len() != d => {
                    &&& r == Result::<(), ServiceError>::Err(
                        ServiceError::DimensionMismatch { expected: d, actual: v.len() },
                    )
                    &&& *final(self) == *old(self)
                },
                _ => {
                    &&& r is Ok
                    &&& final(self).records() == old(self).records().push(
                        RecordModel { id: id@, vector: v@ },
                    )
                    &&& final(self).removed_ids() == old(self).removed_ids()
                    &&& final(self).dim == Some(v.len())
                },
            },
    {
        match self.dim {
            Some(d) => {
                if v.len() != d {
                    return Err(ServiceError::DimensionMismatch { expected: d, actual: v.len() });
                }
            },
            None => {},
        }
        self.dim = Some(v.len());
        let ghost old_records = self.records();
        self.vectors.push(VectorRecord { id, vector: v });
        proof {
            assert(self.records() =~= old_records.push(self.vectors@.last()@));
        }
        Ok(())
    }

    /// Whether `id` occurs in `ids`.
    fn contains_id(ids: &Vec<String>, id: &String) -> (r: bool)
        ensures
            r == id_removed(ids@.map_values(|s: String| s@), id@),
    {
        let ghost model = ids@.map_values(|s: String| s@);
        let mut i: usize = 0;
        while i < ids.len()
            invariant
                i <= ids.len(),
                model == ids@.map_values(|s: String| s@),
                forall|j: int| 0 <= j < i ==> model[j] != id@,
            decreases ids.len() - i,
        {
            if ids[i] == *id {
                proof {
                    assert(model[i as int] == id@);
                }
                return true;
            }
            proof {
                assert(model[i as int] != id@);
            }
            i += 1;
        }
        false
    }

    /// Ranks every record by its capped squared Euclidean distance to `v`
    /// (insertion order breaks ties), keeps the best `SEARCH_CANDIDATES`
    /// candidates, drops tombstoned ones and reports the rest in ranking
    /// order. A query whose length disagrees with the established
    /// dimension is rejected.
    pub fn search(&self, v: &Vec<i32>) -> (r: Result<Vec<AnnNeighbor>, ServiceError>)
        requires
            self.wf(),
        ensures
            match self.dim {
                Some(d) if v@.len() != d => r == Result::<Vec<AnnNeighbor>, ServiceError>::Err(
                    ServiceError::DimensionMismatch { expected: d, actual: v.len() },
                ),
                _ => {
                    &&& r is Ok
                    &&& neighbors_view(r->Ok_0@) == search_results(
                        self.records(),
                        self.removed_ids(),
                        v@,
                    )
                },
            },
    {
        match self.dim {
            Some(d) => {
                if v.len() != d {
                    return Err(ServiceError::DimensionMismatch { expected: d, actual: v.len() });
                }
            },
            None => {},
        }
        let ghost recs = self.records();
        let ghost tombs = self.removed_ids();
        let n = self.vectors.len();
        let metric = Euclidean;

        let mut dists: Vec<u64> = Vec::new();
        let mut i: usize = 0;
        while i < n
            invariant
                i <= n,
                n == recs.len(),
                recs == self.records(),
                dists@.len() == i,
                forall|j: int| 0 <= j < i ==> dists@[j] == dist64(recs[j].vector, v@),
            decreases n - i,
        {
            let d = metric.distance(&self.vectors[i].vector, v);
            dists.push(d);
            i += 1;
        }

        let mut order: Vec<usize> = Vec::new();
        let mut p: usize = 0;
        while p < n
            invariant
                p <= n,
                n == recs.len(),
                recs == self.records(),
                dists@.len() == n,
                forall|j: int| 0 <= j < n ==> dists@[j] == dist64(recs[j].vector, v@),
                order@.map_values(|u: usize| u as int) == ranking_upto(recs, v@, p as int),
                forall|j: int| 0 <= j < order@.len() ==> (#[trigger] order@[j]) < p,
            decreases n - p,
        {
            proof {
                lemma_ranking_upto_props(recs, v@, p as int);
            }
            let key = dists[p];
            let mut k: usize = 0;
            while k < order.len()
                invariant_except_break
                    k <= order@.len(),
                    order@.len() <= n,
                    p < n,
                    n == recs.len(),
                    dists@.len() == n,
                    forall|j: int| 0 <= j < n ==> dists@[j] == dist64(recs[j].vector, v@),
                    key == dist64(recs[p as int].vector, v@),
                    forall|j: int| 0 <= j < order@.len() ==> (#[trigger] order@[j]) < p,
                    forall|j: int|
                        0 <= j < k ==> precedes(recs, v@, order@[j] as int, p as int),
                ensures
                    k <= order@.len(),
                    forall|j: int|
                        0 <= j < k ==> precedes(recs, v@, order@[j] as int, p as int),
                    k < order@.len() ==> !precedes(recs, v@, order@[k as int] as int, p as int),
                decreases order@.len() - k,
            {
                let a = order[k];
                let da = dists[a];
                if !(da < key || (da == key && a < p)) {
                    break;
                }
                k += 1;
            }
            let ghost old_ranked = order@.map_values(|u: usize| u as int);
            order.insert(k, p);
            proof {
                lemma_insert_ranked_split(recs, v@, old_ranked, p as int, k as int);
                assert(order@.map_values(|u: usize| u as int) =~= old_ranked.take(k as int)
                    + seq![p as int] + old_ranked.skip(k as int));
                assert(order@.map_values(|u: usize| u as int) == ranking_upto(
                    recs,
                    v@,
                    p as int + 1,
                ));
            }
            p += 1;
        }

        proof {
            assert(order@.map_values(|u: usize| u as int) == ranking(recs, v@));
            lemma_ranking_upto_props(recs, v@, n as int);
        }
        let count = if n <= SEARCH_CANDIDATES {
            n
        } else {
            SEARCH_CANDIDATES
        };
        let ghost cands = candidates(recs, v@);
        proof {
            assert(cands =~= order@.map_values(|u: usize| u as int).take(count as int));
        }
        let mut out: Vec<AnnNeighbor> = Vec::new();
        let mut j: usize = 0;
        while j < count
            invariant
                j <= count,
                count == candidate_count(recs.len() as int),
                count <= n,
                n == recs.len(),
                recs == self.records(),
                tombs == self.removed_ids(),
                dists@.len() == n,
                forall|jj: int| 0 <= jj < n ==> dists@[jj] == dist64(recs[jj].vector, v@),
                order@.len() == n,
                cands == candidates(recs, v@),
                cands.len() == count,
                forall|jj: int| 0 <= jj < count ==> cands[jj] == order@[jj] as int,
                forall|jj: int| 0 <= jj < order@.len() ==> (#[trigger] order@[jj]) < n,
                neighbors_view(out@) == results_of(recs, tombs, v@, cands.take(j as int)),
            decreases count - j,
        {
            let pos = order[j];
            let ghost prior = neighbors_view(out@);
            if !Self::contains_id(&self.removed, &self.vectors[pos].id) {
                let d64 = dists[pos];
                let d32: u32 = if d64 > u32::MAX as u64 {
                    u32::MAX
                } else {
                    d64 as u32
                };
                let nb = AnnNeighbor {
                    id: self.vectors[pos].id.clone(),
                    index: pos,
                    distance: d32,
                };
                proof {
                    assert(nb@ == neighbor_of(recs, v@, pos as int));
                }
                out.push(nb);
                proof {
                    assert(neighbors_view(out@) =~= prior.push(neighbor_of(recs, v@, pos as int)));
                }
            }
            proof {
                assert(cands.take(j + 1).drop_last() =~= cands.take(j as int));
                assert(cands.take(j + 1).last() == pos as int);
            }
            j += 1;
        }
        proof {
            assert(cands.take(count as int) =~= cands);
        }
        Ok(out)
    }

    /// Tombstones `id`. Once more than `MAX_REMOVED_BEFORE_REBUILD`
    /// distinct ids are tombstoned, the index is rebuilt inline.
    pub fn remove(&mut self, id: String)
        requires
            old(self).wf(),
        ensures
            final(self).wf(),
            remove_post(*old(self), *final(self), id@),
    {
        let ghost old_tombs = self.removed_ids();
        if !Self::contains_id(&self.removed, &id) {
            self.removed.push(id);
            proof {
                assert(self.removed_ids() =~= old_tombs.push(self.removed@.last()@));
                assert forall|i: int, j: int|
                    0 <= i < j < self.removed@.len() implies self.removed@[i]@
                    != self.removed@[j]@ by {
                    if j == self.removed@.len() - 1 {
                        assert(old_tombs[i] == self.removed@[i]@);
                        assert(old_tombs[i] != self.removed@[j]@);
                    }
                }
                assert(self.wf());
                assert(self.removed_ids()[self.removed@.len() - 1] == id@);
            }
        }
        let ghost tombs = self.removed_ids();
        proof {
            assert(id_removed(tombs, id@));
        }
        if self.removed.len() > MAX_REMOVED_BEFORE_REBUILD {
            self.rebuild();
            proof {
                lemma_filter_live_hides(old(self).records(), tombs, id@);
            }
        }
    }

    /// Rebuilds the index in place: only records whose id is not
    /// tombstoned survive, in their original relative order, and the
    /// tombstone set is emptied. The established dimension is kept.
    pub fn rebuild(&mut self)
        requires
            old(self).wf(),
        ensures
            final(self).wf(),
            final(self).dim == old(self).dim,
            final(self).records() == filter_live(old(self).records(), old(self).removed_ids()),
            final(self).removed_ids() =~= Seq::<Seq<char>>::empty(),
    {
        let ghost all = self.records();
        let ghost tombs = self.removed_ids();
        let mut survivors: Vec<VectorRecord> = Vec::new();
        let mut i: usize = 0;
        while i < self.vectors.len()
            invariant
                i <= self.vectors@.len(),
                all == self.records(),
                tombs == self.removed_ids(),
                survivors@.map_values(|r: VectorRecord| r@) == filter_live(
                    all.take(i as int),
                    tombs,
                ),
            decreases self.vectors@.len() - i,
        {
            let ghost prefix = survivors@.map_values(|r: VectorRecord| r@);
            if !Self::contains_id(&self.removed, &self.vectors[i].id) {
                let rec = self.vectors[i].clone();
                survivors.push(rec);
                proof {
                    assert(survivors@.map_values(|r: VectorRecord| r@) =~= prefix.push(
                        all[i as int],
                    ));
                }
            }
            proof {
                assert(all.take(i + 1).drop_last() =~= all.take(i as int));
                assert(all.take(i + 1).last() == all[i as int]);
            }
            i += 1;
        }
        proof {
            assert(all.take(all.len() as int) =~= all);
            lemma_filter_live_members(all, tombs);
        }
        self.vectors = survivors;
        self.removed = Vec::new();
        proof {
            assert(self.records() == filter_live(all, tombs));
            if let Some(d) = self.dim {
                assert forall|k: int|
                    0 <= k < self.vectors@.len() implies self.vectors@[k].vector@.len() == d by {
                    assert(self.records()[k] == self.vectors@[k]@);
                    let j = choose|j: int| 0 <= j < all.len() && self.records()[k] == all[j];
                    assert(all[j] == old(self).vectors@[j]@);
                }
            }
        }
    }
}

/// Capped distances are never negative.
proof fn lemma_dist64_nonneg(a: Seq<i32>, b: Seq<i32>)
    ensures
        dist64(a, b) >= 0,
{
    lemma_sq_dist_upto_nonneg(a, b, shared_len(a, b));
}

/// If the first candidate is live, it heads the reported results.
proof fn lemma_results_first_live(
    recs: Seq<RecordModel>,
    removed: Seq<Seq<char>>,
    q: Seq<i32>,
    cands: Seq<int>,
)
    requires
        cands.len() > 0,
        !id_removed(removed, recs[cands[0]].id),
    ensures
        results_of(recs, removed, q, cands).len() > 0,
        results_of(recs, removed, q, cands)[0] == neighbor_of(recs, q, cands[0]),
    decreases cands.len(),
{
    let rest = results_of(recs, removed, q, cands.drop_last());
    let f = results_of(recs, removed, q, cands);
    if cands.len() == 1 {
        assert(cands.drop_last().len() == 0);
        assert(rest =~= Seq::<NeighborModel>::empty());
        assert(cands.last() == cands[0]);
        assert(f == rest.push(neighbor_of(recs, q, cands[0])));
        assert(f[0] == neighbor_of(recs, q, cands[0]));
    } else {
        assert(cands.drop_last()[0] == cands[0]);
        lemma_results_first_live(recs, removed, q, cands.drop_last());
        assert(rest[0] == neighbor_of(recs, q, cands[0]));
        if id_removed(removed, recs[cands.last()].id) {
            assert(f == rest);
        } else {
            assert(f == rest.push(neighbor_of(recs, q, cands.last())));
            assert(f[0] == rest[0]);
        }
    }
}

/// Every reported hit stems from a live candidate.
proof fn lemma_results_structure(
    recs: Seq<RecordModel>,
    removed: Seq<Seq<char>>,
    q: Seq<i32>,
    cands: Seq<int>,
)
    ensures
        forall|k: int|
            0 <= k < results_of(recs, removed, q, cands).len() ==> exists|j: int|
                0 <= j < cands.len() && #[trigger] results_of(recs, removed, q, cands)[k]
                    == neighbor_of(recs, q, cands[j]) && !id_removed(removed, recs[cands[j]].id),
    decreases cands.len(),
{
    if cands.len() > 0 {
        lemma_results_structure(recs, removed, q, cands.drop_last());
        let rest = results_of(recs, removed, q, cands.drop_last());
        let f = results_of(recs, removed, q, cands);
        assert forall|k: int| 0 <= k < f.len() implies exists|j: int|
            0 <= j < cands.len() && #[trigger] f[k] == neighbor_of(recs, q, cands[j])
                && !id_removed(removed, recs[cands[j]].id) by {
            if k < rest.len() {
                assert(f[k] == rest[k]);
                let j = choose|j: int|
                    0 <= j < cands.drop_last().len() && rest[k] == neighbor_of(
                        recs,
                        q,
                        cands.drop_last()[j],
                    ) && !id_removed(removed, recs[cands.drop_last()[j]].id);
                assert(cands.drop_last()[j] == cands[j]);
                assert(f[k] == neighbor_of(recs, q, cands[j]));
            } else {
                assert(!id_removed(removed, recs[cands.last()].id));
                assert(f[k] == neighbor_of(recs, q, cands[cands.len() - 1]));
            }
        }
    }
}

/// An inserted record whose vector equals the query, with no earlier
/// record at distance zero and no tombstone on its id, is ranked first by
/// a search for that vector, at reported distance zero.
pub proof fn lemma_exact_match_ranks_first(
    recs: Seq<RecordModel>,
    removed: Seq<Seq<char>>,
    q: Seq<i32>,
    p: int,
)
    requires
        0 <= p < recs.len(),
        recs[p].vector == q,
        forall|p2: int| 0 <= p2 < p ==> dist64(#[trigger] recs[p2].vector, q) != 0,
        !id_removed(removed, recs[p].id),
    ensures
        search_results(recs, removed, q).len() > 0,
        search_results(recs, removed, q)[0] == (NeighborModel {
            id: recs[p].id,
            index: p,
            distance: 0,
        }),
{
    let n = recs.len() as int;
    let rk = ranking(recs, q);
    lemma_sq_dist_self_zero(recs[p].vector, q, shared_len(recs[p].vector, q));
    assert(dist64(recs[p].vector, q) == 0);
    lemma_ranking_upto_props(recs, q, n);
    assert(rk.contains(p));
    let m = choose|m: int| 0 <= m < rk.len() && rk[m] == p;
    if m > 0 {
        let p0 = rk[0];
        assert(precedes(recs, q, p0, p));
        lemma_dist64_nonneg(recs[p0].vector, q);
        assert(false);
    }
    assert(rk[0] == p);
    let cands = candidates(recs, q);
    assert(candidate_count(n) >= 1);
    assert(cands[0] == p);
    lemma_results_first_live(recs, removed, q, cands);
    assert(neighbor_of(recs, q, p) == NeighborModel { id: recs[p].id, index: p, distance: 0 });
}

/// Once an id is hidden (tombstoned, or absent from the records), no
/// search on that state returns it.
pub proof fn lemma_hidden_id_never_returned(
    recs: Seq<RecordModel>,
    removed: Seq<Seq<char>>,
    q: Seq<i32>,
    id: Seq<char>,
)
    requires
        id_hidden(recs, removed, id),
    ensures
        forall|k: int|
            0 <= k < search_results(recs, removed, q).len() ==> #[trigger] search_results(
                recs,
                removed,
                q,
            )[k].id != id,
{
    let n = recs.len() as int;
    let cands = candidates(recs, q);
    lemma_ranking_upto_props(recs, q, n);
    lemma_results_structure(recs, removed, q, cands);
    let f = search_results(recs, removed, q);
    assert forall|k: int| 0 <= k < f.len() implies #[trigger] f[k].id != id by {
        let j = choose|j: int|
            0 <= j < cands.len() && #[trigger] f[k] == neighbor_of(recs, q, cands[j])
                && !id_removed(removed, recs[cands[j]].id);
        assert(ranking(recs, q).contains(cands[j]));
        assert(0 <= cands[j] < n);
        if id_removed(removed, id) {
            assert(recs[cands[j]].id != id);
        }
    }
}

/// How many records of `recs` are tombstoned.
pub open spec fn dead_count(recs: Seq<RecordModel>, removed: Seq<Seq<char>>) -> int
    decreases recs.len(),
{
    if recs.len() == 0 {
        0
    } else {
        dead_count(recs.drop_last(), removed) + if id_removed(removed, recs.last().id) {
            1int
        } else {
            0int
        }
    }
}

/// Whether some record of `recs` carries `id`.
pub open spec fn has_id(recs: Seq<RecordModel>, id: Seq<char>) -> bool {
    exists|i: int| 0 <= i < recs.len() && recs[i].id == id
}

/// How many of the tombstoned ids are carried by some record.
pub open spec fn present_count(removed: Seq<Seq<char>>, recs: Seq<RecordModel>) -> int
    decreases removed.len(),
{
    if removed.len() == 0 {
        0
    } else {
        present_count(removed.drop_last(), recs) + if has_id(recs, removed.last()) {
            1int
        } else {
            0int
        }
    }
}

proof fn lemma_has_id_push(recs: Seq<RecordModel>, rec: RecordModel, x: Seq<char>)
    ensures
        has_id(recs.push(rec), x) == (has_id(recs, x) || rec.id == x),
{
    let pushed = recs.push(rec);
    if has_id(pushed, x) {
        let i = choose|i: int| 0 <= i < pushed.len() && pushed[i].id == x;
        if i < recs.len() {
            assert(recs[i].id == x);
        } else {
            assert(pushed[i] == rec);
        }
    }
    if has_id(recs, x) {
        let i = choose|i: int| 0 <= i < recs.len() && recs[i].id == x;
        assert(pushed[i].id == x);
    }
    if rec.id == x {
        assert(pushed[recs.len() as int].id == x);
    }
}

proof fn lemma_id_removed_drop(removed: Seq<Seq<char>>, x: Seq<char>)
    requires
        removed.len() > 0,
    ensures
        id_removed(removed, x) == (id_removed(removed.drop_last(), x) || removed.last() == x),
{
    let rest = removed.drop_last();
    if id_removed(removed, x) {
        let i = choose|i: int| 0 <= i < removed.len() && removed[i] == x;
        if i < rest.len() {
            assert(rest[i] == x);
        }
    }
    if id_removed(rest, x) {
        let i = choose|i: int| 0 <= i < rest.len() && rest[i] == x;
        assert(removed[i] == x);
    }
    if removed.last() == x {
        assert(removed[removed.len() - 1] == x);
    }
}

proof fn lemma_present_count_empty(removed: Seq<Seq<char>>)
    ensures
        present_count(removed, Seq::empty()) == 0,
    decreases removed.len(),
{
    if removed.len() > 0 {
        lemma_present_count_empty(removed.drop_last());
    }
}

proof fn lemma_present_count_push(removed: Seq<Seq<char>>, recs: Seq<RecordModel>, rec: RecordModel)
    requires
        forall|i: int, j: int| 0 <= i < j < removed.len() ==> removed[i] != removed[j],
    ensures
        present_count(removed, recs.push(rec)) == present_count(removed, recs) + if id_removed(
            removed,
            rec.id,
        ) && !has_id(recs, rec.id) {
            1int
        } else {
            0int
        },
    decreases removed.len(),
{
    if removed.len() > 0 {
        let removed0 = removed.drop_last();
        assert(forall|i: int, j: int|
            0 <= i < j < removed0.len() ==> removed0[i] != removed0[j]) by {
            assert(forall|i: int| 0 <= i < removed0.len() ==> removed0[i] == removed[i]);
        }
        lemma_present_count_push(removed0, recs, rec);
        lemma_has_id_push(recs, rec, removed.last());
        lemma_id_removed_drop(removed, rec.id);
        if removed.last() == rec.id {
            assert(!id_removed(removed0, rec.id)) by {
                if id_removed(removed0, rec.id) {
                    let i = choose|i: int| 0 <= i < removed0.len() && removed0[i] == rec.id;
                    assert(removed[i] == removed[removed.len() - 1]);
                }
            }
        }
    } else {
        lemma_present_count_empty(removed);
    }
}

proof fn lemma_dead_eq_present(recs: Seq<RecordModel>, removed: Seq<Seq<char>>)
    requires
        forall|i: int, j: int| 0 <= i < j < recs.len() ==> recs[i].id != recs[j].id,
        forall|i: int, j: int| 0 <= i < j < removed.len() ==> removed[i] != removed[j],
    ensures
        dead_count(recs, removed) == present_count(removed, recs),
    decreases recs.len(),
{
    if recs.len() == 0 {
        lemma_present_count_empty(removed);
        assert(recs =~= Seq::<RecordModel>::empty());
    } else {
        let recs0 = recs.drop_last();
        assert(forall|i: int, j: int| 0 <= i < j < recs0.len() ==> recs0[i].id != recs0[j].id) by {
            assert(forall|i: int| 0 <= i < recs0.len() ==> recs0[i] == recs[i]);
        }
        lemma_dead_eq_present(recs0, removed);
        lemma_present_count_push(removed, recs0, recs.last());
        assert(recs0.push(recs.last()) =~= recs);
        assert(!has_id(recs0, recs.last().id)) by {
            if has_id(recs0, recs.last().id) {
                let i = choose|i: int| 0 <= i < recs0.len() && recs0[i].id == recs.last().id;
                assert(recs[i].id == recs[recs.len() - 1].id);
            }
        }
    }
}

proof fn lemma_filter_live_len(recs: Seq<RecordModel>, removed: Seq<Seq<char>>)
    ensures
        filter_live(recs, removed).len() + dead_count(recs, removed) == recs.len(),
    decreases recs.len(),
{
    if recs.len() > 0 {
        lemma_filter_live_len(recs.drop_last(), removed);
    }
}

/// What survives a compaction: the tombstone set is emptied by the
/// rebuild itself, and, when record ids are distinct, the surviving
/// record count is the record count minus the number of distinct
/// tombstoned ids that were carried by some record.
pub proof fn lemma_purge_survivor_count(recs: Seq<RecordModel>, removed: Seq<Seq<char>>)
    requires
        forall|i: int, j: int| 0 <= i < j < recs.len() ==> recs[i].id != recs[j].id,
        forall|i: int, j: int| 0 <= i < j < removed.len() ==> removed[i] != removed[j],
    ensures
        filter_live(recs, removed).len() == recs.len() - present_count(removed, recs),
{
    lemma_filter_live_len(recs, removed);
    lemma_dead_eq_present(recs, removed);
}

/// Every record of the filtered sequence is one of the original records.
proof fn lemma_filter_live_members(recs: Seq<RecordModel>, removed: Seq<Seq<char>>)
    ensures
        forall|i: int|
            0 <= i < filter_live(recs, removed).len() ==> exists|j: int|
                0 <= j < recs.len() && #[trigger] filter_live(recs, removed)[i] == recs[j],
    decreases recs.len(),
{
    if recs.len() > 0 {
        lemma_filter_live_members(recs.drop_last(), removed);
        let rest = filter_live(recs.drop_last(), removed);
        let f = filter_live(recs, removed);
        assert forall|i: int|
            0 <= i < f.len() implies exists|j: int|
                0 <= j < recs.len() && #[trigger] f[i] == recs[j] by {
            if i < rest.len() {
                assert(f[i] == rest[i]);
                let j = choose|j: int|
                    0 <= j < recs.drop_last().len() && rest[i] == recs.drop_last()[j];
                assert(recs.drop_last()[j] == recs[j]);
            } else {
                assert(f[i] == recs.last());
                assert(recs.last() == recs[recs.len() - 1]);
            }
        }
    }
}

/// The live positions among the first `n`, in increasing order.
pub open spec fn live_upto(recs: Seq<RecordModel>, removed: Seq<Seq<char>>, n: int) -> Seq<int>
    decreases n,
{
    if n <= 0 {
        Seq::empty()
    } else {
        live_upto(recs, removed, n - 1) + if id_removed(removed, recs[n - 1].id) {
            Seq::empty()
        } else {
            seq![n - 1]
        }
    }
}

/// Where the live record at old position `p` stands after a rebuild: the
/// number of live positions before it.
pub open spec fn new_pos(recs: Seq<RecordModel>, removed: Seq<Seq<char>>, p: int) -> int {
    live_upto(recs, removed, p).len() as int
}

/// A ranked position sequence carried over to the rebuilt index: dead
/// positions are dropped, live ones are renumbered.
pub open spec fn project_ranked(
    recs: Seq<RecordModel>,
    removed: Seq<Seq<char>>,
    s: Seq<int>,
) -> Seq<int>
    decreases s.len(),
{
    if s.len() == 0 {
        Seq::empty()
    } else {
        (if id_removed(removed, recs[s[0]].id) {
            Seq::empty()
        } else {
            seq![new_pos(recs, removed, s[0])]
        }) + project_ranked(recs, removed, s.drop_first())
    }
}

/// Basic facts about `live_upto`: its length, its contents, and where a
/// live position stands in it.
proof fn lemma_live_upto_props(recs: Seq<RecordModel>, removed: Seq<Seq<char>>, n: int)
    requires
        0 <= n <= recs.len(),
    ensures
        live_upto(recs, removed, n).len() <= n,
        forall|k: int|
            0 <= k < live_upto(recs, removed, n).len() ==> 0 <= #[trigger] live_upto(
                recs,
                removed,
                n,
            )[k] < n && !id_removed(removed, recs[live_upto(recs, removed, n)[k]].id),
        forall|p: int|
            0 <= p < n && !id_removed(removed, recs[p].id) ==> {
                &&& 0 <= new_pos(recs, removed, p) < live_upto(recs, removed, n).len()
                &&& live_upto(recs, removed, n)[new_pos(recs, removed, p)] == p
            },
    decreases n,
{
    if n > 0 {
        lemma_live_upto_props(recs, removed, n - 1);
        let l0 = live_upto(recs, removed, n - 1);
        let l = live_upto(recs, removed, n);
        assert forall|p: int|
            0 <= p < n && !id_removed(removed, recs[p].id) implies {
            &&& 0 <= new_pos(recs, removed, p) < l.len()
            &&& l[new_pos(recs, removed, p)] == p
        } by {
            if p < n - 1 {
                assert(l[new_pos(recs, removed, p)] == l0[new_pos(recs, removed, p)]);
            } else {
                assert(new_pos(recs, removed, p) == l0.len());
                assert(l[l0.len() as int] == p);
            }
        }
    }
}

/// Renumbering keeps the order of live positions.
proof fn lemma_new_pos_mono(
    recs: Seq<RecordModel>,
    removed: Seq<Seq<char>>,
    p1: int,
    p2: int,
)
    requires
        0 <= p1 < p2 <= recs.len(),
        !id_removed(removed, recs[p1].id),
    ensures
        new_pos(recs, removed, p1) < new_pos(recs, removed, p2),
    decreases p2,
{
    if p2 == p1 + 1 {
        assert(live_upto(recs, removed, p2) == live_upto(recs, removed, p1) + seq![p1]);
    } else {
        lemma_new_pos_mono(recs, removed, p1, p2 - 1);
        assert(live_upto(recs, removed, p2).len() >= live_upto(recs, removed, p2 - 1).len());
    }
}

/// The rebuilt record sequence holds, at a live record's new position,
/// that same record.
proof fn lemma_filter_live_at(recs: Seq<RecordModel>, removed: Seq<Seq<char>>, n: int)
    requires
        0 <= n <= recs.len(),
    ensures
        filter_live(recs.take(n), removed).len() == live_upto(recs, removed, n).len(),
        forall|k: int|
            0 <= k < live_upto(recs, removed, n).len() ==> #[trigger] filter_live(
                recs.take(n),
                removed,
            )[k] == recs[live_upto(recs, removed, n)[k]],
    decreases n,
{
    if n > 0 {
        lemma_filter_live_at(recs, removed, n - 1);
        assert(recs.take(n).drop_last() =~= recs.take(n - 1));
        assert(recs.take(n).last() == recs[n - 1]);
        let f0 = filter_live(recs.take(n - 1), removed);
        let f = filter_live(recs.take(n), removed);
        let l0 = live_upto(recs, removed, n - 1);
        let l = live_upto(recs, removed, n);
        if id_removed(removed, recs[n - 1].id) {
            assert(f == f0 && l == l0 + Seq::<int>::empty());
            assert(l =~= l0);
        } else {
            assert(f == f0.push(recs[n - 1]));
            assert forall|k: int| 0 <= k < l.len() implies #[trigger] f[k] == recs[l[k]] by {
                if k < l0.len() {
                    assert(l[k] == l0[k] && f[k] == f0[k]);
                } else {
                    assert(l[k] == n - 1);
                }
            }
        }
    }
}

/// Projecting a ranked sequence that a position precedes everywhere puts
/// the renumbered position in front.
proof fn lemma_project_insert_front(
    recs: Seq<RecordModel>,
    removed: Seq<Seq<char>>,
    q: Seq<i32>,
    s: Seq<int>,
    p: int,
)
    requires
        0 <= p < recs.len(),
        !id_removed(removed, recs[p].id),
        forall|j: int| 0 <= j < s.len() ==> 0 <= #[trigger] s[j] < recs.len() && s[j] != p,
        forall|j: int| 0 <= j < s.len() ==> precedes(recs, q, p, #[trigger] s[j]),
        forall|a: int, b: int|
            0 <= a < recs.len() && 0 <= b < recs.len() && !id_removed(removed, recs[a].id)
                && !id_removed(removed, recs[b].id) && a != b ==> (precedes(recs, q, a, b)
                <==> precedes(
                filter_live(recs, removed),
                q,
                new_pos(recs, removed, a),
                new_pos(recs, removed, b),
            )),
    ensures
        insert_ranked(
            filter_live(recs, removed),
            q,
            project_ranked(recs, removed, s),
            new_pos(recs, removed, p),
        ) == seq![new_pos(recs, removed, p)] + project_ranked(recs, removed, s),
    decreases s.len(),
{
    let recs2 = filter_live(recs, removed);
    let np = new_pos(recs, removed, p);
    let ps = project_ranked(recs, removed, s);
    if s.len() == 0 {
        assert(insert_ranked(recs2, q, ps, np) =~= seq![np] + ps);
    } else {
        let rest = s.drop_first();
        assert(forall|j: int|
            0 <= j < rest.len() ==> 0 <= #[trigger] rest[j] < recs.len() && rest[j] != p);
        assert(forall|j: int| 0 <= j < rest.len() ==> precedes(recs, q, p, #[trigger] rest[j]));
        lemma_project_insert_front(recs, removed, q, rest, p);
        if id_removed(removed, recs[s[0]].id) {
            assert(ps == project_ranked(recs, removed, rest));
        } else {
            assert(precedes(recs, q, p, s[0]));
            assert(!precedes(recs, q, s[0], p));
            assert(!precedes(recs2, q, new_pos(recs, removed, s[0]), np));
            assert(ps == seq![new_pos(recs, removed, s[0])] + project_ranked(recs, removed, rest));
            assert(ps[0] == new_pos(recs, removed, s[0]));
            assert(insert_ranked(recs2, q, ps, np) == seq![np] + ps);
        }
    }
}

/// Projecting commutes with inserting a live position into a ranked
/// sorted sequence.
proof fn lemma_project_insert(
    recs: Seq<RecordModel>,
    removed: Seq<Seq<char>>,
    q: Seq<i32>,
    s: Seq<int>,
    p: int,
)
    requires
        0 <= p < recs.len(),
        !id_removed(removed, recs[p].id),
        ranked_sorted(recs, q, s),
        forall|j: int| 0 <= j < s.len() ==> 0 <= #[trigger] s[j] < recs.len() && s[j] != p,
        forall|a: int, b: int|
            0 <= a < recs.len() && 0 <= b < recs.len() && !id_removed(removed, recs[a].id)
                && !id_removed(removed, recs[b].id) && a != b ==> (precedes(recs, q, a, b)
                <==> precedes(
                filter_live(recs, removed),
                q,
                new_pos(recs, removed, a),
                new_pos(recs, removed, b),
            )),
    ensures
        project_ranked(recs, removed, insert_ranked(recs, q, s, p)) == insert_ranked(
            filter_live(recs, removed),
            q,
            project_ranked(recs, removed, s),
            new_pos(recs, removed, p),
        ),
    decreases s.len(),
{
    let recs2 = filter_live(recs, removed);
    let np = new_pos(recs, removed, p);
    let ps = project_ranked(recs, removed, s);
    if s.len() == 0 {
        assert(insert_ranked(recs, q, s, p) == seq![p]);
        assert((seq![p]).drop_first() =~= Seq::<int>::empty());
        assert(project_ranked(recs, removed, Seq::<int>::empty()) == Seq::<int>::empty());
        assert(project_ranked(recs, removed, insert_ranked(recs, q, s, p)) =~= seq![np]);
        assert(insert_ranked(recs2, q, ps, np) =~= seq![np]);
    } else if precedes(recs, q, s[0], p) {
        let rest = s.drop_first();
        assert(forall|i: int, j: int|
            0 <= i < j < rest.len() ==> precedes(recs, q, rest[i], rest[j]));
        lemma_project_insert(recs, removed, q, rest, p);
        let t = insert_ranked(recs, q, s, p);
        assert(t == seq![s[0]] + insert_ranked(recs, q, rest, p));
        assert(t.drop_first() =~= insert_ranked(recs, q, rest, p));
        assert(t[0] == s[0]);
        if id_removed(removed, recs[s[0]].id) {
            assert(project_ranked(recs, removed, t) == project_ranked(
                recs,
                removed,
                insert_ranked(recs, q, rest, p),
            ));
            assert(ps == project_ranked(recs, removed, rest));
        } else {
            assert(project_ranked(recs, removed, t) == seq![new_pos(recs, removed, s[0])]
                + project_ranked(recs, removed, insert_ranked(recs, q, rest, p)));
            assert(ps == seq![new_pos(recs, removed, s[0])] + project_ranked(recs, removed, rest));
            assert(ps[0] == new_pos(recs, removed, s[0]));
            assert(precedes(recs2, q, new_pos(recs, removed, s[0]), np));
            assert(ps.drop_first() =~= project_ranked(recs, removed, rest));
            assert(insert_ranked(recs2, q, ps, np) == seq![ps[0]] + insert_ranked(
                recs2,
                q,
                ps.drop_first(),
                np,
            ));
        }
    } else {
        let t = insert_ranked(recs, q, s, p);
        assert(t == seq![p] + s);
        assert(t.drop_first() =~= s);
        assert(t[0] == p);
        assert(project_ranked(recs, removed, t) == seq![np] + ps);
        assert(p != s[0]);
        lemma_precedes_total(recs, q, s[0], p);
        assert forall|j: int| 0 <= j < s.len() implies precedes(recs, q, p, #[trigger] s[j]) by {
            if j > 0 {
                lemma_precedes_trans(recs, q, p, s[0], s[j]);
            }
        }
        lemma_project_insert_front(recs, removed, q, s, p);
    }
}

/// Projecting drops an inserted dead position.
proof fn lemma_project_insert_dead(
    recs: Seq<RecordModel>,
    removed: Seq<Seq<char>>,
    q: Seq<i32>,
    s: Seq<int>,
    p: int,
)
    requires
        0 <= p < recs.len(),
        id_removed(removed, recs[p].id),
        forall|j: int| 0 <= j < s.len() ==> 0 <= #[trigger] s[j] < recs.len(),
    ensures
        project_ranked(recs, removed, insert_ranked(recs, q, s, p)) == project_ranked(
            recs,
            removed,
            s,
        ),
    decreases s.len(),
{
    if s.len() == 0 {
        assert(insert_ranked(recs, q, s, p) == seq![p]);
        assert((seq![p]).drop_first() =~= Seq::<int>::empty());
        assert(project_ranked(recs, removed, Seq::<int>::empty()) == Seq::<int>::empty());
        assert(project_ranked(recs, removed, insert_ranked(recs, q, s, p)) =~= project_ranked(
            recs,
            removed,
            s,
        ));
    } else if precedes(recs, q, s[0], p) {
        let rest = s.drop_first();
        lemma_project_insert_dead(recs, removed, q, rest, p);
        let t = insert_ranked(recs, q, s, p);
        assert(t == seq![s[0]] + insert_ranked(recs, q, rest, p));
        assert(t.drop_first() =~= insert_ranked(recs, q, rest, p));
        assert(t[0] == s[0]);
    } else {
        let t = insert_ranked(recs, q, s, p);
        assert(t == seq![p] + s);
        assert(t.drop_first() =~= s);
        assert(t[0] == p);
    }
}

/// Ranking precedence carries over to the rebuilt index under the
/// renumbering of live positions.
proof fn lemma_precedes_preserved(
    recs: Seq<RecordModel>,
    removed: Seq<Seq<char>>,
    q: Seq<i32>,
    a: int,
    b: int,
)
    requires
        0 <= a < recs.len(),
        0 <= b < recs.len(),
        a != b,
        !id_removed(removed, recs[a].id),
        !id_removed(removed, recs[b].id),
    ensures
        precedes(recs, q, a, b) <==> precedes(
            filter_live(recs, removed),
            q,
            new_pos(recs, removed, a),
            new_pos(recs, removed, b),
        ),
{
    let n = recs.len() as int;
    lemma_filter_live_at(recs, removed, n);
    lemma_live_upto_props(recs, removed, n);
    assert(recs.take(n) =~= recs);
    let recs2 = filter_live(recs, removed);
    assert(recs2[new_pos(recs, removed, a)] == recs[a]);
    assert(recs2[new_pos(recs, removed, b)] == recs[b]);
    if a < b {
        lemma_new_pos_mono(recs, removed, a, b);
    } else {
        lemma_new_pos_mono(recs, removed, b, a);
    }
}

/// The ranking of the rebuilt index is the projection of the old
/// ranking: dead positions dropped, live ones renumbered.
proof fn lemma_project_ranking(
    recs: Seq<RecordModel>,
    removed: Seq<Seq<char>>,
    q: Seq<i32>,
    n: int,
)
    requires
        0 <= n <= recs.len(),
    ensures
        ranking_upto(filter_live(recs, removed), q, live_upto(recs, removed, n).len() as int)
            == project_ranked(recs, removed, ranking_upto(recs, q, n)),
    decreases n,
{
    let recs2 = filter_live(recs, removed);
    if n == 0 {
        assert(ranking_upto(recs, q, 0) == Seq::<int>::empty());
        assert(project_ranked(recs, removed, Seq::<int>::empty()) == Seq::<int>::empty());
        assert(live_upto(recs, removed, 0).len() == 0);
    } else {
        lemma_project_ranking(recs, removed, q, n - 1);
        let s = ranking_upto(recs, q, n - 1);
        lemma_ranking_upto_props(recs, q, n - 1);
        assert forall|a: int, b: int|
            0 <= a < recs.len() && 0 <= b < recs.len() && !id_removed(removed, recs[a].id)
                && !id_removed(removed, recs[b].id) && a != b implies (precedes(recs, q, a, b)
            <==> precedes(
            recs2,
            q,
            new_pos(recs, removed, a),
            new_pos(recs, removed, b),
        )) by {
            lemma_precedes_preserved(recs, removed, q, a, b);
        }
        assert forall|j: int|
            0 <= j < s.len() implies 0 <= #[trigger] s[j] < recs.len() && s[j] != n - 1 by {
            assert(s.contains(s[j]));
        }
        let l0len = live_upto(recs, removed, n - 1).len() as int;
        if id_removed(removed, recs[n - 1].id) {
            lemma_project_insert_dead(recs, removed, q, s, n - 1);
            assert(live_upto(recs, removed, n) =~= live_upto(recs, removed, n - 1));
        } else {
            lemma_project_insert(recs, removed, q, s, n - 1);
            assert(new_pos(recs, removed, n - 1) == l0len);
            assert(live_upto(recs, removed, n).len() == l0len + 1);
            assert(ranking_upto(recs2, q, l0len + 1) == insert_ranked(
                recs2,
                q,
                ranking_upto(recs2, q, l0len),
                l0len,
            ));
        }
    }
}

/// Projection distributes over concatenation.
proof fn lemma_project_add(
    recs: Seq<RecordModel>,
    removed: Seq<Seq<char>>,
    a: Seq<int>,
    b: Seq<int>,
)
    ensures
        project_ranked(recs, removed, a + b) == project_ranked(recs, removed, a) + project_ranked(
            recs,
            removed,
            b,
        ),
    decreases a.len(),
{
    if a.len() == 0 {
        assert(a + b =~= b);
        assert(project_ranked(recs, removed, a) == Seq::<int>::empty());
        assert(project_ranked(recs, removed, a) + project_ranked(recs, removed, b)
            =~= project_ranked(recs, removed, b));
    } else {
        lemma_project_add(recs, removed, a.drop_first(), b);
        assert((a + b).drop_first() =~= a.drop_first() + b);
        assert((a + b)[0] == a[0]);
        assert(project_ranked(recs, removed, a + b) =~= project_ranked(recs, removed, a)
            + project_ranked(recs, removed, b));
    }
}

/// Projecting a sequence of live positions renumbers it elementwise.
proof fn lemma_project_all_live(recs: Seq<RecordModel>, removed: Seq<Seq<char>>, s: Seq<int>)
    requires
        forall|j: int|
            0 <= j < s.len() ==> 0 <= #[trigger] s[j] < recs.len() && !id_removed(
                removed,
                recs[s[j]].id,
            ),
    ensures
        project_ranked(recs, removed, s).len() == s.len(),
        forall|j: int|
            0 <= j < s.len() ==> #[trigger] project_ranked(recs, removed, s)[j] == new_pos(
                recs,
                removed,
                s[j],
            ),
    decreases s.len(),
{
    if s.len() > 0 {
        lemma_project_all_live(recs, removed, s.drop_first());
        let ps = project_ranked(recs, removed, s);
        assert(ps == seq![new_pos(recs, removed, s[0])] + project_ranked(
            recs,
            removed,
            s.drop_first(),
        ));
        assert forall|j: int|
            0 <= j < s.len() implies #[trigger] ps[j] == new_pos(recs, removed, s[j]) by {
            if j > 0 {
                assert(ps[j] == project_ranked(recs, removed, s.drop_first())[j - 1]);
                assert(s.drop_first()[j - 1] == s[j]);
            }
        }
    }
}

/// Over candidates that are all live, a search reports every candidate,
/// in order.
proof fn lemma_results_all_live(
    recs: Seq<RecordModel>,
    removed: Seq<Seq<char>>,
    q: Seq<i32>,
    cands: Seq<int>,
)
    requires
        forall|j: int|
            0 <= j < cands.len() ==> !id_removed(removed, recs[#[trigger] cands[j]].id),
    ensures
        results_of(recs, removed, q, cands).len() == cands.len(),
        forall|k: int|
            0 <= k < cands.len() ==> #[trigger] results_of(recs, removed, q, cands)[k]
                == neighbor_of(recs, q, cands[k]),
    decreases cands.len(),
{
    if cands.len() > 0 {
        assert(forall|j: int|
            0 <= j < cands.drop_last().len() ==> cands.drop_last()[j] == cands[j]);
        lemma_results_all_live(recs, removed, q, cands.drop_last());
        let f = results_of(recs, removed, q, cands);
        let rest = results_of(recs, removed, q, cands.drop_last());
        assert(!id_removed(removed, recs[cands[cands.len() - 1]].id));
        assert(f == rest.push(neighbor_of(recs, q, cands.last())));
        assert forall|k: int|
            0 <= k < cands.len() implies #[trigger] f[k] == neighbor_of(recs, q, cands[k]) by {
            if k < cands.len() - 1 {
                assert(f[k] == rest[k]);
                assert(cands.drop_last()[k] == cands[k]);
            }
        }
    }
}

/// Rebuilding does not change what a search reports, provided no
/// tombstoned record stood among the ranked candidates: the ids and
/// distances of the hits are unchanged; only their positional keys are
/// renumbered.
pub proof fn lemma_rebuild_preserves_search(
    recs: Seq<RecordModel>,
    removed: Seq<Seq<char>>,
    q: Seq<i32>,
)
    requires
        forall|j: int|
            0 <= j < candidates(recs, q).len() ==> !id_removed(
                removed,
                recs[#[trigger] candidates(recs, q)[j]].id,
            ),
    ensures
        search_results(filter_live(recs, removed), Seq::empty(), q).len() == search_results(
            recs,
            removed,
            q,
        ).len(),
        forall|k: int|
            0 <= k < search_results(recs, removed, q).len() ==> {
                &&& #[trigger] search_results(filter_live(recs, removed), Seq::empty(), q)[k].id
                    == search_results(recs, removed, q)[k].id
                &&& search_results(filter_live(recs, removed), Seq::empty(), q)[k].distance
                    == search_results(recs, removed, q)[k].distance
            },
{
    let n = recs.len() as int;
    let recs2 = filter_live(recs, removed);
    let none: Seq<Seq<char>> = Seq::empty();
    let rk = ranking(recs, q);
    let m = candidate_count(n);
    let c = candidates(recs, q);
    lemma_ranking_upto_props(recs, q, n);
    lemma_filter_live_at(recs, removed, n);
    lemma_live_upto_props(recs, removed, n);
    assert(recs.take(n) =~= recs);
    let n2 = recs2.len() as int;
    assert(n2 == live_upto(recs, removed, n).len());
    lemma_ranking_upto_props(recs2, q, n2);
    lemma_project_ranking(recs, removed, q, n);
    assert(ranking(recs2, q) == project_ranked(recs, removed, rk));
    assert forall|j: int|
        0 <= j < c.len() implies 0 <= #[trigger] c[j] < recs.len() && !id_removed(
        removed,
        recs[c[j]].id,
    ) by {
        assert(c[j] == rk[j]);
        assert(rk.contains(rk[j]));
    }
    assert(rk =~= c + rk.skip(m));
    lemma_project_add(recs, removed, c, rk.skip(m));
    lemma_project_all_live(recs, removed, c);
    let pc = project_ranked(recs, removed, c);
    assert(pc.len() == m);
    assert(ranking(recs2, q).len() == n2);
    assert(n2 >= m);
    assert(candidate_count(n2) == m);
    let c2 = candidates(recs2, q);
    assert(c2 =~= pc) by {
        assert(ranking(recs2, q) == pc + project_ranked(recs, removed, rk.skip(m)));
        assert(c2 == ranking(recs2, q).take(m));
        assert forall|k: int| 0 <= k < m implies ranking(recs2, q)[k] == pc[k] by {}
    }
    lemma_results_all_live(recs, removed, q, c);
    lemma_ranking_upto_props(recs2, q, n2);
    assert forall|j: int|
        0 <= j < c2.len() implies !id_removed(none, recs2[#[trigger] c2[j]].id) by {}
    lemma_results_all_live(recs2, none, q, c2);
    let before = search_results(recs, removed, q);
    let after = search_results(recs2, none, q);
    assert(before.len() == m && after.len() == m);
    assert forall|k: int|
        0 <= k < before.len() implies {
        &&& #[trigger] after[k].id == before[k].id
        &&& after[k].distance == before[k].distance
    } by {
        assert(before[k] == neighbor_of(recs, q, c[k]));
        assert(after[k] == neighbor_of(recs2, q, c2[k]));
        assert(c2[k] == new_pos(recs, removed, c[k]));
        assert(recs2[new_pos(recs, removed, c[k])] == recs[c[k]]);
    }
}

/// A record hidden by the tombstones it was filtered against stays absent
/// from the filtered sequence.
proof fn lemma_filter_live_hides(recs: Seq<RecordModel>, removed: Seq<Seq<char>>, id: Seq<char>)
    requires
        id_removed(removed, id),
    ensures
        forall|i: int| 0 <= i < filter_live(recs, removed).len() ==> filter_live(recs, removed)[i].id != id,
    decreases recs.len(),
{
    if recs.len() > 0 {
        lemma_filter_live_hides(recs.drop_last(), removed, id);
        let rest = filter_live(recs.drop_last(), removed);
        let f = filter_live(recs, removed);
        if !id_removed(removed, recs.last().id) {
            assert(recs.last().id != id);
            assert(f == rest.push(recs.last()));
            assert forall|i: int| 0 <= i < f.len() implies f[i].id != id by {
                if i < rest.len() {
                    assert(f[i] == rest[i]);
                } else {
                    assert(f[i] == recs.last());
                }
            }
        }
    }
}

} // verus!
