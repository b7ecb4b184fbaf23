//! The visibility evaluator: for each query cell, the candidate cells it sees.

use vstd::prelude::*;
use vstd::std_specs::hash::group_hash_axioms;
use rayon::iter::{IntoParallelRefIterator, ParallelIterator};
use std::collections::HashMap;
use crate::error::VisibilityError;
use crate::grid::{GridView, OccupancyGrid};
use crate::line::Coordinate;
use crate::sight::{is_visible, visible};

verus! {

/// The candidates that `p` sees, in the order of the candidate list. Where `p`
/// is itself a candidate it is among them.
pub open spec fn visible_targets(p: Coordinate, candidates: Seq<Coordinate>, g: GridView) -> Seq<
    Coordinate,
> {
    candidates.filter(|c: Coordinate| visible(p, c, g))
}

/// Every point of the sequence addresses a cell of the grid.
pub open spec fn all_in_bounds(points: Seq<Coordinate>, g: GridView) -> bool {
    forall|i: int| 0 <= i < points.len() ==> g.in_bounds(#[trigger] points[i])
}

/// The visibility map of a set of queries: one entry for each distinct query
/// cell, holding the candidates that the cell sees.
pub open spec fn visibility_map(
    queries: Seq<Coordinate>,
    candidates: Seq<Coordinate>,
    g: GridView,
) -> Map<Coordinate, Seq<Coordinate>> {
    Map::new(
        |p: Coordinate| queries.contains(p),
        |p: Coordinate| visible_targets(p, candidates, g),
    )
}

/// `at` gives, for each item of `sub`, a place in `full` that holds the same
/// item, later items at later places.
pub open spec fn embeds(sub: Seq<Coordinate>, full: Seq<Coordinate>, at: Seq<int>) -> bool {
    &&& at.len() == sub.len()
    &&& forall|i: int|
        0 <= i < at.len() ==> 0 <= #[trigger] at[i] < full.len() && full[at[i]] == sub[i]
    &&& forall|i: int, j: int| 0 <= i < j < at.len() ==> at[i] < at[j]
}

/// `sub` can be had from `full` by leaving items out, the rest keeping their order.
pub open spec fn is_subsequence(sub: Seq<Coordinate>, full: Seq<Coordinate>) -> bool {
    exists|at: Seq<int>| embeds(sub, full, at)
}

/// Filtering leaves items out and keeps the order of the rest.
pub proof fn lemma_filter_embeds(s: Seq<Coordinate>, keep: spec_fn(Coordinate) -> bool) -> (at:
    Seq<int>)
    ensures
        embeds(s.filter(keep), s, at),
    decreases s.len(),
{
    reveal(Seq::filter);
    if s.len() == 0 {
        Seq::empty()
    } else {
        let front = lemma_filter_embeds(s.drop_last(), keep);
        if keep(s.last()) {
            front.push(s.len() - 1)
        } else {
            front
        }
    }
}

/// The cells that a query sees form a subsequence of the candidates: none is
/// added and their order is kept.
pub proof fn law_targets_are_subsequence(p: Coordinate, candidates: Seq<Coordinate>, g: GridView)
    ensures
        is_subsequence(visible_targets(p, candidates, g), candidates),
{
    let at = lemma_filter_embeds(candidates, |c: Coordinate| visible(p, c, g));
    assert(embeds(visible_targets(p, candidates, g), candidates, at));
}

/// The visibility map has exactly one entry for each distinct query cell.
pub proof fn law_one_entry_per_distinct_query(
    queries: Seq<Coordinate>,
    candidates: Seq<Coordinate>,
    g: GridView,
)
    ensures
        visibility_map(queries, candidates, g).dom() == queries.to_set(),
        visibility_map(queries, candidates, g).dom().finite(),
        visibility_map(queries, candidates, g).dom().len() <= queries.len(),
        queries.no_duplicates() ==> visibility_map(queries, candidates, g).dom().len()
            == queries.len(),
{
    assert(visibility_map(queries, candidates, g).dom() =~= queries.to_set());
    vstd::seq_lib::seq_to_set_is_finite(queries);
    queries.lemma_cardinality_of_set();
    if queries.no_duplicates() {
        queries.unique_seq_to_set();
    }
}

/// The candidates that `p` sees, in the order of the candidate list.
pub fn visible_from(p: Coordinate, candidates: &Vec<Coordinate>, grid: &OccupancyGrid) -> (seen:
    Vec<Coordinate>)
    requires
        grid.wf(),
        grid@.in_bounds(p),
        all_in_bounds(candidates@, grid@),
    ensures
        seen@ == visible_targets(p, candidates@, grid@),
{
    let ghost keep = |c: Coordinate| visible(p, c, grid@);
    let mut seen: Vec<Coordinate> = Vec::new();
    let mut i: usize = 0;
    assert(candidates@.take(0).filter(keep) =~= Seq::<Coordinate>::empty()) by {
        reveal(Seq::filter);
    }
    while i < candidates.len()
        invariant
            grid.wf(),
            grid@.in_bounds(p),
            all_in_bounds(candidates@, grid@),
            i <= candidates.len(),
            keep == |c: Coordinate| visible(p, c, grid@),
            seen@ == candidates@.take(i as int).filter(keep),
        decreases candidates.len() - i,
    {
        let c = candidates[i];
        proof {
            assert(candidates@.take(i + 1) =~= candidates@.take(i as int).push(c));
            candidates@.take(i as int).lemma_filter_push(c, keep);
        }
        if is_visible(p, c, grid) {
            seen.push(c);
        }
        i += 1;
    }
    assert(candidates@.take(candidates.len() as int) =~= candidates@);
    seen
}

/// A copy of a list of cells.
pub(crate) fn copy_cells(cells: &Vec<Coordinate>) -> (copy: Vec<Coordinate>)
    ensures
        copy@ == cells@,
{
    let mut copy: Vec<Coordinate> = Vec::new();
    let mut i: usize = 0;
    while i < cells.len()
        invariant
            i <= cells.len(),
            copy@ == cells@.take(i as int),
        decreases cells.len() - i,
    {
        copy.push(cells[i]);
        assert(copy@ =~= cells@.take(i + 1));
        i += 1;
    }
    assert(cells@.take(cells.len() as int) =~= cells@);
    copy
}

/// On a rayon thread pool of `workers` threads, built for this call, hands
/// each query to [`visible_from`] through `par_iter`, `map` and `collect`.
/// Where `workers` is 0 rayon chooses the number of threads. Returns `None`
/// where rayon could not build the pool. Assumed: the collected vector holds
/// the result for each query at the place of that query, whichever thread
/// computed it.
#[verifier::external_body]
fn visible_lists(
    queries: &Vec<Coordinate>,
    candidates: &Vec<Coordinate>,
    grid: &OccupancyGrid,
    workers: usize,
) -> (r: Option<Vec<Vec<Coordinate>>>)
    requires
        grid.wf(),
        all_in_bounds(queries@, grid@),
        all_in_bounds(candidates@, grid@),
    ensures
        r matches Some(lists) ==> lists_for(lists@, queries@, candidates@, grid@),
{
    let pool = rayon::ThreadPoolBuilder::new().num_threads(workers).build().ok()?;
    Some(pool.install(|| queries.par_iter().map(|q| visible_from(*q, candidates, grid)).collect()))
}

/// The lists hold, at the place of each query, the candidates that it sees.
pub open spec fn lists_for(
    lists: Seq<Vec<Coordinate>>,
    queries: Seq<Coordinate>,
    candidates: Seq<Coordinate>,
    g: GridView,
) -> bool {
    &&& lists.len() == queries.len()
    &&& forall|i: int|
        0 <= i < queries.len() ==> (#[trigger] lists[i])@ == visible_targets(
            queries[i],
            candidates,
            g,
        )
}

/// For each query in turn the candidates that it sees.
fn visible_lists_in_turn(
    queries: &Vec<Coordinate>,
    candidates: &Vec<Coordinate>,
    grid: &OccupancyGrid,
) -> (lists: Vec<Vec<Coordinate>>)
    requires
        grid.wf(),
        all_in_bounds(queries@, grid@),
        all_in_bounds(candidates@, grid@),
    ensures
        lists_for(lists@, queries@, candidates@, grid@),
{
    let mut lists: Vec<Vec<Coordinate>> = Vec::new();
    let mut i: usize = 0;
    while i < queries.len()
        invariant
            grid.wf(),
            all_in_bounds(queries@, grid@),
            all_in_bounds(candidates@, grid@),
            i <= queries.len(),
            lists_for(lists@, queries@.take(i as int), candidates@, grid@),
        decreases queries.len() - i,
    {
        lists.push(visible_from(queries[i], candidates, grid));
        i += 1;
    }
    assert(queries@.take(queries.len() as int) =~= queries@);
    lists
}

/// The number under which a cell is hashed: its two coordinates, each counted
/// from the least `i32`, side by side in 64 bits.
pub open spec fn cell_code(c: Coordinate) -> u64 {
    ((c.0 - i32::MIN) * 0x1_0000_0000 + (c.1 - i32::MIN)) as u64
}

/// Different cells are hashed under different numbers.
pub proof fn lemma_cell_code_injective(c: Coordinate, d: Coordinate)
    ensures
        cell_code(c) == cell_code(d) ==> c == d,
{
}

/// The number under which a cell is hashed.
fn code_of(c: Coordinate) -> (code: u64)
    ensures
        code == cell_code(c),
{
    let x: u64 = (c.0 as i64 - i32::MIN as i64) as u64;
    let y: u64 = (c.1 as i64 - i32::MIN as i64) as u64;
    x * 0x1_0000_0000 + y
}

/// A mapping from query cells to the cells each of them sees. It holds one
/// entry for each key; a later insertion under a key replaces the earlier one.
/// The entries stand in the order in which their keys were first inserted; a
/// hash map from the number of each key to the place of its entry finds them.
#[derive(Clone, Debug)]
pub struct VisibilityMap {
    entries: Vec<(Coordinate, Vec<Coordinate>)>,
    places: HashMap<u64, usize>,
}

impl View for VisibilityMap {
    type V = Map<Coordinate, Seq<Coordinate>>;

    closed spec fn view(&self) -> Map<Coordinate, Seq<Coordinate>> {
        Map::new(
            |p: Coordinate| self.keys().contains(p),
            |p: Coordinate| self.lists()[self.keys().index_of(p)],
        )
    }
}

impl VisibilityMap {
    /// The keys, in the order in which they were first inserted.
    pub closed spec fn keys(&self) -> Seq<Coordinate> {
        Seq::new(self.entries@.len(), |i: int| self.entries@[i].0)
    }

    /// The list held under each key, in the order of [`Self::keys`].
    pub closed spec fn lists(&self) -> Seq<Seq<Coordinate>> {
        Seq::new(self.entries@.len(), |i: int| self.entries@[i].1@)
    }

    /// No key occurs twice, and the hash map holds the place of every key
    /// and nothing else.
    pub closed spec fn wf(&self) -> bool {
        &&& self.keys().no_duplicates()
        &&& forall|i: int|
            0 <= i < self.keys().len() ==> self.places@.contains_key(
                cell_code(#[trigger] self.keys()[i]),
            ) && self.places@[cell_code(self.keys()[i])] == i
        &&& forall|code: u64| #[trigger]
            self.places@.contains_key(code) ==> self.places@[code] < self.keys().len()
                && cell_code(self.keys()[self.places@[code] as int]) == code
    }

    /// How the keys and lists make up the mapping.
    pub proof fn lemma_entries(&self)
        requires
            self.wf(),
        ensures
            self.keys().no_duplicates(),
            self.lists().len() == self.keys().len(),
            self@.dom() == self.keys().to_set(),
            self@.dom().finite(),
            self@.dom().len() == self.keys().len(),
            forall|i: int|
                0 <= i < self.keys().len() ==> self@.contains_key(#[trigger] self.keys()[i])
                    && self@[self.keys()[i]] == self.lists()[i],
    {
        assert(self@.dom() =~= self.keys().to_set());
        vstd::seq_lib::seq_to_set_is_finite(self.keys());
        self.keys().unique_seq_to_set();
    }

    /// The empty mapping.
    pub fn new() -> (m: VisibilityMap)
        ensures
            m.wf(),
            m@ == Map::<Coordinate, Seq<Coordinate>>::empty(),
            m.keys() == Seq::<Coordinate>::empty(),
    {
        let m = VisibilityMap { entries: Vec::new(), places: HashMap::new() };
        assert(m@ =~= Map::<Coordinate, Seq<Coordinate>>::empty());
        assert(m.keys() =~= Seq::<Coordinate>::empty());
        m
    }

    /// Where the key `p` is held, if it is.
    fn position(&self, p: Coordinate) -> (at: Option<usize>)
        requires
            self.wf(),
        ensures
            match at {
                Some(i) => i < self.keys().len() && self.keys()[i as int] == p,
                None => !self.keys().contains(p),
            },
    {
        broadcast use group_hash_axioms;

        let code = code_of(p);
        match self.places.get(&code) {
            Some(place) => {
                proof {
                    lemma_cell_code_injective(self.keys()[*place as int], p);
                }
                Some(*place)
            },
            None => {
                proof {
                    if self.keys().contains(p) {
                        let at = self.keys().index_of(p);
                        assert(self.places@.contains_key(cell_code(self.keys()[at])));
                    }
                }
                None
            },
        }
    }

    /// Puts `list` under the key `p`, in place of what was held there.
    pub fn insert(&mut self, p: Coordinate, list: Vec<Coordinate>)
        requires
            old(self).wf(),
        ensures
            final(self).wf(),
            final(self)@ == old(self)@.insert(p, list@),
            final(self).keys() == if old(self).keys().contains(p) {
                old(self).keys()
            } else {
                old(self).keys().push(p)
            },
    {
        let ghost before = *self;
        match self.position(p) {
            Some(i) => {
                self.entries.set(i, (p, list));
                proof {
                    assert(self.keys() =~= before.keys());
                    assert(self.places@ == before.places@);
                    assert(self.lists() =~= before.lists().update(i as int, list@));
                    assert forall|q: Coordinate| self.keys().contains(q) implies self@[q]
                        == before@.insert(p, list@)[q] by {
                        let at = self.keys().index_of(q);
                        if q != p {
                            assert(at != i);
                        } else {
                            assert(at == i);
                        }
                    }
                    assert(self@ =~= before@.insert(p, list@));
                }
            },
            None => {
                let code = code_of(p);
                let place = self.entries.len();
                self.places.insert(code, place);
                self.entries.push((p, list));
                proof {
                    assert(self.keys() =~= before.keys().push(p));
                    assert forall|i: int| 0 <= i < self.keys().len() implies self.places@.contains_key(
                        cell_code(#[trigger] self.keys()[i]),
                    ) && self.places@[cell_code(self.keys()[i])] == i by {
                        if i < before.keys().len() {
                            assert(self.keys()[i] == before.keys()[i]);
                            lemma_cell_code_injective(before.keys()[i], p);
                        }
                    }
                    assert forall|c: u64| #[trigger] self.places@.contains_key(c) implies self.places@[c]
                        < self.keys().len() && cell_code(self.keys()[self.places@[c] as int])
                        == c by {
                        if c != code {
                            assert(before.places@.contains_key(c));
                            assert(self.keys()[before.places@[c] as int] == before.keys()[before.places@[c] as int]);
                        }
                    }
                    assert(self.lists() =~= before.lists().push(list@));
                    assert forall|q: Coordinate| self.keys().contains(q) implies self@[q]
                        == before@.insert(p, list@)[q] by {
                        let at = self.keys().index_of(q);
                        if q != p {
                            assert(at < before.keys().len());
                            assert(before.keys()[at] == q);
                            assert(before.keys().contains(q));
                            assert(before.keys().index_of(q) == at);
                        } else {
                            assert(at == before.keys().len());
                        }
                    }
                    assert forall|q: Coordinate|
                        before@.insert(p, list@).contains_key(q) implies self.keys().contains(
                        q,
                    ) by {
                        if q != p {
                            let at = before.keys().index_of(q);
                            assert(self.keys()[at] == q);
                        } else {
                            assert(self.keys()[before.keys().len() as int] == p);
                        }
                    }
                    assert(self@ =~= before@.insert(p, list@));
                }
            },
        }
    }

    /// Number of entries.
    pub fn len(&self) -> (n: usize)
        requires
            self.wf(),
        ensures
            n == self.keys().len(),
            n == self@.dom().len(),
    {
        proof {
            self.lemma_entries();
        }
        self.entries.len()
    }

    /// Whether an entry is held under `p`.
    pub fn contains_key(&self, p: Coordinate) -> (r: bool)
        requires
            self.wf(),
        ensures
            r == self@.contains_key(p),
    {
        self.position(p).is_some()
    }

    /// The list held under `p`, if there is one.
    pub fn get(&self, p: Coordinate) -> (r: Option<&Vec<Coordinate>>)
        requires
            self.wf(),
        ensures
            match r {
                Some(list) => self@.contains_key(p) && list@ == self@[p],
                None => !self@.contains_key(p),
            },
    {
        match self.position(p) {
            Some(i) => {
                assert(self.keys().index_of(p) == i);
                Some(&self.entries[i].1)
            },
            None => None,
        }
    }

    /// The `i`-th key in order of first insertion.
    pub fn key_at(&self, i: usize) -> (p: Coordinate)
        requires
            i < self.keys().len(),
        ensures
            p == self.keys()[i as int],
    {
        self.entries[i].0
    }

    /// The list held under the `i`-th key.
    pub fn list_at(&self, i: usize) -> (list: &Vec<Coordinate>)
        requires
            i < self.keys().len(),
        ensures
            list@ == self.lists()[i as int],
    {
        &self.entries[i].1
    }
}

/// Whether every point addresses a cell of the grid.
pub fn within_grid(points: &Vec<Coordinate>, grid: &OccupancyGrid) -> (ok: bool)
    ensures
        ok == all_in_bounds(points@, grid@),
{
    let mut i: usize = 0;
    while i < points.len()
        invariant
            i <= points.len(),
            forall|k: int| 0 <= k < i ==> grid@.in_bounds(#[trigger] points@[k]),
        decreases points.len() - i,
    {
        if !grid.contains(points[i]) {
            return false;
        }
        i += 1;
    }
    true
}

/// For each query cell the candidates that it sees, in the order of the
/// candidate list, computed on as many worker threads as rayon chooses. See
/// [`compute_visibility_with_workers`].
pub fn compute_visibility(
    queries: &Vec<Coordinate>,
    candidates: &Vec<Coordinate>,
    grid: &OccupancyGrid,
) -> (r: Result<VisibilityMap, VisibilityError>)
    requires
        grid.wf(),
    ensures
        r is Ok <==> all_in_bounds(queries@, grid@) && all_in_bounds(candidates@, grid@),
        r matches Ok(m) ==> m.wf() && m@ == visibility_map(queries@, candidates@, grid@),
        r matches Ok(m) ==> queries@.no_duplicates() ==> m.keys() == queries@,
        r matches Err(e) ==> e == VisibilityError::OutOfBoundsCoordinate,
{
    compute_visibility_with_workers(queries, candidates, grid, 0)
}

/// For each query cell the candidates that it sees, in the order of the
/// candidate list. The queries are shared out among `workers` threads, or
/// among as many as rayon chooses where `workers` is 0; where no thread pool
/// can be had they are worked on in turn. The result does not depend on it.
/// A query that occurs more than once has one entry. Fails when a query or a
/// candidate lies outside the grid.
pub fn compute_visibility_with_workers(
    queries: &Vec<Coordinate>,
    candidates: &Vec<Coordinate>,
    grid: &OccupancyGrid,
    workers: usize,
) -> (r: Result<VisibilityMap, VisibilityError>)
    requires
        grid.wf(),
    ensures
        r is Ok <==> all_in_bounds(queries@, grid@) && all_in_bounds(candidates@, grid@),
        r matches Ok(m) ==> m.wf() && m@ == visibility_map(queries@, candidates@, grid@),
        r matches Ok(m) ==> queries@.no_duplicates() ==> m.keys() == queries@,
        r matches Err(e) ==> e == VisibilityError::OutOfBoundsCoordinate,
{
    if !within_grid(queries, grid) || !within_grid(candidates, grid) {
        return Err(VisibilityError::OutOfBoundsCoordinate);
    }
    let lists = match visible_lists(queries, candidates, grid, workers) {
        Some(lists) => lists,
        None => visible_lists_in_turn(queries, candidates, grid),
    };
    let mut m = VisibilityMap::new();
    let mut i: usize = 0;
    assert(m@ =~= visibility_map(queries@.take(0), candidates@, grid@));
    while i < queries.len()
        invariant
            lists_for(lists@, queries@, candidates@, grid@),
            i <= queries.len(),
            m.wf(),
            queries@.no_duplicates() ==> m.keys() == queries@.take(i as int),
            m@ == visibility_map(queries@.take(i as int), candidates@, grid@),
        decreases queries.len() - i,
    {
        let q = queries[i];
        let seen = copy_cells(&lists[i]);
        let ghost before = m@;
        m.insert(q, seen);
        proof {
            if queries@.no_duplicates() {
                assert(!queries@.take(i as int).contains(q));
            }
            let next = visibility_map(queries@.take(i + 1), candidates@, grid@);
            assert(queries@.take(i + 1) =~= queries@.take(i as int).push(q));
            assert forall|p: Coordinate| next.contains_key(p) implies m@.contains_key(p) by {
                let at = queries@.take(i + 1).index_of(p);
                if at < i {
                    assert(queries@.take(i as int)[at] == p);
                }
            }
            assert forall|p: Coordinate| m@.contains_key(p) implies next.contains_key(p) by {
                if p == q {
                    assert(queries@.take(i + 1)[i as int] == q);
                } else {
                    let at = queries@.take(i as int).index_of(p);
                    assert(queries@.take(i + 1)[at] == p);
                }
            }
            assert(m@.dom() =~= next.dom());
            assert forall|p: Coordinate| m@.contains_key(p) implies m@[p] == next[p] by {
                if p != q {
                    assert(before.contains_key(p));
                }
            }
            assert(m@ =~= next);
        }
        i += 1;
    }
    assert(queries@.take(queries.len() as int) =~= queries@);
    Ok(m)
}

} // verus!
