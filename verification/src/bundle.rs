//! The result of a run: the visibility lists filed under the text of their
//! query cells, beside the blocked cells and all cells of the grid.

use vstd::prelude::*;
use crate::builder::{
    build_grid, grid_from_decoded, grid_of_raster, valid_target, LumaImage, Raster,
};
use crate::grid::{law_cells_partition, lemma_cell_at_in_bounds, GridView, OccupancyGrid};
use crate::keys::{coordinate_key, key_text, lemma_key_text_injective};
use crate::line::Coordinate;
use crate::error::VisibilityError;
use crate::visibility::{
    all_in_bounds, compute_visibility_with_workers, copy_cells, visibility_map, VisibilityMap,
};

verus! {

/// The label under which the blocked cells are filed.
pub open spec fn blocked_label() -> Seq<char> {
    "blocked"@
}

/// The label under which all cells of the grid are filed.
pub open spec fn all_label() -> Seq<char> {
    "all"@
}

/// The query cell whose list is filed under `label`.
pub open spec fn label_owner(vis: Map<Coordinate, Seq<Coordinate>>, label: Seq<char>) -> Coordinate {
    choose|p: Coordinate| vis.contains_key(p) && key_text(p) == label
}

/// What a result holds for a grid and a visibility map: each list of the map
/// under the text of its query cell, the blocked cells under `blocked` and
/// every cell under `all`, the last two in row-major order.
pub open spec fn bundle_map(g: GridView, vis: Map<Coordinate, Seq<Coordinate>>) -> Map<
    Seq<char>,
    Seq<Coordinate>,
> {
    Map::new(
        |label: Seq<char>|
            label == blocked_label() || label == all_label() || exists|p: Coordinate|
                vis.contains_key(p) && key_text(p) == label,
        |label: Seq<char>|
            if label == blocked_label() {
                g.blocked_cells()
            } else if label == all_label() {
                g.all_cells()
            } else {
                vis[label_owner(vis, label)]
            },
    )
}

/// The two reserved labels differ from each other and from the text of every cell.
pub proof fn lemma_labels_distinct(p: Coordinate)
    ensures
        blocked_label() != all_label(),
        key_text(p) != blocked_label(),
        key_text(p) != all_label(),
{
    reveal_strlit("blocked");
    reveal_strlit("all");
    lemma_key_text_injective(p, p);
    assert(blocked_label()[0] == 'b');
    assert(all_label()[0] == 'a');
}

/// `serde_json::Error`, why a value could not be written. Nothing is read
/// from it.
#[verifier::external_type_specification]
#[verifier::external_body]
pub struct ExJsonError(serde_json::Error);

/// The JSON text of a mapping from labels to lists of cells: one object with
/// a member for each label, each list an array of `[x, y]` pairs in the order
/// of the list.
pub uninterp spec fn json_text(content: Map<Seq<char>, Seq<Coordinate>>) -> Seq<char>;

/// A flat mapping from labels to lists of cells.
///
/// The entries stand in a vector, in the order in which [`assemble`] adds
/// them, each in constant time: vstd gives no model to a std map keyed by
/// text, so nothing could be proved of one. Only [`Self::get`] searches the
/// entries.
#[derive(Clone, Debug)]
pub struct ResultBundle {
    entries: Vec<(String, Vec<Coordinate>)>,
}

impl View for ResultBundle {
    type V = Map<Seq<char>, Seq<Coordinate>>;

    closed spec fn view(&self) -> Map<Seq<char>, Seq<Coordinate>> {
        Map::new(
            |label: Seq<char>| self.labels().contains(label),
            |label: Seq<char>| self.lists()[self.labels().index_of(label)],
        )
    }
}

impl ResultBundle {
    /// The labels, in the order in which the entries are held.
    pub closed spec fn labels(&self) -> Seq<Seq<char>> {
        Seq::new(self.entries@.len(), |i: int| self.entries@[i].0@)
    }

    /// The list held under each label, in the order of [`Self::labels`].
    pub closed spec fn lists(&self) -> Seq<Seq<Coordinate>> {
        Seq::new(self.entries@.len(), |i: int| self.entries@[i].1@)
    }

    /// No label occurs twice.
    pub closed spec fn wf(&self) -> bool {
        self.labels().no_duplicates()
    }

    /// How the labels and lists make up the mapping.
    pub proof fn lemma_entries(&self)
        requires
            self.wf(),
        ensures
            self.labels().no_duplicates(),
            self.lists().len() == self.labels().len(),
            self@.dom() == self.labels().to_set(),
            self@.dom().finite(),
            self@.dom().len() == self.labels().len(),
            forall|i: int|
                0 <= i < self.labels().len() ==> self@.contains_key(#[trigger] self.labels()[i])
                    && self@[self.labels()[i]] == self.lists()[i],
    {
        assert(self@.dom() =~= self.labels().to_set());
        vstd::seq_lib::seq_to_set_is_finite(self.labels());
        self.labels().unique_seq_to_set();
    }

    /// Number of entries.
    pub fn len(&self) -> (n: usize)
        requires
            self.wf(),
        ensures
            n == self.labels().len(),
            n == self@.dom().len(),
    {
        proof {
            self.lemma_entries();
        }
        self.entries.len()
    }

    /// The label of the `i`-th entry.
    pub fn label_at(&self, i: usize) -> (label: &String)
        requires
            i < self.labels().len(),
        ensures
            label@ == self.labels()[i as int],
    {
        &self.entries[i].0
    }

    /// The list of the `i`-th entry.
    pub fn list_at(&self, i: usize) -> (list: &Vec<Coordinate>)
        requires
            i < self.labels().len(),
        ensures
            list@ == self.lists()[i as int],
    {
        &self.entries[i].1
    }

    /// Calls `serde_json::to_string` on the entries as a map from label to
    /// list. Assumed: it succeeds, and the text depends on the mapping alone.
    /// The outside function fails only where a value refuses to be written
    /// or a key is no string; here every key is a string and every value a
    /// vector of pairs of integers.
    #[verifier::external_body]
    fn encode(&self) -> (r: Result<String, serde_json::Error>)
        requires
            self.wf(),
        ensures
            r is Ok,
            r matches Ok(text) ==> text@ == json_text(self@),
    {
        let members: std::collections::BTreeMap<&String, &Vec<Coordinate>> =
            self.entries.iter().map(|e| (&e.0, &e.1)).collect();
        serde_json::to_string(&members)
    }

    /// The mapping as JSON text.
    pub fn to_json(&self) -> (text: String)
        requires
            self.wf(),
        ensures
            text@ == json_text(self@),
    {
        match self.encode() {
            Ok(text) => text,
            Err(_) => vstd::pervasive::unreached(),
        }
    }

    /// The list filed under `label`, if there is one.
    pub fn get(&self, label: &str) -> (r: Option<&Vec<Coordinate>>)
        requires
            self.wf(),
        ensures
            match r {
                Some(list) => self@.contains_key(label@) && list@ == self@[label@],
                None => !self@.contains_key(label@),
            },
    {
        let wanted = String::from_str(label);
        let mut i: usize = 0;
        while i < self.entries.len()
            invariant
                self.wf(),
                i <= self.entries.len(),
                wanted@ == label@,
                forall|k: int| 0 <= k < i ==> self.labels()[k] != label@,
            decreases self.entries.len() - i,
        {
            if self.entries[i].0 == wanted {
                assert(self.labels()[i as int] == label@);
                assert(self.labels().index_of(label@) == i);
                return Some(&self.entries[i].1);
            }
            i += 1;
        }
        None
    }
}

/// Files each list of `visibility` under the text of its query cell and adds
/// the blocked cells and all cells of the grid under their reserved labels.
/// No entry is lost: the text of a cell is never a reserved label, and
/// different cells have different texts.
pub fn assemble(grid: &OccupancyGrid, visibility: VisibilityMap) -> (bundle: ResultBundle)
    requires
        grid.wf(),
        visibility.wf(),
    ensures
        bundle.wf(),
        bundle@ == bundle_map(grid@, visibility@),
        bundle@.dom().len() == visibility@.dom().len() + 2,
        bundle@.contains_key(all_label()) && bundle@[all_label()] == grid@.all_cells(),
        bundle@.contains_key(blocked_label()) && bundle@[blocked_label()]
            == grid@.blocked_cells(),
        forall|p: Coordinate| #[trigger]
            visibility@.contains_key(p) ==> bundle@.contains_key(key_text(p)) && bundle@[key_text(
                p,
            )] == visibility@[p],
        bundle@[all_label()].len() == grid@.width * grid@.height,
        bundle@[blocked_label()].len() <= bundle@[all_label()].len(),
{
    let n = visibility.len();
    let mut entries: Vec<(String, Vec<Coordinate>)> = Vec::new();
    let mut i: usize = 0;
    proof {
        visibility.lemma_entries();
    }
    while i < n
        invariant
            visibility.wf(),
            n == visibility.keys().len(),
            n == visibility.lists().len(),
            i <= n,
            entries@.len() == i,
            forall|k: int|
                0 <= k < i ==> (#[trigger] entries@[k]).0@ == key_text(visibility.keys()[k])
                    && entries@[k].1@ == visibility.lists()[k],
        decreases n - i,
    {
        let key = coordinate_key(visibility.key_at(i));
        let list = copy_cells(visibility.list_at(i));
        entries.push((key, list));
        i += 1;
    }
    entries.push((String::from_str("blocked"), grid.blocked_cells()));
    entries.push((String::from_str("all"), grid.all_cells()));
    let bundle = ResultBundle { entries };
    proof {
        let keys = visibility.keys();
        let labels = bundle.labels();
        let want = bundle_map(grid@, visibility@);
        assert(labels.len() == n + 2);
        assert(labels[n as int] == blocked_label());
        assert(labels[n + 1] == all_label());
        assert forall|k: int| 0 <= k < n implies labels[k] == key_text(keys[k]) by {
            assert(bundle.entries@[k].0@ == key_text(keys[k]));
        }
        assert forall|a: int, b: int| 0 <= a < b < labels.len() implies labels[a] != labels[b] by {
            if b < n {
                lemma_key_text_injective(keys[a], keys[b]);
            } else if a < n {
                lemma_labels_distinct(keys[a]);
            } else {
                lemma_labels_distinct(keys[0]);
            }
        }
        assert(bundle.wf());
        bundle.lemma_entries();
        assert forall|label: Seq<char>| want.contains_key(label) implies bundle@.contains_key(
            label,
        ) by {
            if label == blocked_label() {
                assert(labels[n as int] == label);
            } else if label == all_label() {
                assert(labels[n + 1] == label);
            } else {
                let p = label_owner(visibility@, label);
                let at = keys.index_of(p);
                assert(labels[at] == label);
            }
        }
        assert forall|label: Seq<char>| bundle@.contains_key(label) implies want.contains_key(
            label,
        ) && bundle@[label] == want[label] by {
            let at = labels.index_of(label);
            assert(bundle@[labels[at]] == bundle.lists()[at]);
            if at < n {
                lemma_labels_distinct(keys[at]);
                assert(visibility@.contains_key(keys[at]));
                let p = label_owner(visibility@, label);
                lemma_key_text_injective(p, keys[at]);
            } else if at == n {
            } else {
                lemma_labels_distinct(keys[0]);
            }
        }
        assert(bundle@ =~= want);
        law_cells_partition(grid@);
        assert(bundle@[labels[n + 1]] == bundle.lists()[n + 1]);
        assert(bundle@[labels[n as int]] == bundle.lists()[n as int]);
        lemma_labels_distinct((0, 0));
        assert forall|p: Coordinate| #[trigger] visibility@.contains_key(p) implies want[key_text(
            p,
        )] == visibility@[p] by {
            lemma_labels_distinct(p);
            lemma_key_text_injective(label_owner(visibility@, key_text(p)), p);
        }
    }
    bundle
}

/// The cells whose sight is asked for: the points named, or every cell of
/// the grid where none is named.
pub open spec fn chosen_queries(g: GridView, points: Seq<Coordinate>) -> Seq<Coordinate> {
    if points.len() == 0 {
        g.all_cells()
    } else {
        points
    }
}

/// What [`visibility_bundle`] holds for a grid and the points named.
pub open spec fn survey(g: GridView, points: Seq<Coordinate>) -> Map<Seq<char>, Seq<Coordinate>> {
    bundle_map(g, visibility_map(chosen_queries(g, points), g.passable_cells(), g))
}

/// The cells of a grid lie in the grid.
pub proof fn lemma_cells_in_bounds(g: GridView)
    requires
        g.wf(),
    ensures
        all_in_bounds(g.all_cells(), g),
        all_in_bounds(g.passable_cells(), g),
        all_in_bounds(g.blocked_cells(), g),
{
    law_cells_partition(g);
    assert forall|i: int| 0 <= i < g.all_cells().len() implies g.in_bounds(
        #[trigger] g.all_cells()[i],
    ) by {
        lemma_cell_at_in_bounds(g, i);
    }
}

/// The result for a grid: for each of the `points`, or for every cell where
/// `points` is empty, the passable cells that it sees, beside the blocked
/// cells and all cells. The work is shared out among `workers` threads, as in
/// [`compute_visibility_with_workers`]. Fails where a point lies outside the
/// grid.
pub fn visibility_bundle(grid: &OccupancyGrid, points: &Vec<Coordinate>, workers: usize) -> (r:
    Result<ResultBundle, VisibilityError>)
    requires
        grid.wf(),
    ensures
        r is Ok <==> all_in_bounds(points@, grid@),
        r matches Ok(bundle) ==> bundle.wf() && bundle@ == survey(grid@, points@),
        r matches Err(e) ==> e == VisibilityError::OutOfBoundsCoordinate,
{
    proof {
        lemma_cells_in_bounds(grid@);
    }
    let candidates = grid.passable_cells();
    let computed = if points.len() == 0 {
        let queries = grid.all_cells();
        compute_visibility_with_workers(&queries, &candidates, grid, workers)
    } else {
        compute_visibility_with_workers(points, &candidates, grid, workers)
    };
    match computed {
        Ok(visibility) => Ok(assemble(grid, visibility)),
        Err(e) => Err(e),
    }
}

/// The JSON text of the result for a grid and the points named; it fails
/// where a point lies outside the grid.
pub open spec fn survey_text(g: GridView, points: Seq<Coordinate>) -> Result<
    Seq<char>,
    VisibilityError,
> {
    if !all_in_bounds(points, g) {
        Err(VisibilityError::OutOfBoundsCoordinate)
    } else {
        Ok(json_text(survey(g, points)))
    }
}

/// The JSON text of the result for a decoded raster of luminance, the sides
/// of the grid and the points named: the failure of [`grid_of_raster`], or the
/// text for its grid.
pub open spec fn json_of_raster(
    src: Raster,
    width: int,
    height: int,
    points: Seq<Coordinate>,
) -> Result<Seq<char>, VisibilityError> {
    match grid_of_raster(src, width, height) {
        Err(e) => Err(e),
        Ok(g) => survey_text(g, points),
    }
}

/// The JSON text of the result for a grid: the sight of the points, or of
/// every cell where no point is named, computed on `workers` threads and
/// written as one JSON object. Fails where a point lies outside the grid.
pub fn grid_json(grid: &OccupancyGrid, points: &Vec<Coordinate>, workers: usize) -> (r: Result<
    String,
    VisibilityError,
>)
    requires
        grid.wf(),
    ensures
        match r {
            Ok(text) => survey_text(grid@, points@) == Ok::<Seq<char>, VisibilityError>(text@),
            Err(e) => survey_text(grid@, points@) == Err::<Seq<char>, VisibilityError>(e),
        },
{
    match visibility_bundle(grid, points, workers) {
        Ok(bundle) => Ok(bundle.to_json()),
        Err(e) => Err(e),
    }
}

/// From a decoded raster of luminance to the JSON text of the result: the
/// grid is built as in [`grid_from_decoded`] and written as in [`grid_json`].
pub fn json_from_decoded(
    luma: &LumaImage,
    width: u32,
    height: u32,
    points: &Vec<Coordinate>,
    workers: usize,
) -> (r: Result<String, VisibilityError>)
    ensures
        match r {
            Ok(text) => json_of_raster(luma@, width as int, height as int, points@) == Ok::<
                Seq<char>,
                VisibilityError,
            >(text@),
            Err(e) => json_of_raster(luma@, width as int, height as int, points@) == Err::<
                Seq<char>,
                VisibilityError,
            >(e),
        },
{
    match grid_from_decoded(luma, width, height) {
        Ok(grid) => grid_json(&grid, points, workers),
        Err(e) => Err(e),
    }
}

/// From the bytes of an image to the JSON text of the result: the grid is
/// built as in [`build_grid`], the sight of the points, or of every cell
/// where no point is named, is computed on `workers` threads, and the result
/// is written as one JSON object.
///
/// Fails with `InvalidDimensions` exactly where no grid of these sides can be
/// asked for. Any other outcome is `ImageLoadError`, where the bytes give no
/// raster that can be used, or what [`json_from_decoded`] returns for the
/// raster that the bytes decode to.
pub fn visibility_json(
    image_bytes: &[u8],
    width: u32,
    height: u32,
    points: &Vec<Coordinate>,
    workers: usize,
) -> (r: Result<String, VisibilityError>)
    ensures
        r matches Err(VisibilityError::InvalidDimensions) <==> !valid_target(
            width as int,
            height as int,
        ),
        r matches Ok(text) ==> exists|src: Raster| #[trigger]
            json_of_raster(src, width as int, height as int, points@) == Ok::<
                Seq<char>,
                VisibilityError,
            >(text@),
        r matches Err(e) ==> e == VisibilityError::ImageLoadError || exists|src: Raster|
            #[trigger] json_of_raster(src, width as int, height as int, points@) == Err::<
                Seq<char>,
                VisibilityError,
            >(e),
{
    let grid = match build_grid(image_bytes, width, height) {
        Ok(grid) => grid,
        Err(e) => {
            proof {
                if e == VisibilityError::InvalidDimensions {
                    let none = Raster { width: 0, height: 0, pixels: Seq::empty() };
                    assert(json_of_raster(none, width as int, height as int, points@) == Err::<
                        Seq<char>,
                        VisibilityError,
                    >(e));
                }
            }
            return Err(e);
        },
    };
    proof {
        let src = choose|src: Raster| #[trigger]
            grid_of_raster(src, width as int, height as int) == Ok::<GridView, VisibilityError>(
                grid@,
            );
        assert(json_of_raster(src, width as int, height as int, points@) == survey_text(
            grid@,
            points@,
        ));
    }
    grid_json(&grid, points, workers)
}

} // verus!
