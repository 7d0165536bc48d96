//! The vocabulary store: layout descriptors for every configured folder,
//! a plan for creating whatever part of the layout is missing, and three
//! aggregate views over the parsed records of every data file — by type,
//! by folder then type, and flat.
//!
//! The caller performs the filesystem work: it asks `materialize_plan`
//! what to create, reads every file of `data_paths`, and hands the
//! contents to `load`.

use vstd::prelude::*;
use crate::layout::Carrier;
use crate::layout::carrier_wf;
use crate::records::Mas;
use crate::records::MasV;
use crate::records::ReadParseFile;
use crate::records::file_records;
use crate::records::matches_records;
use crate::text::contains_str;
use crate::text::joined;
use crate::text::str_eq;
use crate::text::views_of;
use vstd::string::StringExecFns;

verus! {

/// The records of one type across every folder, in folder order.
pub struct TypeBucket {
    pub tipo: String,
    pub list: Vec<Mas>,
}

/// The per-type buckets of one folder, in type order.
pub struct FolderBuckets {
    pub folder: String,
    pub buckets: Vec<TypeBucket>,
}

/// The records grid: one cell per folder and type, holding the records
/// parsed from the matching file content, tagged with that folder and
/// that file's type name.
pub open spec fn records_grid(carriers: Seq<Carrier>, contents: Seq<Seq<Seq<char>>>) -> Seq<
    Seq<Seq<MasV>>,
> {
    Seq::new(
        carriers.len(),
        |i: int|
            Seq::new(
                carriers[i].paths@.len(),
                |j: int|
                    file_records(
                        contents[i][j],
                        carriers[i].folder@,
                        carriers[i].paths@[j].name@,
                    ),
            ),
    )
}

/// The views of nested content lists.
pub open spec fn contents_views(c: Seq<Vec<String>>) -> Seq<Seq<Seq<char>>> {
    c.map_values(|v: Vec<String>| views_of(v@))
}

/// All records of one folder's row, in type order.
pub open spec fn row_flat(row: Seq<Seq<MasV>>) -> Seq<MasV>
    decreases row.len(),
{
    if row.len() == 0 {
        Seq::empty()
    } else {
        row[0] + row_flat(row.drop_first())
    }
}

/// All records of the grid, in folder order, then type order, then line
/// order.
pub open spec fn grid_flat(g: Seq<Seq<Seq<MasV>>>) -> Seq<MasV>
    decreases g.len(),
{
    if g.len() == 0 {
        Seq::empty()
    } else {
        row_flat(g[0]) + grid_flat(g.drop_first())
    }
}

/// All records of column `j` (one type), in folder order.
pub open spec fn concat_col(g: Seq<Seq<Seq<MasV>>>, j: int) -> Seq<MasV>
    decreases g.len(),
{
    if g.len() == 0 {
        Seq::empty()
    } else {
        g[0][j] + concat_col(g.drop_first(), j)
    }
}

/// The number of file entries per carrier; every carrier has the same
/// count, one per configured type.
pub open spec fn layout_width(carriers: Seq<Carrier>) -> int {
    if carriers.len() == 0 {
        0
    } else {
        carriers[0].paths@.len() as int
    }
}

/// Every carrier has one file entry per configured type.
pub open spec fn uniform_layout(carriers: Seq<Carrier>) -> bool {
    forall|i: int| 0 <= i < carriers.len() ==> (#[trigger] carriers[i].paths)@.len()
        == layout_width(carriers)
}

/// The record count of the entries of `row` from index `j` on.
pub open spec fn sum_row_from(row: Seq<Seq<MasV>>, j: int) -> int
    decreases row.len() - j,
{
    if j < 0 || j >= row.len() {
        0
    } else {
        row[j].len() + sum_row_from(row, j + 1)
    }
}

/// The record count of the per-type buckets from column `j` on.
pub open spec fn sum_cols_from(g: Seq<Seq<Seq<MasV>>>, j: int, width: int) -> int
    decreases width - j,
{
    if j < 0 || j >= width {
        0
    } else {
        concat_col(g, j).len() + sum_cols_from(g, j + 1, width)
    }
}

/// The record count of the whole grid, row by row.
pub open spec fn sum_grid(g: Seq<Seq<Seq<MasV>>>) -> int
    decreases g.len(),
{
    if g.len() == 0 {
        0
    } else {
        sum_row_from(g[0], 0) + sum_grid(g.drop_first())
    }
}

proof fn lemma_row_flat_from(row: Seq<Seq<MasV>>, j: int)
    requires
        0 <= j <= row.len(),
    ensures
        row_flat(row.skip(j)).len() == sum_row_from(row, j),
    decreases row.len() - j,
{
    if j == row.len() {
        assert(row.skip(j) =~= Seq::<Seq<MasV>>::empty());
    } else {
        lemma_row_flat_from(row, j + 1);
        assert(row.skip(j)[0] == row[j]);
        assert(row.skip(j).drop_first() =~= row.skip(j + 1));
    }
}

proof fn lemma_cols_empty(j: int, width: int)
    ensures
        sum_cols_from(Seq::<Seq<Seq<MasV>>>::empty(), j, width) == 0,
    decreases width - j,
{
    if 0 <= j < width {
        lemma_cols_empty(j + 1, width);
    }
}

proof fn lemma_cols_step(g: Seq<Seq<Seq<MasV>>>, j: int, width: int)
    requires
        g.len() > 0,
        g[0].len() == width,
        0 <= j <= width,
    ensures
        sum_cols_from(g, j, width) == sum_row_from(g[0], j) + sum_cols_from(
            g.drop_first(),
            j,
            width,
        ),
    decreases width - j,
{
    if j == width {
    } else {
        lemma_cols_step(g, j + 1, width);
    }
}

/// Aggregate consistency: the flat view has exactly as many records as
/// all the per-type buckets together, and as all the per-folder per-type
/// buckets together.
pub proof fn lemma_aggregate_consistency(g: Seq<Seq<Seq<MasV>>>, width: int)
    requires
        width >= 0,
        forall|i: int| 0 <= i < g.len() ==> (#[trigger] g[i]).len() == width,
    ensures
        grid_flat(g).len() == sum_cols_from(g, 0, width),
        grid_flat(g).len() == sum_grid(g),
    decreases g.len(),
{
    if g.len() == 0 {
        assert(g =~= Seq::<Seq<Seq<MasV>>>::empty());
        lemma_cols_empty(0, width);
    } else {
        assert(forall|i: int| 0 <= i < g.drop_first().len() ==> (#[trigger] g.drop_first()[i])
            == g[i + 1]);
        lemma_aggregate_consistency(g.drop_first(), width);
        lemma_row_flat_from(g[0], 0);
        assert(g[0].skip(0) =~= g[0]);
        lemma_cols_step(g, 0, width);
        assert(g[0].len() == width);
        assert(grid_flat(g) == row_flat(g[0]) + grid_flat(g.drop_first()));
        assert(row_flat(g[0]).len() == sum_row_from(g[0], 0));
        assert(grid_flat(g.drop_first()).len() == sum_cols_from(g.drop_first(), 0, width));
        assert(sum_cols_from(g, 0, width) == sum_row_from(g[0], 0) + sum_cols_from(
            g.drop_first(),
            0,
            width,
        ));
    }
}

/// The total record count of the by-type aggregate.
pub open spec fn data_total(data: Seq<TypeBucket>) -> int
    decreases data.len(),
{
    if data.len() == 0 {
        0
    } else {
        data[0].list@.len() + data_total(data.drop_first())
    }
}

/// The record count of one folder's buckets.
pub open spec fn row_total(buckets: Seq<TypeBucket>) -> int
    decreases buckets.len(),
{
    if buckets.len() == 0 {
        0
    } else {
        buckets[0].list@.len() + row_total(buckets.drop_first())
    }
}

/// The total record count of the by-folder-then-type aggregate.
pub open spec fn core_total(core: Seq<FolderBuckets>) -> int
    decreases core.len(),
{
    if core.len() == 0 {
        0
    } else {
        row_total(core[0].buckets@) + core_total(core.drop_first())
    }
}

proof fn lemma_data_cols(data: Seq<TypeBucket>, g: Seq<Seq<Seq<MasV>>>, j: int, width: int)
    requires
        0 <= j <= width,
        data.len() == width - j,
        forall|k: int| 0 <= k < data.len() ==> matches_records(
            (#[trigger] data[k]).list@,
            concat_col(g, j + k),
        ),
    ensures
        data_total(data) == sum_cols_from(g, j, width),
    decreases data.len(),
{
    if data.len() == 0 {
    } else {
        assert(data[0].list@.len() == concat_col(g, j).len());
        assert(forall|k: int| 0 <= k < data.drop_first().len() ==> (#[trigger] data.drop_first()[k])
            == data[k + 1]);
        lemma_data_cols(data.drop_first(), g, j + 1, width);
    }
}

proof fn lemma_row_total(buckets: Seq<TypeBucket>, row: Seq<Seq<MasV>>, j: int)
    requires
        0 <= j <= row.len(),
        buckets.len() == row.len() - j,
        forall|k: int| 0 <= k < buckets.len() ==> matches_records(
            (#[trigger] buckets[k]).list@,
            row[j + k],
        ),
    ensures
        row_total(buckets) == sum_row_from(row, j),
    decreases buckets.len(),
{
    if buckets.len() == 0 {
    } else {
        assert(buckets[0].list@.len() == row[j].len());
        assert(forall|k: int| 0 <= k < buckets.drop_first().len() ==> (
        #[trigger] buckets.drop_first()[k]) == buckets[k + 1]);
        lemma_row_total(buckets.drop_first(), row, j + 1);
    }
}

proof fn lemma_core_rows(core: Seq<FolderBuckets>, g: Seq<Seq<Seq<MasV>>>, width: int)
    requires
        width >= 0,
        core.len() == g.len(),
        forall|i: int| 0 <= i < g.len() ==> (#[trigger] g[i]).len() == width,
        forall|i: int| 0 <= i < core.len() ==> (#[trigger] core[i]).buckets@.len() == width,
        forall|i: int, j: int|
            0 <= i < core.len() && 0 <= j < width ==> matches_records(
                (#[trigger] core[i].buckets@[j]).list@,
                g[i][j],
            ),
    ensures
        core_total(core) == sum_grid(g),
    decreases core.len(),
{
    if core.len() == 0 {
        assert(g =~= Seq::<Seq<Seq<MasV>>>::empty());
    } else {
        assert(forall|k: int| 0 <= k < core[0].buckets@.len() ==> matches_records(
            (#[trigger] core[0].buckets@[k]).list@,
            g[0][0 + k],
        ));
        lemma_row_total(core[0].buckets@, g[0], 0);
        assert(forall|i: int| 0 <= i < core.drop_first().len() ==> (#[trigger] core.drop_first()[i])
            == core[i + 1]);
        assert(forall|i: int| 0 <= i < g.drop_first().len() ==> (#[trigger] g.drop_first()[i]) == g[
            i + 1
        ]);
        assert forall|i: int, j: int|
            0 <= i < core.drop_first().len() && 0 <= j < width implies matches_records(
            (#[trigger] core.drop_first()[i].buckets@[j]).list@,
            g.drop_first()[i][j],
        ) by {
            assert(core.drop_first()[i] == core[i + 1]);
            assert(g.drop_first()[i] == g[i + 1]);
            assert(matches_records(core[i + 1].buckets@[j].list@, g[i + 1][j]));
        }
        lemma_core_rows(core.drop_first(), g.drop_first(), width);
    }
}

/// Aggregate consistency for a loaded store: the flat view holds exactly
/// as many records as all the by-type buckets together, and as all the
/// by-folder-then-type buckets together. The premises are exactly what
/// `load` ensures of the store it returns, for the grid of its contents.
pub proof fn lemma_store_aggregate_consistency(
    voc: Vocabulary,
    g: Seq<Seq<Seq<MasV>>>,
    width: int,
)
    requires
        width >= 0,
        forall|i: int| 0 <= i < g.len() ==> (#[trigger] g[i]).len() == width,
        matches_records(voc.data_all@, grid_flat(g)),
        voc.data@.len() == width,
        forall|j: int| 0 <= j < voc.data@.len() ==> matches_records(
            (#[trigger] voc.data@[j]).list@,
            concat_col(g, j),
        ),
        voc.core_data@.len() == g.len(),
        forall|i: int| 0 <= i < voc.core_data@.len() ==> (#[trigger] voc.core_data@[i]).buckets@.len()
            == width,
        forall|i: int, j: int|
            0 <= i < voc.core_data@.len() && 0 <= j < width ==> matches_records(
                (#[trigger] voc.core_data@[i].buckets@[j]).list@,
                g[i][j],
            ),
    ensures
        voc.data_all@.len() == data_total(voc.data@),
        voc.data_all@.len() == core_total(voc.core_data@),
{
    lemma_aggregate_consistency(g, width);
    assert(forall|k: int| 0 <= k < voc.data@.len() ==> matches_records(
        (#[trigger] voc.data@[k]).list@,
        concat_col(g, 0 + k),
    ));
    lemma_data_cols(voc.data@, g, 0, width);
    lemma_core_rows(voc.core_data@, g, width);
}

/// The paths of the entries that are expected but absent, in layout
/// order.
pub open spec fn missing(all: Seq<Seq<char>>, have: Seq<Seq<char>>) -> Seq<Seq<char>>
    decreases all.len(),
{
    if all.len() == 0 {
        Seq::empty()
    } else if have.contains(all[0]) {
        missing(all.drop_first(), have)
    } else {
        seq![all[0]] + missing(all.drop_first(), have)
    }
}

proof fn lemma_missing_covers(all: Seq<Seq<char>>, have: Seq<Seq<char>>, ix: int)
    requires
        0 <= ix < all.len(),
    ensures
        have.contains(all[ix]) || missing(all, have).contains(all[ix]),
    decreases ix,
{
    if ix == 0 {
        if !have.contains(all[0]) {
            assert(missing(all, have)[0] == all[0]);
        }
    } else {
        assert(all.drop_first()[ix - 1] == all[ix]);
        lemma_missing_covers(all.drop_first(), have, ix - 1);
        if !have.contains(all[ix]) {
            let m = missing(all.drop_first(), have);
            let k = choose|k: int| 0 <= k < m.len() && m[k] == all[ix];
            if have.contains(all[0]) {
                assert(missing(all, have)[k] == all[ix]);
            } else {
                assert(missing(all, have)[k + 1] == all[ix]);
            }
        }
    }
}

proof fn lemma_missing_none(all: Seq<Seq<char>>, have: Seq<Seq<char>>)
    requires
        forall|ix: int| 0 <= ix < all.len() ==> have.contains(#[trigger] all[ix]),
    ensures
        missing(all, have) =~= Seq::<Seq<char>>::empty(),
    decreases all.len(),
{
    if all.len() > 0 {
        assert(forall|ix: int| 0 <= ix < all.drop_first().len() ==> #[trigger] all.drop_first()[ix]
            == all[ix + 1]);
        lemma_missing_none(all.drop_first(), have);
    }
}

/// Materialization is idempotent: once the entries of the first plan
/// exist as well, a second plan creates nothing — re-running when
/// everything already exists performs zero mutations.
pub proof fn lemma_materialize_idempotent(all: Seq<Seq<char>>, have: Seq<Seq<char>>)
    ensures
        missing(all, have + missing(all, have)) =~= Seq::<Seq<char>>::empty(),
{
    let plan = missing(all, have);
    let have2 = have + plan;
    assert forall|ix: int| 0 <= ix < all.len() implies have2.contains(#[trigger] all[ix]) by {
        lemma_missing_covers(all, have, ix);
        if have.contains(all[ix]) {
            let k = choose|k: int| 0 <= k < have.len() && have[k] == all[ix];
            assert(have2[k] == all[ix]);
        } else {
            let k = choose|k: int| 0 <= k < plan.len() && plan[k] == all[ix];
            assert(have2[have.len() + k] == all[ix]);
        }
    }
    lemma_missing_none(all, have2);
}

/// The directories of the layout, in folder order.
pub open spec fn all_dirs(carriers: Seq<Carrier>) -> Seq<Seq<char>> {
    carriers.map_values(|c: Carrier| c.dir@)
}

/// The file paths of one carrier, in type order.
pub open spec fn paths_of(c: Carrier) -> Seq<Seq<char>> {
    c.paths@.map_values(|f: crate::layout::File| f.path@)
}

/// The file paths of the whole layout, in folder order then type order.
pub open spec fn all_paths(carriers: Seq<Carrier>) -> Seq<Seq<char>>
    decreases carriers.len(),
{
    if carriers.len() == 0 {
        Seq::empty()
    } else {
        paths_of(carriers[0]) + all_paths(carriers.drop_first())
    }
}

/// The vocabulary store: its derived name and root directory, the layout
/// descriptors of every configured folder, and the three aggregate views
/// built by `load` — `data` by type, `core_data` by folder then type,
/// `data_all` flat.
pub struct Vocabulary {
    pub name: String,
    pub dir: String,
    pub carrier: Vec<Carrier>,
    pub data: Vec<TypeBucket>,
    pub data_all: Vec<Mas>,
    pub core_data: Vec<FolderBuckets>,
}

impl Vocabulary {
    /// An empty store, to be filled by `setup_layout` and `load`.
    pub fn new() -> (r: Self)
        ensures
            r.name@ == Seq::<char>::empty(),
            r.dir@ == Seq::<char>::empty(),
            r.carrier@.len() == 0,
            r.data@.len() == 0,
            r.data_all@.len() == 0,
            r.core_data@.len() == 0,
    {
        Vocabulary {
            name: String::new(),
            dir: String::new(),
            carrier: Vec::new(),
            data: Vec::new(),
            data_all: Vec::new(),
            core_data: Vec::new(),
        }
    }

    /// The store's derived name: one fixed store lives under a dedicated
    /// subdirectory for the `aparter` run, every other run shares the
    /// plain one.
    pub fn get_name(&self, name: &str) -> (r: String)
        ensures
            r@ == if name@ == "aparter"@ {
                "aparter/vocabulary"@
            } else {
                "vocabulary"@
            },
    {
        if str_eq(name, "aparter") {
            String::from_str("aparter/vocabulary")
        } else {
            String::from_str("vocabulary")
        }
    }

    /// One layout descriptor per configured folder, in order.
    pub fn get_carrier(&self, folders: &Vec<String>, types: &Vec<String>) -> (r: Vec<Carrier>)
        ensures
            r@.len() == folders@.len(),
            forall|i: int| 0 <= i < folders@.len() ==> carrier_wf(
                #[trigger] r@[i],
                self.dir@,
                folders@[i]@,
                views_of(types@),
            ),
    {
        let mut acc: Vec<Carrier> = Vec::new();
        let mut i: usize = 0;
        while i < folders.len()
            invariant
                i <= folders@.len(),
                acc@.len() == i,
                forall|k: int| 0 <= k < i ==> carrier_wf(
                    #[trigger] acc@[k],
                    self.dir@,
                    folders@[k]@,
                    views_of(types@),
                ),
            decreases folders@.len() - i,
        {
            let carrier = Carrier::new().setup(&self.dir, types, &folders[i]);
            acc.push(carrier);
            i = i + 1;
        }
        acc
    }

    /// Derives the store's name, root directory and full layout from the
    /// configuration. No aggregate is built yet.
    pub fn setup_layout(self, current_dir: &String, folders: &Vec<String>, types: &Vec<String>, name: &str) -> (r: Self)
        ensures
            r.name@ == if name@ == "aparter"@ {
                "aparter/vocabulary"@
            } else {
                "vocabulary"@
            },
            r.dir@ == joined(current_dir@, r.name@),
            r.carrier@.len() == folders@.len(),
            forall|i: int| 0 <= i < folders@.len() ==> carrier_wf(
                #[trigger] r.carrier@[i],
                r.dir@,
                folders@[i]@,
                views_of(types@),
            ),
            r.data == self.data,
            r.data_all == self.data_all,
            r.core_data == self.core_data,
    {
        let store_name = self.get_name(name);
        let dir = crate::text::path_join(current_dir.as_str(), store_name.as_str());
        let shell = Vocabulary {
            name: store_name,
            dir,
            carrier: Vec::new(),
            data: self.data,
            data_all: self.data_all,
            core_data: self.core_data,
        };
        let carrier = shell.get_carrier(folders, types);
        Vocabulary {
            name: shell.name,
            dir: shell.dir,
            carrier,
            data: shell.data,
            data_all: shell.data_all,
            core_data: shell.core_data,
        }
    }

    /// The layout's directories, in folder order.
    pub fn dir_list(&self) -> (r: Vec<String>)
        ensures
            views_of(r@) =~= all_dirs(self.carrier@),
    {
        let mut acc: Vec<String> = Vec::new();
        let mut i: usize = 0;
        while i < self.carrier.len()
            invariant
                i <= self.carrier@.len(),
                acc@.len() == i,
                forall|k: int| 0 <= k < i ==> acc@[k]@ == self.carrier@[k].dir@,
            decreases self.carrier@.len() - i,
        {
            acc.push(self.carrier[i].dir.clone());
            i = i + 1;
        }
        acc
    }

    /// The layout's file paths, one inner list per folder, in layout
    /// order.
    pub fn data_paths(&self) -> (r: Vec<Vec<String>>)
        ensures
            r@.len() == self.carrier@.len(),
            forall|i: int| 0 <= i < r@.len() ==> views_of(#[trigger] r@[i]@) =~= paths_of(
                self.carrier@[i],
            ),
    {
        let mut acc: Vec<Vec<String>> = Vec::new();
        let mut i: usize = 0;
        while i < self.carrier.len()
            invariant
                i <= self.carrier@.len(),
                acc@.len() == i,
                forall|k: int| 0 <= k < i ==> views_of(#[trigger] acc@[k]@) =~= paths_of(
                    self.carrier@[k],
                ),
            decreases self.carrier@.len() - i,
        {
            let c = &self.carrier[i];
            let mut inner: Vec<String> = Vec::new();
            let mut j: usize = 0;
            while j < c.paths.len()
                invariant
                    j <= c.paths@.len(),
                    inner@.len() == j,
                    forall|k: int| 0 <= k < j ==> inner@[k]@ == c.paths@[k].path@,
                decreases c.paths@.len() - j,
            {
                inner.push(c.paths[j].path.clone());
                j = j + 1;
            }
            proof {
                assert(views_of(inner@) =~= paths_of(*c));
            }
            acc.push(inner);
            i = i + 1;
        }
        acc
    }

    /// The flat list of the layout's file paths, folder-major.
    pub fn path_list(&self) -> (r: Vec<String>)
        ensures
            views_of(r@) == all_paths(self.carrier@),
    {
        let ghost target = all_paths(self.carrier@);
        let mut acc: Vec<String> = Vec::new();
        let mut i: usize = 0;
        proof {
            assert(self.carrier@.skip(0) =~= self.carrier@);
        }
        while i < self.carrier.len()
            invariant
                i <= self.carrier@.len(),
                target == all_paths(self.carrier@),
                target.skip(acc@.len() as int) == all_paths(self.carrier@.skip(i as int)),
                acc@.len() <= target.len(),
                forall|k: int| 0 <= k < acc@.len() ==> acc@[k]@ == target[k],
            decreases self.carrier@.len() - i,
        {
            let ghost cs = self.carrier@;
            proof {
                assert(cs.skip(i as int)[0] == cs[i as int]);
                assert(cs.skip(i as int).drop_first() =~= cs.skip(i as int + 1));
                assert(all_paths(cs.skip(i as int)) == paths_of(cs[i as int]) + all_paths(
                    cs.skip(i as int + 1),
                ));
            }
            let c = &self.carrier[i];
            let mut j: usize = 0;
            while j < c.paths.len()
                invariant
                    j <= c.paths@.len(),
                    *c == self.carrier@[i as int],
                    i < self.carrier@.len(),
                    target == all_paths(self.carrier@),
                    target.skip(acc@.len() as int) == paths_of(self.carrier@[i as int]).skip(
                        j as int,
                    ) + all_paths(self.carrier@.skip(i as int + 1)),
                    acc@.len() + c.paths@.len() - j <= target.len(),
                    forall|k: int| 0 <= k < acc@.len() ==> acc@[k]@ == target[k],
                decreases c.paths@.len() - j,
            {
                proof {
                    let ps = paths_of(self.carrier@[i as int]);
                    assert(ps.skip(j as int)[0] == ps[j as int]);
                    assert(ps[j as int] == c.paths@[j as int].path@);
                    assert(target.skip(acc@.len() as int)[0] == target[acc@.len() as int]);
                    assert(ps.skip(j as int).drop_first() =~= ps.skip(j as int + 1));
                    assert((ps.skip(j as int) + all_paths(self.carrier@.skip(i as int
                        + 1))).drop_first() =~= ps.skip(j as int + 1) + all_paths(
                        self.carrier@.skip(i as int + 1),
                    ));
                    assert(target.skip(acc@.len() as int).drop_first() =~= target.skip(
                        acc@.len() as int + 1,
                    ));
                }
                acc.push(c.paths[j].path.clone());
                j = j + 1;
            }
            proof {
                assert(paths_of(self.carrier@[i as int]).skip(c.paths@.len() as int) =~= Seq::<
                    Seq<char>,
                >::empty());
                assert(Seq::<Seq<char>>::empty() + all_paths(self.carrier@.skip(i as int + 1))
                    =~= all_paths(self.carrier@.skip(i as int + 1)));
            }
            i = i + 1;
        }
        proof {
            assert(self.carrier@.skip(self.carrier@.len() as int) =~= Seq::<Carrier>::empty());
            assert(target.skip(acc@.len() as int).len() == 0);
            assert(views_of(acc@) =~= target);
        }
        acc
    }

    /// The entries of the layout that are absent from what exists on
    /// disk: the directories and file paths to create, in layout order.
    /// Creating exactly these, and nothing else, materializes the layout
    /// without disturbing existing entries.
    pub fn materialize_plan(&self, have_dirs: &Vec<String>, have_files: &Vec<String>) -> (r: (
        Vec<String>,
        Vec<String>,
    ))
        ensures
            views_of(r.0@) == missing(all_dirs(self.carrier@), views_of(have_dirs@)),
            views_of(r.1@) == missing(all_paths(self.carrier@), views_of(have_files@)),
    {
        let dirs = self.dir_list();
        let files = self.path_list();
        let missing_dirs = keep_missing(&dirs, have_dirs);
        let missing_files = keep_missing(&files, have_files);
        (missing_dirs, missing_files)
    }
}

/// The views of the by-folder-then-type aggregate, as a records grid.
pub open spec fn core_views(core: Seq<FolderBuckets>) -> Seq<Seq<Seq<MasV>>> {
    core.map_values(
        |fb: FolderBuckets|
            fb.buckets@.map_values(|tb: TypeBucket| tb.list@.map_values(|m: Mas| m@)),
    )
}

impl Vocabulary {
    /// Parses every file's text into word records and builds the by-type
    /// and by-folder-then-type aggregates. `contents` holds one inner
    /// list per carrier, one text per file entry, in layout order.
    /// Within every bucket, records keep folder order, then type order,
    /// then line order; nothing is sorted or deduplicated.
    pub fn read_files_data(&self, contents: &Vec<Vec<String>>) -> (r: (
        Vec<TypeBucket>,
        Vec<FolderBuckets>,
    ))
        requires
            uniform_layout(self.carrier@),
            contents@.len() == self.carrier@.len(),
            forall|i: int| 0 <= i < contents@.len() ==> (#[trigger] contents@[i])@.len()
                == self.carrier@[i].paths@.len(),
            forall|i: int, j: int|
                0 <= i < contents@.len() && 0 <= j < contents@[i]@.len() ==> (#[trigger] contents@[i]@[j])@.len() < usize::MAX,
        ensures
            ({
                let g = records_grid(self.carrier@, contents_views(contents@));
                &&& r.1@.len() == self.carrier@.len()
                &&& forall|i: int|
                    0 <= i < r.1@.len() ==> {
                        &&& (#[trigger] r.1@[i]).folder@ == self.carrier@[i].folder@
                        &&& r.1@[i].buckets@.len() == self.carrier@[i].paths@.len()
                        &&& forall|j: int|
                            0 <= j < r.1@[i].buckets@.len() ==> {
                                &&& (#[trigger] r.1@[i].buckets@[j]).tipo@
                                    == self.carrier@[i].paths@[j].name@
                                &&& matches_records(r.1@[i].buckets@[j].list@, g[i][j])
                            }
                    }
                &&& r.0@.len() == layout_width(self.carrier@)
                &&& forall|j: int|
                    0 <= j < r.0@.len() ==> {
                        &&& (#[trigger] r.0@[j]).tipo@ == self.carrier@[0].paths@[j].name@
                        &&& matches_records(r.0@[j].list@, concat_col(g, j))
                    }
            }),
    {
        let ghost g = records_grid(self.carrier@, contents_views(contents@));
        let mut core: Vec<FolderBuckets> = Vec::new();
        let mut i: usize = 0;
        while i < self.carrier.len()
            invariant
                g == records_grid(self.carrier@, contents_views(contents@)),
                uniform_layout(self.carrier@),
                contents@.len() == self.carrier@.len(),
                forall|k: int| 0 <= k < contents@.len() ==> (#[trigger] contents@[k])@.len()
                    == self.carrier@[k].paths@.len(),
                forall|k: int, j: int|
                    0 <= k < contents@.len() && 0 <= j < contents@[k]@.len() ==> (#[trigger] contents@[k]@[j])@.len() < usize::MAX,
                i <= self.carrier@.len(),
                core@.len() == i,
                forall|k: int|
                    0 <= k < i ==> {
                        &&& (#[trigger] core@[k]).folder@ == self.carrier@[k].folder@
                        &&& core@[k].buckets@.len() == self.carrier@[k].paths@.len()
                        &&& forall|j: int|
                            0 <= j < core@[k].buckets@.len() ==> {
                                &&& (#[trigger] core@[k].buckets@[j]).tipo@
                                    == self.carrier@[k].paths@[j].name@
                                &&& matches_records(core@[k].buckets@[j].list@, g[k][j])
                            }
                    },
            decreases self.carrier@.len() - i,
        {
            let c = &self.carrier[i];
            let mut buckets: Vec<TypeBucket> = Vec::new();
            let mut j: usize = 0;
            while j < c.paths.len()
                invariant
                    g == records_grid(self.carrier@, contents_views(contents@)),
                    contents@.len() == self.carrier@.len(),
                    forall|k: int| 0 <= k < contents@.len() ==> (#[trigger] contents@[k])@.len()
                        == self.carrier@[k].paths@.len(),
                    forall|k: int, jj: int|
                        0 <= k < contents@.len() && 0 <= jj < contents@[k]@.len() ==> (#[trigger] contents@[k]@[jj])@.len() < usize::MAX,
                    i < self.carrier@.len(),
                    *c == self.carrier@[i as int],
                    j <= c.paths@.len(),
                    buckets@.len() == j,
                    forall|k: int|
                        0 <= k < j ==> {
                            &&& (#[trigger] buckets@[k]).tipo@ == self.carrier@[
                                i as int
                            ].paths@[k].name@
                            &&& matches_records(buckets@[k].list@, g[i as int][k])
                        },
                decreases c.paths@.len() - j,
            {
                let content = contents[i][j].clone();
                let parser = ReadParseFile { content };
                let template = crate::records::Mas::new().setup(&c.folder, &c.paths[j].name);
                let list = parser.split_mas(template);
                proof {
                    assert(contents_views(contents@)[i as int] == views_of(contents@[i as int]@));
                    assert(views_of(contents@[i as int]@)[j as int] == contents@[i as int]@[j as int]@);
                    assert(g[i as int] == Seq::new(
                        self.carrier@[i as int].paths@.len(),
                        |jj: int|
                            file_records(
                                contents_views(contents@)[i as int][jj],
                                self.carrier@[i as int].folder@,
                                self.carrier@[i as int].paths@[jj].name@,
                            ),
                    ));
                    assert(g[i as int][j as int] == file_records(
                        contents@[i as int]@[j as int]@,
                        c.folder@,
                        c.paths@[j as int].name@,
                    ));
                }
                buckets.push(TypeBucket { tipo: c.paths[j].name.clone(), list });
                j = j + 1;
            }
            core.push(FolderBuckets { folder: c.folder.clone(), buckets });
            i = i + 1;
        }
        let width = if self.carrier.len() == 0 {
            0
        } else {
            self.carrier[0].paths.len()
        };
        let mut data: Vec<TypeBucket> = Vec::new();
        let mut j: usize = 0;
        while j < width
            invariant
                g == records_grid(self.carrier@, contents_views(contents@)),
                uniform_layout(self.carrier@),
                width == layout_width(self.carrier@),
                g.len() == self.carrier@.len(),
                core@.len() == self.carrier@.len(),
                forall|k: int|
                    0 <= k < core@.len() ==> {
                        &&& (#[trigger] core@[k]).folder@ == self.carrier@[k].folder@
                        &&& core@[k].buckets@.len() == self.carrier@[k].paths@.len()
                        &&& forall|jj: int|
                            0 <= jj < core@[k].buckets@.len() ==> {
                                &&& (#[trigger] core@[k].buckets@[jj]).tipo@
                                    == self.carrier@[k].paths@[jj].name@
                                &&& matches_records(core@[k].buckets@[jj].list@, g[k][jj])
                            }
                    },
                j <= width,
                data@.len() == j,
                forall|k: int|
                    0 <= k < j ==> {
                        &&& (#[trigger] data@[k]).tipo@ == self.carrier@[0].paths@[k].name@
                        &&& matches_records(data@[k].list@, concat_col(g, k))
                    },
            decreases width - j,
        {
            let ghost target = concat_col(g, j as int);
            let mut list: Vec<Mas> = Vec::new();
            let mut i2: usize = 0;
            proof {
                assert(g.skip(0) =~= g);
            }
            while i2 < core.len()
                invariant
                    g == records_grid(self.carrier@, contents_views(contents@)),
                    uniform_layout(self.carrier@),
                    width == layout_width(self.carrier@),
                    j < width,
                    g.len() == self.carrier@.len(),
                    core@.len() == self.carrier@.len(),
                    forall|k: int|
                        0 <= k < core@.len() ==> {
                            &&& (#[trigger] core@[k]).buckets@.len()
                                == self.carrier@[k].paths@.len()
                            &&& forall|jj: int|
                                0 <= jj < core@[k].buckets@.len() ==> matches_records(
                                    (#[trigger] core@[k].buckets@[jj]).list@,
                                    g[k][jj],
                                )
                        },
                    i2 <= core@.len(),
                    target == concat_col(g, j as int),
                    target.skip(list@.len() as int) == concat_col(g.skip(i2 as int), j as int),
                    list@.len() <= target.len(),
                    forall|k: int| 0 <= k < list@.len() ==> (#[trigger] list@[k])@ == target[k],
                decreases core@.len() - i2,
            {
                proof {
                    assert(g.skip(i2 as int)[0] == g[i2 as int]);
                    assert(g.skip(i2 as int).drop_first() =~= g.skip(i2 as int + 1));
                    assert(concat_col(g.skip(i2 as int), j as int) == g[i2 as int][j as int]
                        + concat_col(g.skip(i2 as int + 1), j as int));
                    assert(self.carrier@[i2 as int].paths@.len() == width);
                    assert(g[i2 as int].len() == self.carrier@[i2 as int].paths@.len());
                }
                let mut k2: usize = 0;
                let bucket_len = core[i2].buckets[j].list.len();
                while k2 < bucket_len
                    invariant
                        i2 < core@.len(),
                        j < core@[i2 as int].buckets@.len(),
                        matches_records(
                            core@[i2 as int].buckets@[j as int].list@,
                            g[i2 as int][j as int],
                        ),
                        bucket_len == core@[i2 as int].buckets@[j as int].list@.len(),
                        k2 <= bucket_len,
                        target.skip(list@.len() as int) == g[i2 as int][j as int].skip(k2 as int)
                            + concat_col(g.skip(i2 as int + 1), j as int),
                        list@.len() <= target.len(),
                        forall|k: int| 0 <= k < list@.len() ==> (#[trigger] list@[k])@
                            == target[k],
                    decreases bucket_len - k2,
                {
                    proof {
                        let cell = g[i2 as int][j as int];
                        assert(cell.skip(k2 as int)[0] == cell[k2 as int]);
                        assert(target.skip(list@.len() as int).len() == target.len()
                            - list@.len());
                        assert(cell.skip(k2 as int).len() >= 1);
                        assert(list@.len() < target.len());
                        assert(target.skip(list@.len() as int)[0] == target[list@.len() as int]);
                        assert(cell.skip(k2 as int).drop_first() =~= cell.skip(k2 as int + 1));
                        assert((cell.skip(k2 as int) + concat_col(
                            g.skip(i2 as int + 1),
                            j as int,
                        )).drop_first() =~= cell.skip(k2 as int + 1) + concat_col(
                            g.skip(i2 as int + 1),
                            j as int,
                        ));
                        assert(target.skip(list@.len() as int).drop_first() =~= target.skip(
                            list@.len() as int + 1,
                        ));
                    }
                    let rec = core[i2].buckets[j].list[k2].clone();
                    list.push(rec);
                    k2 = k2 + 1;
                }
                proof {
                    assert(g[i2 as int][j as int].skip(bucket_len as int) =~= Seq::<
                        MasV,
                    >::empty());
                    assert(Seq::<MasV>::empty() + concat_col(g.skip(i2 as int + 1), j as int)
                        =~= concat_col(g.skip(i2 as int + 1), j as int));
                }
                i2 = i2 + 1;
            }
            proof {
                assert(g.skip(core@.len() as int) =~= Seq::<Seq<Seq<MasV>>>::empty());
                assert(target.skip(list@.len() as int).len() == target.len() - list@.len());
                assert(matches_records(list@, target));
            }
            data.push(TypeBucket { tipo: self.carrier[0].paths[j].name.clone(), list });
            j = j + 1;
        }
        (data, core)
    }

    /// The flat aggregate rebuilt from the by-folder-then-type aggregate:
    /// every record exactly once, in folder order, then type order, then
    /// line order.
    pub fn copy_data_into_array(&self) -> (r: Vec<Mas>)
        ensures
            matches_records(r@, grid_flat(core_views(self.core_data@))),
    {
        let ghost cv = core_views(self.core_data@);
        let ghost target = grid_flat(cv);
        let mut out: Vec<Mas> = Vec::new();
        let mut i: usize = 0;
        proof {
            assert(cv.skip(0) =~= cv);
        }
        while i < self.core_data.len()
            invariant
                cv == core_views(self.core_data@),
                target == grid_flat(cv),
                cv.len() == self.core_data@.len(),
                i <= self.core_data@.len(),
                target.skip(out@.len() as int) == grid_flat(cv.skip(i as int)),
                out@.len() <= target.len(),
                forall|k: int| 0 <= k < out@.len() ==> (#[trigger] out@[k])@ == target[k],
            decreases self.core_data@.len() - i,
        {
            proof {
                assert(cv.skip(i as int)[0] == cv[i as int]);
                assert(cv.skip(i as int).drop_first() =~= cv.skip(i as int + 1));
                assert(grid_flat(cv.skip(i as int)) == row_flat(cv[i as int]) + grid_flat(
                    cv.skip(i as int + 1),
                ));
                assert(cv[i as int] == self.core_data@[i as int].buckets@.map_values(
                    |tb: TypeBucket| tb.list@.map_values(|m: Mas| m@),
                ));
                assert(cv[i as int].skip(0) =~= cv[i as int]);
            }
            let buckets_len = self.core_data[i].buckets.len();
            let mut j: usize = 0;
            while j < buckets_len
                invariant
                    cv == core_views(self.core_data@),
                    target == grid_flat(cv),
                    i < self.core_data@.len() == cv.len(),
                    cv[i as int] == self.core_data@[i as int].buckets@.map_values(
                        |tb: TypeBucket| tb.list@.map_values(|m: Mas| m@),
                    ),
                    buckets_len == self.core_data@[i as int].buckets@.len(),
                    j <= buckets_len,
                    target.skip(out@.len() as int) == row_flat(cv[i as int].skip(j as int))
                        + grid_flat(cv.skip(i as int + 1)),
                    out@.len() <= target.len(),
                    forall|k: int| 0 <= k < out@.len() ==> (#[trigger] out@[k])@ == target[k],
                decreases buckets_len - j,
            {
                proof {
                    assert(cv[i as int].skip(j as int)[0] == cv[i as int][j as int]);
                    assert(cv[i as int].skip(j as int).drop_first() =~= cv[i as int].skip(
                        j as int + 1,
                    ));
                    assert(row_flat(cv[i as int].skip(j as int)) == cv[i as int][j as int]
                        + row_flat(cv[i as int].skip(j as int + 1)));
                    assert(cv[i as int][j as int] == self.core_data@[i as int].buckets@[
                        j as int
                    ].list@.map_values(|m: Mas| m@));
                }
                let list_len = self.core_data[i].buckets[j].list.len();
                let mut k2: usize = 0;
                while k2 < list_len
                    invariant
                        target == grid_flat(cv),
                        i < self.core_data@.len(),
                        j < self.core_data@[i as int].buckets@.len(),
                        cv[i as int][j as int] == self.core_data@[i as int].buckets@[
                            j as int
                        ].list@.map_values(|m: Mas| m@),
                        list_len == self.core_data@[i as int].buckets@[j as int].list@.len(),
                        k2 <= list_len,
                        target.skip(out@.len() as int) == cv[i as int][j as int].skip(k2 as int)
                            + (row_flat(cv[i as int].skip(j as int + 1)) + grid_flat(
                            cv.skip(i as int + 1),
                        )),
                        out@.len() <= target.len(),
                        forall|k: int| 0 <= k < out@.len() ==> (#[trigger] out@[k])@ == target[k],
                    decreases list_len - k2,
                {
                    proof {
                        let cell = cv[i as int][j as int];
                        assert(cell.skip(k2 as int)[0] == cell[k2 as int]);
                        assert(cell[k2 as int] == self.core_data@[i as int].buckets@[
                            j as int
                        ].list@[k2 as int]@);
                        assert(target.skip(out@.len() as int).len() == target.len()
                            - out@.len());
                        assert(cell.skip(k2 as int).len() >= 1);
                        assert(out@.len() < target.len());
                        assert(target.skip(out@.len() as int)[0] == target[out@.len() as int]);
                        assert(cell.skip(k2 as int).drop_first() =~= cell.skip(k2 as int + 1));
                        assert((cell.skip(k2 as int) + (row_flat(cv[i as int].skip(j as int + 1))
                            + grid_flat(cv.skip(i as int + 1)))).drop_first() =~= cell.skip(
                            k2 as int + 1,
                        ) + (row_flat(cv[i as int].skip(j as int + 1)) + grid_flat(
                            cv.skip(i as int + 1),
                        )));
                        assert(target.skip(out@.len() as int).drop_first() =~= target.skip(
                            out@.len() as int + 1,
                        ));
                    }
                    let rec = self.core_data[i].buckets[j].list[k2].clone();
                    out.push(rec);
                    k2 = k2 + 1;
                }
                proof {
                    assert(cv[i as int][j as int].skip(list_len as int) =~= Seq::<MasV>::empty());
                    assert(Seq::<MasV>::empty() + (row_flat(cv[i as int].skip(j as int + 1))
                        + grid_flat(cv.skip(i as int + 1))) =~= row_flat(cv[i as int].skip(
                        j as int + 1,
                    )) + grid_flat(cv.skip(i as int + 1)));
                }
                j = j + 1;
            }
            proof {
                assert(cv[i as int].skip(buckets_len as int) =~= Seq::<Seq<MasV>>::empty());
                assert(row_flat(Seq::<Seq<MasV>>::empty()) =~= Seq::<MasV>::empty());
                assert(Seq::<MasV>::empty() + grid_flat(cv.skip(i as int + 1)) =~= grid_flat(
                    cv.skip(i as int + 1),
                ));
            }
            i = i + 1;
        }
        proof {
            assert(cv.skip(cv.len() as int) =~= Seq::<Seq<Seq<MasV>>>::empty());
            assert(target.skip(out@.len() as int).len() == target.len() - out@.len());
        }
        out
    }

    /// Builds the three aggregate views from the file contents that the
    /// caller read, in layout order, after materialization. The store is
    /// otherwise unchanged.
    pub fn load(self, contents: &Vec<Vec<String>>) -> (r: Self)
        requires
            uniform_layout(self.carrier@),
            contents@.len() == self.carrier@.len(),
            forall|i: int| 0 <= i < contents@.len() ==> (#[trigger] contents@[i])@.len()
                == self.carrier@[i].paths@.len(),
            forall|i: int, j: int|
                0 <= i < contents@.len() && 0 <= j < contents@[i]@.len() ==> (#[trigger] contents@[i]@[j])@.len() < usize::MAX,
        ensures
            r.name == self.name,
            r.dir == self.dir,
            r.carrier == self.carrier,
            ({
                let g = records_grid(self.carrier@, contents_views(contents@));
                &&& r.core_data@.len() == self.carrier@.len()
                &&& forall|i: int|
                    0 <= i < r.core_data@.len() ==> {
                        &&& (#[trigger] r.core_data@[i]).folder@ == self.carrier@[i].folder@
                        &&& r.core_data@[i].buckets@.len() == self.carrier@[i].paths@.len()
                        &&& forall|j: int|
                            0 <= j < r.core_data@[i].buckets@.len() ==> {
                                &&& (#[trigger] r.core_data@[i].buckets@[j]).tipo@
                                    == self.carrier@[i].paths@[j].name@
                                &&& matches_records(r.core_data@[i].buckets@[j].list@, g[i][j])
                            }
                    }
                &&& r.data@.len() == layout_width(self.carrier@)
                &&& forall|j: int|
                    0 <= j < r.data@.len() ==> {
                        &&& (#[trigger] r.data@[j]).tipo@ == self.carrier@[0].paths@[j].name@
                        &&& matches_records(r.data@[j].list@, concat_col(g, j))
                    }
                &&& matches_records(r.data_all@, grid_flat(core_views(r.core_data@)))
            }),
    {
        let (data, core_data) = self.read_files_data(contents);
        let loaded = Vocabulary {
            name: self.name,
            dir: self.dir,
            carrier: self.carrier,
            data,
            data_all: Vec::new(),
            core_data,
        };
        let data_all = loaded.copy_data_into_array();
        Vocabulary {
            name: loaded.name,
            dir: loaded.dir,
            carrier: loaded.carrier,
            data: loaded.data,
            data_all,
            core_data: loaded.core_data,
        }
    }

    /// The flat aggregate, for consumers that need a single ordered list.
    pub fn flatten(&self) -> (r: &Vec<Mas>)
        ensures
            r == &self.data_all,
    {
        &self.data_all
    }
}

/// The elements of `all` that are absent from `have`, in order.
fn keep_missing(all: &Vec<String>, have: &Vec<String>) -> (r: Vec<String>)
    ensures
        views_of(r@) == missing(views_of(all@), views_of(have@)),
{
    let ghost target = missing(views_of(all@), views_of(have@));
    let mut acc: Vec<String> = Vec::new();
    let mut i: usize = 0;
    proof {
        assert(views_of(all@).skip(0) =~= views_of(all@));
    }
    while i < all.len()
        invariant
            i <= all@.len(),
            target == missing(views_of(all@), views_of(have@)),
            target.skip(acc@.len() as int) == missing(
                views_of(all@).skip(i as int),
                views_of(have@),
            ),
            acc@.len() <= target.len(),
            forall|k: int| 0 <= k < acc@.len() ==> acc@[k]@ == target[k],
        decreases all@.len() - i,
    {
        let ghost av = views_of(all@);
        proof {
            assert(av.skip(i as int)[0] == av[i as int]);
            assert(av[i as int] == all@[i as int]@);
            assert(av.skip(i as int).drop_first() =~= av.skip(i as int + 1));
        }
        if !contains_str(have, all[i].as_str()) {
            proof {
                assert(missing(av.skip(i as int), views_of(have@)) == seq![av[i as int]]
                    + missing(av.skip(i as int + 1), views_of(have@)));
                assert(target.skip(acc@.len() as int).len() == target.len() - acc@.len());
                assert(target.skip(acc@.len() as int)[0] == target[acc@.len() as int]);
                assert(target.skip(acc@.len() as int).drop_first() =~= target.skip(
                    acc@.len() as int + 1,
                ));
            }
            acc.push(all[i].clone());
        }
        i = i + 1;
    }
    proof {
        assert(views_of(all@).skip(all@.len() as int) =~= Seq::<Seq<char>>::empty());
        assert(target.skip(acc@.len() as int).len() == 0);
        assert(views_of(acc@) =~= target);
    }
    acc
}

} // verus!
