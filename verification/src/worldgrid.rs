use vstd::prelude::*;

verus! {

use crate::records::{
    CellData, CellDataV, CellKey, LandData, LandDataV, Record, RecordBodyV, RecordV, RegionData,
    RegionDataV,
};
use crate::store::IdV;
use crate::text::str_eq;
use crate::vecmap::{lemma_take_step, DeepEq, VecMap};

/// One plugin as the world-model passes see it: its numeric id, whether it
/// is enabled, and its records in file order.
#[derive(Debug)]
pub struct PluginData {
    pub id: u64,
    pub enabled: bool,
    pub records: Vec<Record>,
}

#[verifier::ext_equal]
pub ghost struct PluginDataV {
    pub id: u64,
    pub enabled: bool,
    pub records: Seq<RecordV>,
}

impl DeepView for PluginData {
    type V = PluginDataV;

    open spec fn deep_view(&self) -> PluginDataV {
        PluginDataV { id: self.id, enabled: self.enabled, records: self.records.deep_view() }
    }
}

/// A record paired with the id of the plugin that carries it.
pub type PRec = (u64, RecordV);

/// A plugin's records, each paired with the plugin's id.
pub open spec fn tagged(id: u64, rs: Seq<RecordV>) -> Seq<PRec> {
    rs.map_values(|r: RecordV| (id, r))
}

/// The records of the enabled plugins, in ascending load order and file
/// order, each paired with its plugin's id.
pub open spec fn enabled_flat(ps: Seq<PluginDataV>) -> Seq<PRec>
    decreases ps.len(),
{
    if ps.len() == 0 {
        Seq::empty()
    } else {
        enabled_flat(ps.drop_last()) + if ps.last().enabled {
            tagged(ps.last().id, ps.last().records)
        } else {
            Seq::empty()
        }
    }
}

/// The cell payload of a record, when its tag and its shape agree.
pub open spec fn cell_of(r: RecordV) -> Option<CellDataV> {
    if r.tag == "CELL"@ {
        match r.body {
            RecordBodyV::Cell(c) => Some(c),
            _ => None,
        }
    } else {
        None
    }
}

/// The exterior-cell payload of a record; interior cells take no part in
/// the spatial model.
pub open spec fn ext_cell_of(r: RecordV) -> Option<CellDataV> {
    match cell_of(r) {
        Some(c) => if c.is_interior {
            None
        } else {
            Some(c)
        },
        None => None,
    }
}

/// The landscape payload of a record, when its tag and its shape agree.
pub open spec fn land_of(r: RecordV) -> Option<LandDataV> {
    if r.tag == "LAND"@ {
        match r.body {
            RecordBodyV::Landscape(l) => Some(l),
            _ => None,
        }
    } else {
        None
    }
}

/// The region payload of a record, when its tag and its shape agree.
pub open spec fn region_of(r: RecordV) -> Option<RegionDataV> {
    if r.tag == "REGN"@ {
        match r.body {
            RecordBodyV::Region(g) => Some(g),
            _ => None,
        }
    } else {
        None
    }
}

/// The grid coordinate of a cell payload.
pub open spec fn cell_key_of(c: CellDataV) -> CellKey {
    CellKey { x: c.x, y: c.y }
}

/// The grid coordinate of a landscape payload.
pub open spec fn land_key_of(l: LandDataV) -> CellKey {
    CellKey { x: l.x, y: l.y }
}

/// The merged cell map: every exterior cell record is keyed by its grid
/// coordinate, and a later record overwrites an earlier one.
pub open spec fn cells_fold(s: Seq<PRec>) -> Map<CellKey, CellDataV>
    decreases s.len(),
{
    if s.len() == 0 {
        Map::empty()
    } else {
        let m = cells_fold(s.drop_last());
        match ext_cell_of(s.last().1) {
            Some(c) => m.insert(cell_key_of(c), c),
            None => m,
        }
    }
}

/// The merged landscape map, symmetric to `cells_fold`.
pub open spec fn lands_fold(s: Seq<PRec>) -> Map<CellKey, LandDataV>
    decreases s.len(),
{
    if s.len() == 0 {
        Map::empty()
    } else {
        let m = lands_fold(s.drop_last());
        match land_of(s.last().1) {
            Some(l) => m.insert(land_key_of(l), l),
            None => m,
        }
    }
}

/// The merged region map, keyed by the region's own id.
pub open spec fn regions_fold(s: Seq<PRec>) -> Map<Seq<char>, RegionDataV>
    decreases s.len(),
{
    if s.len() == 0 {
        Map::empty()
    } else {
        let m = regions_fold(s.drop_last());
        match region_of(s.last().1) {
            Some(g) => m.insert(g.id, g),
            None => m,
        }
    }
}

/// The reverse lookup from a cell record's identity to its grid coordinate.
pub open spec fn cell_ids_fold(s: Seq<PRec>) -> Map<IdV, CellKey>
    decreases s.len(),
{
    if s.len() == 0 {
        Map::empty()
    } else {
        let m = cell_ids_fold(s.drop_last());
        match ext_cell_of(s.last().1) {
            Some(c) => m.insert((s.last().1.tag, s.last().1.id), cell_key_of(c)),
            None => m,
        }
    }
}

/// The reverse lookup from a landscape record's identity to its coordinate.
pub open spec fn land_ids_fold(s: Seq<PRec>) -> Map<IdV, CellKey>
    decreases s.len(),
{
    if s.len() == 0 {
        Map::empty()
    } else {
        let m = land_ids_fold(s.drop_last());
        match land_of(s.last().1) {
            Some(l) => m.insert((s.last().1.tag, s.last().1.id), land_key_of(l)),
            None => m,
        }
    }
}

/// The plugin ids whose exterior cell records touch the given coordinate,
/// one entry per record, in scan order.
pub open spec fn conf_list(s: Seq<PRec>, k: CellKey) -> Seq<u64>
    decreases s.len(),
{
    if s.len() == 0 {
        Seq::empty()
    } else {
        conf_list(s.drop_last(), k) + match ext_cell_of(s.last().1) {
            Some(c) => if cell_key_of(c) == k {
                seq![s.last().0]
            } else {
                Seq::<u64>::empty()
            },
            None => Seq::<u64>::empty(),
        }
    }
}

/// The world extents: empty until the first exterior cell is inserted,
/// then the smallest box around every inserted coordinate.
#[derive(Clone, Copy, PartialEq, Eq, Structural, Debug)]
pub enum Bounds {
    Empty,
    Box { min_x: i32, max_x: i32, min_y: i32, max_y: i32 },
}

impl Bounds {
    /// Whether the coordinate lies inside the bounds.
    pub open spec fn encloses(self, k: CellKey) -> bool {
        match self {
            Bounds::Empty => false,
            Bounds::Box { min_x, max_x, min_y, max_y } => min_x <= k.x <= max_x && min_y <= k.y
                <= max_y,
        }
    }

    /// The bounds widened just enough to enclose the coordinate.
    pub open spec fn spec_widen(self, k: CellKey) -> Bounds {
        match self {
            Bounds::Empty => Bounds::Box { min_x: k.x, max_x: k.x, min_y: k.y, max_y: k.y },
            Bounds::Box { min_x, max_x, min_y, max_y } => Bounds::Box {
                min_x: if k.x < min_x {
                    k.x
                } else {
                    min_x
                },
                max_x: if k.x > max_x {
                    k.x
                } else {
                    max_x
                },
                min_y: if k.y < min_y {
                    k.y
                } else {
                    min_y
                },
                max_y: if k.y > max_y {
                    k.y
                } else {
                    max_y
                },
            },
        }
    }

    /// Widens the bounds to enclose the coordinate.
    pub fn widen(self, k: CellKey) -> (r: Bounds)
        ensures
            r == self.spec_widen(k),
    {
        match self {
            Bounds::Empty => Bounds::Box { min_x: k.x, max_x: k.x, min_y: k.y, max_y: k.y },
            Bounds::Box { min_x, max_x, min_y, max_y } => Bounds::Box {
                min_x: if k.x < min_x {
                    k.x
                } else {
                    min_x
                },
                max_x: if k.x > max_x {
                    k.x
                } else {
                    max_x
                },
                min_y: if k.y < min_y {
                    k.y
                } else {
                    min_y
                },
                max_y: if k.y > max_y {
                    k.y
                } else {
                    max_y
                },
            },
        }
    }
}

/// The bounds after every exterior cell record of the stream has widened
/// the given starting bounds.
pub open spec fn bounds_fold(s: Seq<PRec>, b: Bounds) -> Bounds
    decreases s.len(),
{
    if s.len() == 0 {
        b
    } else {
        let b2 = bounds_fold(s.drop_last(), b);
        match ext_cell_of(s.last().1) {
            Some(c) => b2.spec_widen(cell_key_of(c)),
            None => b2,
        }
    }
}

/// Law: widening never shrinks — every coordinate the old bounds enclosed
/// is still enclosed, and the widened-to coordinate is too.
pub proof fn lemma_widen_never_shrinks(b: Bounds, k: CellKey, k2: CellKey)
    ensures
        b.spec_widen(k).encloses(k),
        b.encloses(k2) ==> b.spec_widen(k).encloses(k2),
{
}

/// Law: folding more records over the bounds never shrinks them.
pub proof fn lemma_bounds_fold_grows(s: Seq<PRec>, b: Bounds, k2: CellKey)
    ensures
        b.encloses(k2) ==> bounds_fold(s, b).encloses(k2),
    decreases s.len(),
{
    if s.len() > 0 {
        lemma_bounds_fold_grows(s.drop_last(), b, k2);
        match ext_cell_of(s.last().1) {
            Some(c) => {
                lemma_widen_never_shrinks(bounds_fold(s.drop_last(), b), cell_key_of(c), k2);
            },
            None => {},
        }
    }
}

/// Law (bounds monotonicity): after any record stream is folded in, the
/// bounds enclose the coordinate of every exterior cell record in it.
pub proof fn lemma_bounds_enclose_all(s: Seq<PRec>, b: Bounds, i: int)
    requires
        0 <= i < s.len(),
        ext_cell_of(s[i].1) is Some,
    ensures
        bounds_fold(s, b).encloses(cell_key_of(ext_cell_of(s[i].1)->Some_0)),
    decreases s.len(),
{
    let k = cell_key_of(ext_cell_of(s[i].1)->Some_0);
    if i == s.len() - 1 {
        lemma_widen_never_shrinks(bounds_fold(s.drop_last(), b), k, k);
    } else {
        assert(s.drop_last()[i] == s[i]);
        lemma_bounds_enclose_all(s.drop_last(), b, i);
        match ext_cell_of(s.last().1) {
            Some(c) => {
                lemma_widen_never_shrinks(bounds_fold(s.drop_last(), b), cell_key_of(c), k);
            },
            None => {},
        }
    }
}

/// Folding a concatenated stream folds its parts in turn.
pub proof fn lemma_bounds_fold_append(a: Seq<PRec>, b: Seq<PRec>, init: Bounds)
    ensures
        bounds_fold(a + b, init) == bounds_fold(b, bounds_fold(a, init)),
    decreases b.len(),
{
    if b.len() == 0 {
        assert(a + b =~= a);
    } else {
        assert((a + b).drop_last() =~= a + b.drop_last());
        assert((a + b).last() == b.last());
        lemma_bounds_fold_append(a, b.drop_last(), init);
    }
}

/// Law (bounds monotonicity, grid form): the built bounds enclose the
/// coordinate of every exterior cell record of every enabled plugin.
pub proof fn lemma_grid_bounds_cover(ps: Seq<PluginDataV>, i: int, j: int)
    requires
        0 <= i < ps.len(),
        ps[i].enabled,
        0 <= j < ps[i].records.len(),
        ext_cell_of(ps[i].records[j]) is Some,
    ensures
        bounds_fold(enabled_flat(ps), Bounds::Empty).encloses(
            cell_key_of(ext_cell_of(ps[i].records[j])->Some_0),
        ),
    decreases ps.len(),
{
    let k = cell_key_of(ext_cell_of(ps[i].records[j])->Some_0);
    if i == ps.len() - 1 {
        let pre = enabled_flat(ps.drop_last());
        let tail = tagged(ps[i].id, ps[i].records);
        assert(ps.last() == ps[i]);
        assert(enabled_flat(ps) == pre + tail);
        let x = pre.len() + j;
        assert((pre + tail)[x] == tail[j]);
        assert(tail[j].1 == ps[i].records[j]);
        lemma_bounds_enclose_all(enabled_flat(ps), Bounds::Empty, x);
    } else {
        assert(ps.drop_last()[i] == ps[i]);
        lemma_grid_bounds_cover(ps.drop_last(), i, j);
        let pre = enabled_flat(ps.drop_last());
        let tail = if ps.last().enabled {
            tagged(ps.last().id, ps.last().records)
        } else {
            Seq::<PRec>::empty()
        };
        assert(enabled_flat(ps) == pre + tail);
        lemma_bounds_fold_append(pre, tail, Bounds::Empty);
        lemma_bounds_fold_grows(tail, bounds_fold(pre, Bounds::Empty), k);
    }
}

/// The merged exterior world model built from the enabled plugins: the
/// cell, landscape and region maps, the reverse identity lookups, the
/// per-coordinate conflict lists, and the world bounds.
pub struct WorldGrid {
    cells: VecMap<CellKey, CellData>,
    lands: VecMap<CellKey, LandData>,
    regions: VecMap<String, RegionData>,
    cell_ids: VecMap<crate::records::RecordIdentity, CellKey>,
    land_ids: VecMap<crate::records::RecordIdentity, CellKey>,
    conflicts: VecMap<CellKey, Vec<u64>>,
    bounds: Bounds,
}

impl WorldGrid {
    pub closed spec fn cells_map(&self) -> Map<CellKey, CellDataV> {
        self.cells@
    }

    pub closed spec fn lands_map(&self) -> Map<CellKey, LandDataV> {
        self.lands@
    }

    pub closed spec fn regions_map(&self) -> Map<Seq<char>, RegionDataV> {
        self.regions@
    }

    pub closed spec fn cell_ids_map(&self) -> Map<IdV, CellKey> {
        self.cell_ids@
    }

    pub closed spec fn land_ids_map(&self) -> Map<IdV, CellKey> {
        self.land_ids@
    }

    pub closed spec fn conflicts_map(&self) -> Map<CellKey, Seq<u64>> {
        self.conflicts@
    }

    pub closed spec fn spec_bounds(&self) -> Bounds {
        self.bounds
    }

    pub closed spec fn wf(&self) -> bool {
        &&& self.cells.wf()
        &&& self.lands.wf()
        &&& self.regions.wf()
        &&& self.cell_ids.wf()
        &&& self.land_ids.wf()
        &&& self.conflicts.wf()
    }

    pub fn bounds(&self) -> (r: Bounds)
        ensures
            r == self.spec_bounds(),
    {
        self.bounds
    }

    /// The merged cell at the coordinate, if any enabled plugin defines one.
    pub fn get_cell(&self, k: &CellKey) -> (r: Option<&CellData>)
        requires
            self.wf(),
        ensures
            match r {
                Some(c) => self.cells_map().dom().contains(*k) && c.deep_view()
                    == self.cells_map()[*k],
                None => !self.cells_map().dom().contains(*k),
            },
    {
        self.cells.get(k)
    }

    /// The merged landscape at the coordinate.
    pub fn get_landscape(&self, k: &CellKey) -> (r: Option<&LandData>)
        requires
            self.wf(),
        ensures
            match r {
                Some(l) => self.lands_map().dom().contains(*k) && l.deep_view()
                    == self.lands_map()[*k],
                None => !self.lands_map().dom().contains(*k),
            },
    {
        self.lands.get(k)
    }

    /// The merged region under the given region id.
    pub fn get_region(&self, id: &String) -> (r: Option<&RegionData>)
        requires
            self.wf(),
        ensures
            match r {
                Some(g) => self.regions_map().dom().contains(id@) && g.deep_view()
                    == self.regions_map()[id@],
                None => !self.regions_map().dom().contains(id@),
            },
    {
        self.regions.get(id)
    }

    /// The conflict list at the coordinate, present only where two or more
    /// enabled plugin records touch it.
    pub fn get_conflicts(&self, k: &CellKey) -> (r: Option<&Vec<u64>>)
        requires
            self.wf(),
        ensures
            match r {
                Some(v) => self.conflicts_map().dom().contains(*k) && v.deep_view()
                    == self.conflicts_map()[*k],
                None => !self.conflicts_map().dom().contains(*k),
            },
    {
        self.conflicts.get(k)
    }

    /// The coordinate a cell record's identity resolves to.
    pub fn cell_key_for(&self, id: &crate::records::RecordIdentity) -> (r: Option<&CellKey>)
        requires
            self.wf(),
        ensures
            match r {
                Some(k) => self.cell_ids_map().dom().contains(id.deep_view()) && *k
                    == self.cell_ids_map()[id.deep_view()],
                None => !self.cell_ids_map().dom().contains(id.deep_view()),
            },
    {
        self.cell_ids.get(id)
    }

    /// The coordinate a landscape record's identity resolves to.
    pub fn land_key_for(&self, id: &crate::records::RecordIdentity) -> (r: Option<&CellKey>)
        requires
            self.wf(),
        ensures
            match r {
                Some(k) => self.land_ids_map().dom().contains(id.deep_view()) && *k
                    == self.land_ids_map()[id.deep_view()],
                None => !self.land_ids_map().dom().contains(id.deep_view()),
            },
    {
        self.land_ids.get(id)
    }

    /// Merges the exterior cell, landscape and region records of the
    /// enabled plugins, in ascending load order, into one world grid.
    pub fn build(plugins: &Vec<PluginData>) -> (g: WorldGrid)
        ensures
            g.wf(),
            g.cells_map() == cells_fold(enabled_flat(plugins.deep_view())),
            g.lands_map() == lands_fold(enabled_flat(plugins.deep_view())),
            g.regions_map() == regions_fold(enabled_flat(plugins.deep_view())),
            g.cell_ids_map() == cell_ids_fold(enabled_flat(plugins.deep_view())),
            g.land_ids_map() == land_ids_fold(enabled_flat(plugins.deep_view())),
            g.spec_bounds() == bounds_fold(enabled_flat(plugins.deep_view()), Bounds::Empty),
            forall|k: CellKey| #[trigger]
                g.conflicts_map().dom().contains(k) <==> conf_list(
                    enabled_flat(plugins.deep_view()),
                    k,
                ).len() >= 2,
            forall|k: CellKey| #[trigger] g.conflicts_map().dom().contains(k)
                ==> g.conflicts_map()[k] == conf_list(enabled_flat(plugins.deep_view()), k),
    {
        let ghost ps = plugins.deep_view();
        let mut cells: VecMap<CellKey, CellData> = VecMap::new();
        let mut lands: VecMap<CellKey, LandData> = VecMap::new();
        let mut regions: VecMap<String, RegionData> = VecMap::new();
        let mut cell_ids: VecMap<crate::records::RecordIdentity, CellKey> = VecMap::new();
        let mut land_ids: VecMap<crate::records::RecordIdentity, CellKey> = VecMap::new();
        let mut conf: VecMap<CellKey, Vec<u64>> = VecMap::new();
        let mut bounds = Bounds::Empty;
        let n = plugins.len();
        let mut i: usize = 0;
        while i < n
            invariant
                n == plugins@.len(),
                ps == plugins.deep_view(),
                i <= n,
                cells.wf(),
                lands.wf(),
                regions.wf(),
                cell_ids.wf(),
                land_ids.wf(),
                conf.wf(),
                cells@ == cells_fold(enabled_flat(ps.take(i as int))),
                lands@ == lands_fold(enabled_flat(ps.take(i as int))),
                regions@ == regions_fold(enabled_flat(ps.take(i as int))),
                cell_ids@ == cell_ids_fold(enabled_flat(ps.take(i as int))),
                land_ids@ == land_ids_fold(enabled_flat(ps.take(i as int))),
                bounds == bounds_fold(enabled_flat(ps.take(i as int)), Bounds::Empty),
                forall|k: CellKey| #[trigger]
                    conf@.dom().contains(k) <==> conf_list(
                        enabled_flat(ps.take(i as int)),
                        k,
                    ).len() >= 1,
                forall|k: CellKey| #[trigger] conf@.dom().contains(k) ==> conf@[k] == conf_list(
                    enabled_flat(ps.take(i as int)),
                    k,
                ),
            decreases n - i,
        {
            let plugin = &plugins[i];
            proof {
                assert(plugin.deep_view() == ps[i as int]);
            }
            if plugin.enabled {
                let pid = plugin.id;
                let m = plugin.records.len();
                let ghost rs = plugin.records.deep_view();
                let ghost before = enabled_flat(ps.take(i as int));
                let mut j: usize = 0;
                proof {
                    assert(tagged(pid, rs.take(0)) =~= Seq::<PRec>::empty());
                    assert(before + tagged(pid, rs.take(0)) =~= before);
                }
                while j < m
                    invariant
                        n == plugins@.len(),
                        ps == plugins.deep_view(),
                        i < n,
                        plugin == &plugins[i as int],
                        plugin.deep_view() == ps[i as int],
                        ps[i as int].enabled,
                        pid == ps[i as int].id,
                        m == plugin.records@.len(),
                        rs == plugin.records.deep_view(),
                        before == enabled_flat(ps.take(i as int)),
                        j <= m,
                        cells.wf(),
                        lands.wf(),
                        regions.wf(),
                        cell_ids.wf(),
                        land_ids.wf(),
                        conf.wf(),
                        cells@ == cells_fold(before + tagged(pid, rs.take(j as int))),
                        lands@ == lands_fold(before + tagged(pid, rs.take(j as int))),
                        regions@ == regions_fold(before + tagged(pid, rs.take(j as int))),
                        cell_ids@ == cell_ids_fold(before + tagged(pid, rs.take(j as int))),
                        land_ids@ == land_ids_fold(before + tagged(pid, rs.take(j as int))),
                        bounds == bounds_fold(before + tagged(pid, rs.take(j as int)), Bounds::Empty),
                        forall|k: CellKey| #[trigger]
                            conf@.dom().contains(k) <==> conf_list(
                                before + tagged(pid, rs.take(j as int)),
                                k,
                            ).len() >= 1,
                        forall|k: CellKey| #[trigger] conf@.dom().contains(k) ==> conf@[k]
                            == conf_list(before + tagged(pid, rs.take(j as int)), k),
                    decreases m - j,
                {
                    let ghost cur = before + tagged(pid, rs.take(j as int));
                    let ghost next = before + tagged(pid, rs.take(j + 1));
                    proof {
                        assert(next.drop_last() =~= cur);
                        assert(next.last() == (pid, rs[j as int]));
                    }
                    let rec = &plugin.records[j];
                    proof {
                        assert(rec.deep_view() == rs[j as int]);
                        reveal_strlit("CELL");
                        reveal_strlit("LAND");
                        reveal_strlit("REGN");
                        assert("CELL"@[0] == 'C' && "LAND"@[0] == 'L' && "REGN"@[0] == 'R');
                        assert("CELL"@ != "LAND"@ && "CELL"@ != "REGN"@ && "LAND"@ != "REGN"@);
                    }
                    if str_eq(rec.tag.as_str(), "CELL") {
                        match rec.as_cell() {
                            Ok(cd) => {
                                if !cd.is_interior {
                                    let k = cd.key();
                                    proof {
                                        assert(ext_cell_of(rs[j as int]) == Some(cd.deep_view()));
                                        assert(cell_key_of(cd.deep_view()) == k);
                                        assert(land_of(rs[j as int]) is None);
                                        assert(region_of(rs[j as int]) is None);
                                    }
                                    bounds = bounds.widen(k);
                                    let mut list: Vec<u64> = match conf.get(&k) {
                                        Some(v) => v.dup(),
                                        None => Vec::new(),
                                    };
                                    list.push(pid);
                                    proof {
                                        if !conf@.dom().contains(k) {
                                            assert(conf_list(cur, k).len() == 0);
                                            assert(conf_list(cur, k) =~= Seq::<u64>::empty());
                                            assert(list.deep_view() =~= conf_list(cur, k) + seq![
                                                pid,
                                            ]);
                                        } else {
                                            assert(list.deep_view() =~= conf_list(cur, k) + seq![
                                                pid,
                                            ]);
                                        }
                                    }
                                    conf.insert(k, list);
                                    cells.insert(k, cd.dup());
                                    cell_ids.insert(rec.identity(), k);
                                } else {
                                    proof {
                                        assert(ext_cell_of(rs[j as int]) is None);
                                        assert(land_of(rs[j as int]) is None);
                                        assert(region_of(rs[j as int]) is None);
                                    }
                                }
                            },
                            Err(_) => {
                                proof {
                                    assert(ext_cell_of(rs[j as int]) is None);
                                    assert(land_of(rs[j as int]) is None);
                                    assert(region_of(rs[j as int]) is None);
                                }
                            },
                        }
                    } else if str_eq(rec.tag.as_str(), "LAND") {
                        match rec.as_landscape() {
                            Ok(ld) => {
                                let k = ld.key();
                                proof {
                                    assert(land_of(rs[j as int]) == Some(ld.deep_view()));
                                    assert(cell_of(rs[j as int]) is None);
                                    assert(region_of(rs[j as int]) is None);
                                }
                                lands.insert(k, ld.dup());
                                land_ids.insert(rec.identity(), k);
                            },
                            Err(_) => {
                                proof {
                                    assert(land_of(rs[j as int]) is None);
                                    assert(cell_of(rs[j as int]) is None);
                                    assert(region_of(rs[j as int]) is None);
                                }
                            },
                        }
                    } else if str_eq(rec.tag.as_str(), "REGN") {
                        match rec.as_region() {
                            Ok(gd) => {
                                proof {
                                    assert(region_of(rs[j as int]) == Some(gd.deep_view()));
                                    assert(cell_of(rs[j as int]) is None);
                                    assert(land_of(rs[j as int]) is None);
                                }
                                regions.insert(gd.id.clone(), gd.dup());
                            },
                            Err(_) => {
                                proof {
                                    assert(region_of(rs[j as int]) is None);
                                    assert(cell_of(rs[j as int]) is None);
                                    assert(land_of(rs[j as int]) is None);
                                }
                            },
                        }
                    } else {
                        proof {
                            assert(cell_of(rs[j as int]) is None);
                            assert(land_of(rs[j as int]) is None);
                            assert(region_of(rs[j as int]) is None);
                        }
                    }
                    proof {
                        assert forall|k: CellKey| #[trigger] conf_list(next, k) == conf_list(cur, k)
                            + match ext_cell_of(rs[j as int]) {
                            Some(c) => if cell_key_of(c) == k {
                                seq![pid]
                            } else {
                                Seq::<u64>::empty()
                            },
                            None => Seq::<u64>::empty(),
                        } by {}
                        if ext_cell_of(rs[j as int]) is None {
                            assert forall|k: CellKey| #[trigger] conf_list(next, k) =~= conf_list(
                                cur,
                                k,
                            ) by {}
                        } else {
                            let c = ext_cell_of(rs[j as int])->Some_0;
                            assert forall|k: CellKey| k != cell_key_of(c) implies #[trigger]
                                conf_list(next, k) =~= conf_list(cur, k) by {}
                        }
                    }
                    j = j + 1;
                }
                proof {
                    assert(rs.take(m as int) =~= rs);
                    assert(ps.take(i + 1).drop_last() =~= ps.take(i as int));
                    assert(ps.take(i + 1).last() == ps[i as int]);
                    assert(enabled_flat(ps.take(i + 1)) == enabled_flat(ps.take(i as int)) + tagged(
                        pid,
                        rs,
                    ));
                }
            } else {
                proof {
                    assert(ps.take(i + 1).drop_last() =~= ps.take(i as int));
                    assert(ps.take(i + 1).last() == ps[i as int]);
                    assert(enabled_flat(ps.take(i + 1)) =~= enabled_flat(ps.take(i as int))
                        + Seq::<PRec>::empty());
                    assert(enabled_flat(ps.take(i + 1)) =~= enabled_flat(ps.take(i as int)));
                    assert forall|k: CellKey| #[trigger] conf_list(
                        enabled_flat(ps.take(i + 1)),
                        k,
                    ) == conf_list(enabled_flat(ps.take(i as int)), k) by {}
                }
            }
            i = i + 1;
        }
        proof {
            assert(ps.take(n as int) =~= ps);
        }
        // keep only the coordinates that two or more records touched
        let ghost flat = enabled_flat(ps);
        let mut conflicts: VecMap<CellKey, Vec<u64>> = VecMap::new();
        proof {
            conf.lemma_entries();
        }
        let total = conf.len();
        let mut t: usize = 0;
        while t < total
            invariant
                total as nat == conf.spec_len(),
                t <= total,
                conf.wf(),
                conflicts.wf(),
                forall|k: CellKey| #[trigger]
                    conf@.dom().contains(k) <==> conf_list(flat, k).len() >= 1,
                forall|k: CellKey| #[trigger] conf@.dom().contains(k) ==> conf@[k] == conf_list(
                    flat,
                    k,
                ),
                forall|k: CellKey| #[trigger]
                    conflicts@.dom().contains(k) <==> (conf.key_seq().take(t as int).contains(k)
                        && conf@[k].len() >= 2),
                forall|k: CellKey| #[trigger] conflicts@.dom().contains(k) ==> conflicts@[k]
                    == conf@[k],
            decreases total - t,
        {
            let key = conf.key_at(t);
            let val = conf.val_at(t);
            proof {
                lemma_take_step(conf.key_seq(), t as int);
            }
            if val.len() >= 2 {
                conflicts.insert(key.dup(), val.dup());
            }
            t = t + 1;
        }
        proof {
            conf.lemma_entries();
            assert(conf.key_seq().take(total as int) =~= conf.key_seq());
            assert forall|k: CellKey| #[trigger] conflicts@.dom().contains(k) <==> conf_list(
                flat,
                k,
            ).len() >= 2 by {
                if conf_list(flat, k).len() >= 2 {
                    assert(conf@.dom().contains(k));
                    assert(conf.key_seq().contains(k));
                }
            }
        }
        WorldGrid { cells, lands, regions, cell_ids, land_ids, conflicts, bounds }
    }
}

/// Law (load-order override): with two enabled plugins at ranks 0 and 1
/// that both define a coordinate, the merged cell at that coordinate is
/// the one the later plugin defines.
pub proof fn lemma_load_order_override(ps: Seq<PluginDataV>, k: CellKey)
    requires
        ps.len() == 2,
        ps[0].enabled,
        ps[1].enabled,
        cells_fold(tagged(ps[1].id, ps[1].records)).dom().contains(k),
    ensures
        cells_fold(enabled_flat(ps)).dom().contains(k),
        cells_fold(enabled_flat(ps))[k] == cells_fold(tagged(ps[1].id, ps[1].records))[k],
{
    let first = tagged(ps[0].id, ps[0].records);
    let second = tagged(ps[1].id, ps[1].records);
    let dl = ps.drop_last();
    assert(dl.drop_last() =~= Seq::<PluginDataV>::empty());
    assert(enabled_flat(dl.drop_last()) =~= Seq::<PRec>::empty());
    assert(dl.last() == ps[0]);
    assert(enabled_flat(dl) =~= Seq::<PRec>::empty() + first);
    assert(enabled_flat(dl) =~= first);
    assert(ps.last() == ps[1]);
    assert(enabled_flat(ps) =~= first + second);
    lemma_cells_fold_append(first, second, k);
}

/// How the merged cell map of a concatenated stream reads: the later part
/// wins wherever it defines the coordinate.
pub proof fn lemma_cells_fold_append(s1: Seq<PRec>, s2: Seq<PRec>, k: CellKey)
    ensures
        cells_fold(s1 + s2).dom().contains(k) <==> (cells_fold(s1).dom().contains(k) || cells_fold(
            s2,
        ).dom().contains(k)),
        cells_fold(s1 + s2).dom().contains(k) ==> cells_fold(s1 + s2)[k] == if cells_fold(
            s2,
        ).dom().contains(k) {
            cells_fold(s2)[k]
        } else {
            cells_fold(s1)[k]
        },
    decreases s2.len(),
{
    if s2.len() == 0 {
        assert(s1 + s2 =~= s1);
    } else {
        assert((s1 + s2).drop_last() =~= s1 + s2.drop_last());
        assert((s1 + s2).last() == s2.last());
        lemma_cells_fold_append(s1, s2.drop_last(), k);
    }
}

} // verus!
