use vstd::prelude::*;

verus! {

use crate::records::{CellKey, NpcData, NpcDataV, RecordBodyV, RecordV, TravelDest};
use crate::text::str_eq;
use crate::vecmap::{distinct_seq, lemma_take_step, DeepEq, VecMap};
use crate::worldgrid::{cell_key_of, enabled_flat, ext_cell_of, PRec, PluginData, PluginDataV};

/// Membership of an element in a vector, decided on deep views.
pub fn vec_contains<T: DeepEq>(v: &Vec<T>, x: &T) -> (r: bool)
    ensures
        r == v.deep_view().contains(x.deep_view()),
{
    let n = v.len();
    let mut i: usize = 0;
    while i < n
        invariant
            n == v@.len(),
            i <= n,
            forall|j: int| 0 <= j < i ==> v.deep_view()[j] != x.deep_view(),
        decreases n - i,
    {
        if v[i].deq(x) {
            proof {
                assert(v.deep_view()[i as int] == x.deep_view());
            }
            return true;
        }
        i = i + 1;
    }
    false
}

/// The size of one exterior cell in world units.
pub const CELL_SIZE: i64 = 8192;

/// The grid coordinate a world translation falls in: the translation
/// divided by the cell size, floored toward negative infinity, clamped to
/// the coordinate range.
pub open spec fn dest_coord(t: i64) -> i32 {
    let q: int = (t as int) / (CELL_SIZE as int);
    if q > i32::MAX as int {
        i32::MAX
    } else if q < i32::MIN as int {
        i32::MIN
    } else {
        q as i32
    }
}

/// The cell a travel destination points into.
pub open spec fn dest_cell(d: TravelDest) -> CellKey {
    CellKey { x: dest_coord(d.x), y: dest_coord(d.y) }
}

fn coord_for(t: i64) -> (r: i32)
    ensures
        r == dest_coord(t),
{
    let q: i64 = if t >= 0 {
        let m = t as u64;
        let d = m / 8192u64;
        proof {
            assert(d <= m) by (nonlinear_arith)
                requires
                    d == m / 8192u64,
            ;
        }
        d as i64
    } else {
        // for a negative translation the floor is the negated ceiling of
        // the magnitude's quotient
        let m: u64 = ((-(t + 1)) as u64) + 1;
        let d = m / 8192u64;
        let rem = m % 8192u64;
        proof {
            assert(m as int == -(t as int));
            assert(d < 0x2000_0000_0000_0000u64) by (nonlinear_arith)
                requires
                    d == m / 8192u64,
            ;
            assert(m as int == 8192 * (d as int) + (rem as int) && 0 <= rem < 8192)
                by (nonlinear_arith)
                requires
                    d == m / 8192u64,
                    rem == m % 8192u64,
            ;
            if rem == 0 {
                assert((t as int) == 8192 * (-(d as int)) + 0);
                assert((t as int) / 8192 == -(d as int)) by (nonlinear_arith)
                    requires
                        (t as int) == 8192 * (-(d as int)),
                ;
            } else {
                assert((t as int) == 8192 * (-(d as int) - 1) + (8192 - (rem as int)));
                assert((t as int) / 8192 == -(d as int) - 1) by (nonlinear_arith)
                    requires
                        (t as int) == 8192 * (-(d as int) - 1) + (8192 - (rem as int)),
                        0 < 8192 - (rem as int) < 8192,
                ;
            }
        }
        if rem == 0 {
            -(d as i64)
        } else {
            -(d as i64) - 1
        }
    };
    if q > i32::MAX as i64 {
        i32::MAX
    } else if q < i32::MIN as i64 {
        i32::MIN
    } else {
        q as i32
    }
}

/// The cell a travel destination points into.
pub fn dest_cell_key(d: &TravelDest) -> (r: CellKey)
    ensures
        r == dest_cell(d.deep_view()),
{
    CellKey { x: coord_for(d.x), y: coord_for(d.y) }
}

/// The payload of a record that feeds the travel graph: a non-player
/// character with at least one travel destination.
pub open spec fn travel_npc_of(r: RecordV) -> Option<NpcDataV> {
    if r.tag == "NPC_"@ {
        match r.body {
            RecordBodyV::Npc(n) => if n.travel_destinations.len() > 0 {
                Some(n)
            } else {
                None
            },
            _ => None,
        }
    } else {
        None
    }
}

/// First pass: every travelling character, keyed by editor id; a later
/// record under the same id wins.
pub open spec fn npc_map_fold(s: Seq<PRec>) -> Map<Seq<char>, NpcDataV>
    decreases s.len(),
{
    if s.len() == 0 {
        Map::empty()
    } else {
        let m = npc_map_fold(s.drop_last());
        match travel_npc_of(s.last().1) {
            Some(n) => m.insert(s.last().1.id, n),
            None => m,
        }
    }
}

/// The ids of the travelling characters in order of first sight.
pub open spec fn npc_keys_fold(s: Seq<PRec>) -> Seq<Seq<char>>
    decreases s.len(),
{
    if s.len() == 0 {
        Seq::empty()
    } else {
        let ks = npc_keys_fold(s.drop_last());
        match travel_npc_of(s.last().1) {
            Some(n) => if ks.contains(s.last().1.id) {
                ks
            } else {
                ks.push(s.last().1.id)
            },
            None => ks,
        }
    }
}

/// Second pass: the host cell of each travelling character — the last
/// exterior cell record whose reference list names the character.
pub open spec fn hosts_fold(s: Seq<PRec>, npcs: Set<Seq<char>>) -> Map<Seq<char>, CellKey>
    decreases s.len(),
{
    if s.len() == 0 {
        Map::empty()
    } else {
        let h = hosts_fold(s.drop_last(), npcs);
        match ext_cell_of(s.last().1) {
            Some(c) => Map::new(
                |n: Seq<char>| h.dom().contains(n) || (npcs.contains(n) && c.refs.contains(n)),
                |n: Seq<char>|
                    if npcs.contains(n) && c.refs.contains(n) {
                        cell_key_of(c)
                    } else {
                        h[n]
                    },
            ),
            None => h,
        }
    }
}

/// An undirected travel link between two cells, stored as the ordered pair
/// in which it was first seen.
#[derive(Clone, Copy, PartialEq, Eq, Structural, Debug)]
pub struct EdgePair {
    pub a: CellKey,
    pub b: CellKey,
}

impl DeepView for EdgePair {
    type V = EdgePair;

    open spec fn deep_view(&self) -> EdgePair {
        *self
    }
}

impl DeepEq for EdgePair {
    fn deq(&self, other: &Self) -> (r: bool) {
        self.a.deq(&other.a) && self.b.deq(&other.b)
    }

    fn dup(&self) -> (r: Self) {
        *self
    }
}

/// The same link read in the other direction.
pub open spec fn flipped(e: EdgePair) -> EdgePair {
    EdgePair { a: e.b, b: e.a }
}

/// The edges a service class already holds.
pub open spec fn bucket_of(g: Map<Seq<char>, Seq<EdgePair>>, class: Seq<char>) -> Seq<EdgePair> {
    if g.dom().contains(class) {
        g[class]
    } else {
        Seq::empty()
    }
}

/// One edge added to its service class, unless the class already holds the
/// edge in either direction.
pub open spec fn add_edge(
    g: Map<Seq<char>, Seq<EdgePair>>,
    class: Seq<char>,
    e: EdgePair,
) -> Map<Seq<char>, Seq<EdgePair>> {
    let b = bucket_of(g, class);
    if b.contains(e) || b.contains(flipped(e)) {
        g
    } else {
        g.insert(class, b.push(e))
    }
}

/// The edges of one travelling character: one per destination, from the
/// host cell to the destination cell.
pub open spec fn npc_edges(
    g: Map<Seq<char>, Seq<EdgePair>>,
    class: Seq<char>,
    start: CellKey,
    dests: Seq<TravelDest>,
) -> Map<Seq<char>, Seq<EdgePair>>
    decreases dests.len(),
{
    if dests.len() == 0 {
        g
    } else {
        add_edge(
            npc_edges(g, class, start, dests.drop_last()),
            class,
            EdgePair { a: start, b: dest_cell(dests.last()) },
        )
    }
}

/// Final pass: the edges of every hosted travelling character, in order of
/// first sight.
pub open spec fn graph_fold(
    g: Map<Seq<char>, Seq<EdgePair>>,
    keys: Seq<Seq<char>>,
    npcs: Map<Seq<char>, NpcDataV>,
    hosts: Map<Seq<char>, CellKey>,
) -> Map<Seq<char>, Seq<EdgePair>>
    decreases keys.len(),
{
    if keys.len() == 0 {
        g
    } else {
        let g2 = graph_fold(g, keys.drop_last(), npcs, hosts);
        let n = keys.last();
        if hosts.dom().contains(n) {
            npc_edges(g2, npcs[n].class, hosts[n], npcs[n].travel_destinations)
        } else {
            g2
        }
    }
}

/// The whole travel graph of the enabled plugins.
pub open spec fn travel_graph_spec(ps: Seq<PluginDataV>) -> Map<Seq<char>, Seq<EdgePair>> {
    let flat = enabled_flat(ps);
    let npcs = npc_map_fold(flat);
    graph_fold(Map::empty(), npc_keys_fold(flat), npcs, hosts_fold(flat, npcs.dom()))
}

/// No two distinct entries of a bucket are the same link read in opposite
/// directions.
pub open spec fn no_reversed(b: Seq<EdgePair>) -> bool {
    forall|i: int, j: int|
        0 <= i < b.len() && 0 <= j < b.len() && i != j ==> !(b[i].a == b[j].b && b[i].b == b[j].a)
}

/// Every service class holds each undirected link at most once.
pub open spec fn graph_ok(g: Map<Seq<char>, Seq<EdgePair>>) -> bool {
    forall|c: Seq<char>| #[trigger]
        g.dom().contains(c) ==> no_reversed(g[c]) && distinct_seq(g[c])
}

proof fn lemma_add_edge_ok(g: Map<Seq<char>, Seq<EdgePair>>, class: Seq<char>, e: EdgePair)
    requires
        graph_ok(g),
    ensures
        graph_ok(add_edge(g, class, e)),
{
    let b = bucket_of(g, class);
    assert(no_reversed(b) && distinct_seq(b));
    if !(b.contains(e) || b.contains(flipped(e))) {
        let b2 = b.push(e);
        assert forall|i: int, j: int|
            0 <= i < b2.len() && 0 <= j < b2.len() && i != j implies !(b2[i].a == b2[j].b
            && b2[i].b == b2[j].a) by {
            if i < b.len() && j < b.len() {
                assert(b2[i] == b[i] && b2[j] == b[j]);
            } else if i < b.len() && j == b.len() {
                if b2[i].a == b2[j].b && b2[i].b == b2[j].a {
                    assert(b[i] == flipped(e));
                    assert(b.contains(flipped(e)));
                }
            } else if j < b.len() && i == b.len() {
                if b2[i].a == b2[j].b && b2[i].b == b2[j].a {
                    assert(b[j] == flipped(e));
                    assert(b.contains(flipped(e)));
                }
            }
        }
        assert forall|i: int, j: int| 0 <= i < j < b2.len() implies b2[i] != b2[j] by {
            if j < b.len() {
                assert(b2[i] == b[i] && b2[j] == b[j]);
            } else {
                assert(b2[i] == b[i] && b2[j] == e);
                if b[i] == e {
                    assert(b.contains(e));
                }
            }
        }
    }
}

proof fn lemma_npc_edges_ok(
    g: Map<Seq<char>, Seq<EdgePair>>,
    class: Seq<char>,
    start: CellKey,
    dests: Seq<TravelDest>,
)
    requires
        graph_ok(g),
    ensures
        graph_ok(npc_edges(g, class, start, dests)),
    decreases dests.len(),
{
    if dests.len() > 0 {
        lemma_npc_edges_ok(g, class, start, dests.drop_last());
        lemma_add_edge_ok(
            npc_edges(g, class, start, dests.drop_last()),
            class,
            EdgePair { a: start, b: dest_cell(dests.last()) },
        );
    }
}

proof fn lemma_graph_fold_ok(
    g: Map<Seq<char>, Seq<EdgePair>>,
    keys: Seq<Seq<char>>,
    npcs: Map<Seq<char>, NpcDataV>,
    hosts: Map<Seq<char>, CellKey>,
)
    requires
        graph_ok(g),
    ensures
        graph_ok(graph_fold(g, keys, npcs, hosts)),
    decreases keys.len(),
{
    if keys.len() > 0 {
        lemma_graph_fold_ok(g, keys.drop_last(), npcs, hosts);
        let g2 = graph_fold(g, keys.drop_last(), npcs, hosts);
        let n = keys.last();
        if hosts.dom().contains(n) {
            lemma_npc_edges_ok(g2, npcs[n].class, hosts[n], npcs[n].travel_destinations);
        }
    }
}

/// Law (travel edge dedup): the built graph never holds an edge and its
/// reversal — nor any duplicate edge — in the same service class.
pub proof fn lemma_travel_edge_dedup(ps: Seq<PluginDataV>)
    ensures
        graph_ok(travel_graph_spec(ps)),
{
    let flat = enabled_flat(ps);
    let npcs = npc_map_fold(flat);
    lemma_graph_fold_ok(
        Map::empty(),
        npc_keys_fold(flat),
        npcs,
        hosts_fold(flat, npcs.dom()),
    );
}

/// The undirected, service-class-partitioned graph of inter-cell travel
/// links that the enabled plugins describe.
pub struct TravelGraph {
    classes: VecMap<String, Vec<EdgePair>>,
}

impl TravelGraph {
    /// The edges of each service class.
    pub closed spec fn edges_map(&self) -> Map<Seq<char>, Seq<EdgePair>> {
        self.classes@
    }

    pub closed spec fn wf(&self) -> bool {
        self.classes.wf()
    }

    /// The edges recorded for a service class.
    pub fn get_edges(&self, class: &String) -> (r: Option<&Vec<EdgePair>>)
        requires
            self.wf(),
        ensures
            match r {
                Some(v) => self.edges_map().dom().contains(class@) && v.deep_view()
                    == self.edges_map()[class@],
                None => !self.edges_map().dom().contains(class@),
            },
    {
        self.classes.get(class)
    }

    /// How many service classes hold at least one edge.
    pub closed spec fn spec_class_count(&self) -> nat {
        self.classes.spec_len()
    }

    /// How many service classes hold at least one edge.
    pub fn class_count(&self) -> (r: usize)
        requires
            self.wf(),
        ensures
            r as nat == self.spec_class_count(),
    {
        self.classes.len()
    }

    /// Derives the travel graph of the enabled plugins: travelling
    /// characters are collected first, then their host cells, and finally
    /// one edge per destination, deduplicated per service class in either
    /// direction.
    pub fn build(plugins: &Vec<PluginData>) -> (tg: TravelGraph)
        ensures
            tg.wf(),
            tg.edges_map() == travel_graph_spec(plugins.deep_view()),
            graph_ok(tg.edges_map()),
    {
        let ghost ps = plugins.deep_view();
        let n = plugins.len();

        // first pass: travelling characters, in order of first sight
        let mut npcs: VecMap<String, NpcData> = VecMap::new();
        let mut i: usize = 0;
        while i < n
            invariant
                n == plugins@.len(),
                ps == plugins.deep_view(),
                i <= n,
                npcs.wf(),
                npcs@ == npc_map_fold(enabled_flat(ps.take(i as int))),
                npcs.key_seq() == npc_keys_fold(enabled_flat(ps.take(i as int))),
            decreases n - i,
        {
            let plugin = &plugins[i];
            proof {
                assert(plugin.deep_view() == ps[i as int]);
            }
            if plugin.enabled {
                let pid = plugin.id;
                let m = plugin.records.len();
                let ghost rs = plugin.records.deep_view();
                let ghost before = enabled_flat(ps.take(i as int));
                proof {
                    assert(crate::worldgrid::tagged(pid, rs.take(0)) =~= Seq::<PRec>::empty());
                    assert(before + crate::worldgrid::tagged(pid, rs.take(0)) =~= before);
                }
                let mut j: usize = 0;
                while j < m
                    invariant
                        n == plugins@.len(),
                        ps == plugins.deep_view(),
                        i < n,
                        plugin == &plugins[i as int],
                        plugin.deep_view() == ps[i as int],
                        ps[i as int].enabled,
                        pid == ps[i as int].id,
                        m == plugin.records@.len(),
                        rs == plugin.records.deep_view(),
                        before == enabled_flat(ps.take(i as int)),
                        j <= m,
                        npcs.wf(),
                        npcs@ == npc_map_fold(
                            before + crate::worldgrid::tagged(pid, rs.take(j as int)),
                        ),
                        npcs.key_seq() == npc_keys_fold(
                            before + crate::worldgrid::tagged(pid, rs.take(j as int)),
                        ),
                    decreases m - j,
                {
                    let ghost cur = before + crate::worldgrid::tagged(pid, rs.take(j as int));
                    let ghost next = before + crate::worldgrid::tagged(pid, rs.take(j + 1));
                    proof {
                        assert(next.drop_last() =~= cur);
                        assert(next.last() == (pid, rs[j as int]));
                    }
                    let rec = &plugin.records[j];
                    proof {
                        assert(rec.deep_view() == rs[j as int]);
                    }
                    if str_eq(rec.tag.as_str(), "NPC_") {
                        match rec.as_npc() {
                            Ok(nd) => {
                                if nd.travel_destinations.len() > 0 {
                                    proof {
                                        assert(travel_npc_of(rs[j as int]) == Some(nd.deep_view()));
                                        npcs.lemma_entries();
                                        lemma_assoc_contains_agrees(&npcs, rec.id@);
                                    }
                                    npcs.insert(rec.id.clone(), nd.dup());
                                } else {
                                    proof {
                                        assert(travel_npc_of(rs[j as int]) is None);
                                    }
                                }
                            },
                            Err(_) => {
                                proof {
                                    assert(travel_npc_of(rs[j as int]) is None);
                                }
                            },
                        }
                    } else {
                        proof {
                            assert(travel_npc_of(rs[j as int]) is None);
                        }
                    }
                    j = j + 1;
                }
                proof {
                    assert(rs.take(m as int) =~= rs);
                    assert(ps.take(i + 1).drop_last() =~= ps.take(i as int));
                    assert(ps.take(i + 1).last() == ps[i as int]);
                    assert(enabled_flat(ps.take(i + 1)) == enabled_flat(ps.take(i as int))
                        + crate::worldgrid::tagged(pid, rs));
                }
            } else {
                proof {
                    assert(ps.take(i + 1).drop_last() =~= ps.take(i as int));
                    assert(ps.take(i + 1).last() == ps[i as int]);
                    assert(enabled_flat(ps.take(i + 1)) =~= enabled_flat(ps.take(i as int))
                        + Seq::<PRec>::empty());
                    assert(enabled_flat(ps.take(i + 1)) =~= enabled_flat(ps.take(i as int)));
                }
            }
            i = i + 1;
        }
        proof {
            assert(ps.take(n as int) =~= ps);
        }
        let ghost flat = enabled_flat(ps);
        let ghost npcset = npc_map_fold(flat).dom();

        // second pass: the host cell of each travelling character
        let mut hosts: VecMap<String, CellKey> = VecMap::new();
        let mut i: usize = 0;
        while i < n
            invariant
                n == plugins@.len(),
                ps == plugins.deep_view(),
                flat == enabled_flat(ps),
                npcset == npc_map_fold(flat).dom(),
                i <= n,
                npcs.wf(),
                npcs@ == npc_map_fold(flat),
                npcs.key_seq() == npc_keys_fold(flat),
                hosts.wf(),
                hosts@ == hosts_fold(enabled_flat(ps.take(i as int)), npcset),
            decreases n - i,
        {
            let plugin = &plugins[i];
            proof {
                assert(plugin.deep_view() == ps[i as int]);
            }
            if plugin.enabled {
                let pid = plugin.id;
                let m = plugin.records.len();
                let ghost rs = plugin.records.deep_view();
                let ghost before = enabled_flat(ps.take(i as int));
                proof {
                    assert(crate::worldgrid::tagged(pid, rs.take(0)) =~= Seq::<PRec>::empty());
                    assert(before + crate::worldgrid::tagged(pid, rs.take(0)) =~= before);
                }
                let mut j: usize = 0;
                while j < m
                    invariant
                        n == plugins@.len(),
                        ps == plugins.deep_view(),
                        flat == enabled_flat(ps),
                        npcset == npc_map_fold(flat).dom(),
                        i < n,
                        plugin == &plugins[i as int],
                        plugin.deep_view() == ps[i as int],
                        ps[i as int].enabled,
                        pid == ps[i as int].id,
                        m == plugin.records@.len(),
                        rs == plugin.records.deep_view(),
                        before == enabled_flat(ps.take(i as int)),
                        j <= m,
                        npcs.wf(),
                        npcs@ == npc_map_fold(flat),
                        npcs.key_seq() == npc_keys_fold(flat),
                        hosts.wf(),
                        hosts@ == hosts_fold(
                            before + crate::worldgrid::tagged(pid, rs.take(j as int)),
                            npcset,
                        ),
                    decreases m - j,
                {
                    let ghost cur = before + crate::worldgrid::tagged(pid, rs.take(j as int));
                    let ghost next = before + crate::worldgrid::tagged(pid, rs.take(j + 1));
                    proof {
                        assert(next.drop_last() =~= cur);
                        assert(next.last() == (pid, rs[j as int]));
                    }
                    let rec = &plugin.records[j];
                    proof {
                        assert(rec.deep_view() == rs[j as int]);
                    }
                    if str_eq(rec.tag.as_str(), "CELL") {
                        match rec.as_cell() {
                            Ok(cd) => {
                                if !cd.is_interior {
                                    let k = cd.key();
                                    proof {
                                        assert(ext_cell_of(rs[j as int]) == Some(cd.deep_view()));
                                        assert(cell_key_of(cd.deep_view()) == k);
                                        npcs.lemma_entries();
                                    }
                                    let ghost h0 = hosts@;
                                    let ghost keyseq = npcs.key_seq();
                                    let ghost refs = cd.refs.deep_view();
                                    let total = npcs.len();
                                    let mut t: usize = 0;
                                    proof {
                                        assert(hosts@ =~= Map::new(
                                            |nm: Seq<char>| h0.dom().contains(nm) || (keyseq.take(
                                                0,
                                            ).contains(nm) && refs.contains(nm)),
                                            |nm: Seq<char>|
                                                if keyseq.take(0).contains(nm) && refs.contains(
                                                    nm,
                                                ) {
                                                    cell_key_of(cd.deep_view())
                                                } else {
                                                    h0[nm]
                                                },
                                        ));
                                    }
                                    while t < total
                                        invariant
                                            total as nat == npcs.spec_len(),
                                            t <= total,
                                            npcs.wf(),
                                            keyseq == npcs.key_seq(),
                                            refs == cd.refs.deep_view(),
                                            k == cell_key_of(cd.deep_view()),
                                            hosts.wf(),
                                            hosts@ =~= Map::new(
                                                |nm: Seq<char>| h0.dom().contains(nm) || (
                                                keyseq.take(t as int).contains(nm)
                                                    && refs.contains(nm)),
                                                |nm: Seq<char>|
                                                    if keyseq.take(t as int).contains(nm)
                                                        && refs.contains(nm) {
                                                        cell_key_of(cd.deep_view())
                                                    } else {
                                                        h0[nm]
                                                    },
                                            ),
                                        decreases total - t,
                                    {
                                        let npc_id = npcs.key_at(t);
                                        proof {
                                            lemma_take_step(keyseq, t as int);
                                        }
                                        if vec_contains(&cd.refs, npc_id) {
                                            hosts.insert(npc_id.dup(), k);
                                        }
                                        proof {
                                            assert(hosts@ =~= Map::new(
                                                |nm: Seq<char>| h0.dom().contains(nm) || (
                                                keyseq.take(t + 1).contains(nm) && refs.contains(
                                                    nm,
                                                )),
                                                |nm: Seq<char>|
                                                    if keyseq.take(t + 1).contains(nm)
                                                        && refs.contains(nm) {
                                                        cell_key_of(cd.deep_view())
                                                    } else {
                                                        h0[nm]
                                                    },
                                            ));
                                        }
                                        t = t + 1;
                                    }
                                    proof {
                                        npcs.lemma_entries();
                                        assert(keyseq.take(total as int) =~= keyseq);
                                        assert forall|nm: Seq<char>| #[trigger] keyseq.contains(nm)
                                            <==> npcset.contains(nm) by {
                                            if keyseq.contains(nm) {
                                                let x = choose|x: int|
                                                    0 <= x < keyseq.len() && keyseq[x] == nm;
                                                assert(npcs@.dom().contains(keyseq[x]));
                                            }
                                        }
                                        assert(hosts@ =~= hosts_fold(next, npcset));
                                    }
                                } else {
                                    proof {
                                        assert(ext_cell_of(rs[j as int]) is None);
                                    }
                                }
                            },
                            Err(_) => {
                                proof {
                                    assert(ext_cell_of(rs[j as int]) is None);
                                }
                            },
                        }
                    } else {
                        proof {
                            assert(ext_cell_of(rs[j as int]) is None);
                        }
                    }
                    j = j + 1;
                }
                proof {
                    assert(rs.take(m as int) =~= rs);
                    assert(ps.take(i + 1).drop_last() =~= ps.take(i as int));
                    assert(ps.take(i + 1).last() == ps[i as int]);
                    assert(enabled_flat(ps.take(i + 1)) == enabled_flat(ps.take(i as int))
                        + crate::worldgrid::tagged(pid, rs));
                }
            } else {
                proof {
                    assert(ps.take(i + 1).drop_last() =~= ps.take(i as int));
                    assert(ps.take(i + 1).last() == ps[i as int]);
                    assert(enabled_flat(ps.take(i + 1)) =~= enabled_flat(ps.take(i as int))
                        + Seq::<PRec>::empty());
                    assert(enabled_flat(ps.take(i + 1)) =~= enabled_flat(ps.take(i as int)));
                }
            }
            i = i + 1;
        }
        proof {
            assert(ps.take(n as int) =~= ps);
        }

        // final pass: one edge per hosted character and destination,
        // deduplicated per service class in either direction
        let mut graph: VecMap<String, Vec<EdgePair>> = VecMap::new();
        proof {
            npcs.lemma_entries();
        }
        let total = npcs.len();
        let mut t: usize = 0;
        while t < total
            invariant
                total as nat == npcs.spec_len(),
                t <= total,
                npcs.wf(),
                npcs@ == npc_map_fold(flat),
                npcs.key_seq() == npc_keys_fold(flat),
                hosts.wf(),
                hosts@ == hosts_fold(flat, npcset),
                flat == enabled_flat(ps),
                npcset == npc_map_fold(flat).dom(),
                graph.wf(),
                graph@ == graph_fold(
                    Map::<Seq<char>, Seq<EdgePair>>::empty(),
                    npcs.key_seq().take(t as int),
                    npcs@,
                    hosts@,
                ),
            decreases total - t,
        {
            let ghost keyseq = npcs.key_seq();
            proof {
                assert(keyseq.take(t + 1).drop_last() =~= keyseq.take(t as int));
                assert(keyseq.take(t + 1).last() == keyseq[t as int]);
            }
            let npc_id = npcs.key_at(t);
            let nd = npcs.val_at(t);
            match hosts.get(npc_id) {
                Some(start_ref) => {
                    let start: CellKey = *start_ref;
                    let ghost g0 = graph@;
                    let ghost class = nd.deep_view().class;
                    let ghost dests = nd.deep_view().travel_destinations;
                    let dn = nd.travel_destinations.len();
                    let mut d: usize = 0;
                    proof {
                        assert(dests.take(0) =~= Seq::<TravelDest>::empty());
                    }
                    while d < dn
                        invariant
                            dn == nd.travel_destinations@.len(),
                            d <= dn,
                            class == nd.deep_view().class,
                            dests == nd.deep_view().travel_destinations,
                            dests.len() == dn,
                            graph.wf(),
                            graph@ == npc_edges(g0, class, start, dests.take(d as int)),
                        decreases dn - d,
                    {
                        proof {
                            assert(dests.take(d + 1).drop_last() =~= dests.take(d as int));
                            assert(dests.take(d + 1).last() == dests[d as int]);
                            assert(nd.travel_destinations@[d as int].deep_view()
                                == dests[d as int]);
                        }
                        let dest = nd.travel_destinations[d];
                        let target = dest_cell_key(&dest);
                        let e = EdgePair { a: start, b: target };
                        let rev = EdgePair { a: target, b: start };
                        let mut bucket: Vec<EdgePair> = match graph.get(&nd.class) {
                            Some(v) => v.dup(),
                            None => Vec::new(),
                        };
                        proof {
                            assert(bucket.deep_view() =~= bucket_of(graph@, class));
                        }
                        if !vec_contains(&bucket, &e) && !vec_contains(&bucket, &rev) {
                            bucket.push(e);
                            proof {
                                assert(bucket.deep_view() =~= bucket_of(
                                    npc_edges(g0, class, start, dests.take(d as int)),
                                    class,
                                ).push(e));
                            }
                            graph.insert(nd.class.clone(), bucket);
                        }
                        d = d + 1;
                    }
                    proof {
                        assert(dests.take(dn as int) =~= dests);
                        assert(npcs@[keyseq[t as int]] == nd.deep_view());
                    }
                },
                None => {},
            }
            t = t + 1;
        }
        proof {
            assert(npcs.key_seq().take(total as int) =~= npcs.key_seq());
            lemma_graph_fold_ok(
                Map::<Seq<char>, Seq<EdgePair>>::empty(),
                npcs.key_seq(),
                npcs@,
                hosts@,
            );
        }
        TravelGraph { classes: graph }
    }
}

/// A key's presence in a map built by `VecMap` agrees with its presence in
/// the key sequence.
proof fn lemma_assoc_contains_agrees(m: &VecMap<String, NpcData>, k: Seq<char>)
    requires
        m.wf(),
    ensures
        m@.dom().contains(k) <==> m.key_seq().contains(k),
{
    m.lemma_entries();
    if m.key_seq().contains(k) {
        let x = choose|x: int| 0 <= x < m.key_seq().len() && m.key_seq()[x] == k;
        assert(m@.dom().contains(m.key_seq()[x]));
    }
}

} // verus!

