use vstd::prelude::*;

verus! {

use crate::order::{lex_le, sort_ids};
use crate::records::{ident_of, unique_id_of, unique_id_of_identity, Record, RecordIdentity, RecordV};
use crate::search::{is_substring, lower_of, matches_search};
use crate::store::IdV;
use crate::tags::{all_tags, get_all_tags, known_tag, ERecordType};
use crate::text::str_eq;
use crate::vecmap::{lemma_take_step, DeepEq, VecMap};

/// The main views the editor can stand in.
#[derive(PartialEq, Eq, Structural, Debug, Clone, Copy)]
pub enum EAppState {
    SingleEdit,
    Records,
    Compare,
    WorldMap,
}

impl Default for EAppState {
    fn default() -> (r: Self)
        ensures
            r == EAppState::SingleEdit,
    {
        EAppState::SingleEdit
    }
}

/// The modal windows the editor can open over a view.
#[derive(PartialEq, Eq, Structural, Debug, Clone, Copy)]
pub enum EModalState {
    Idle,
    ModalCompareInit,
    Settings,
}

impl Default for EModalState {
    fn default() -> (r: Self)
        ensures
            r == EModalState::Idle,
    {
        EModalState::Idle
    }
}

/// The display scale steps the editor offers.
#[derive(Debug, Clone, Copy, PartialEq, Eq, Structural)]
pub enum EScale {
    Native,
    Small,
    Medium,
    Large,
}

/// The state of the records browser: the search line, the selected record
/// type, the browsed records (each identity with the names of the plugins
/// carrying it), and the display cache of filtered unique ids per tag.
pub struct RecordsData {
    pub search_text: String,
    pub record_type: ERecordType,
    pub records: VecMap<RecordIdentity, Vec<String>>,
    pub cache: VecMap<String, Vec<String>>,
}

impl Default for RecordsData {
    fn default() -> (r: Self)
        ensures
            r.search_text@ == Seq::<char>::empty(),
            r.record_type == ERecordType::MISC,
            r.records@ == Map::<IdV, Seq<Seq<char>>>::empty(),
            r.cache@ == Map::<Seq<char>, Seq<Seq<char>>>::empty(),
            r.records.wf(),
            r.cache.wf(),
    {
        RecordsData {
            search_text: String::new(),
            record_type: ERecordType::MISC,
            records: VecMap::new(),
            cache: VecMap::new(),
        }
    }
}

/// One parsed plugin as the records browser sees it: its display name and
/// its records in file order.
#[derive(Debug)]
pub struct NamedRecords {
    pub name: String,
    pub records: Vec<Record>,
}

#[verifier::ext_equal]
pub ghost struct NamedRecordsV {
    pub name: Seq<char>,
    pub records: Seq<RecordV>,
}

impl DeepView for NamedRecords {
    type V = NamedRecordsV;

    open spec fn deep_view(&self) -> NamedRecordsV {
        NamedRecordsV { name: self.name@, records: self.records.deep_view() }
    }
}

/// A record paired with the name of the plugin that carries it.
pub type NRec = (Seq<char>, RecordV);

/// The records of all listed plugins in scan order, each paired with its
/// plugin's display name.
pub open spec fn named_flat(ps: Seq<NamedRecordsV>) -> Seq<NRec>
    decreases ps.len(),
{
    if ps.len() == 0 {
        Seq::empty()
    } else {
        named_flat(ps.drop_last()) + ps.last().records.map_values(
            |r: RecordV| (ps.last().name, r),
        )
    }
}

/// The plugin names carrying a record of the given identity, one entry per
/// record of a known type, in scan order.
pub open spec fn browser_list(s: Seq<NRec>, k: IdV) -> Seq<Seq<char>>
    decreases s.len(),
{
    if s.len() == 0 {
        Seq::empty()
    } else {
        browser_list(s.drop_last(), k) + if known_tag(s.last().1.tag) && ident_of(s.last().1)
            == k {
            seq![s.last().0]
        } else {
            Seq::<Seq<char>>::empty()
        }
    }
}

/// Gathers, for every record identity of a known type, the names of the
/// plugins that carry it — the data behind the records browser.
pub fn build_records_index(plugins: &Vec<NamedRecords>) -> (r: VecMap<RecordIdentity, Vec<String>>)
    ensures
        r.wf(),
        forall|k: IdV| #[trigger]
            r@.dom().contains(k) <==> browser_list(named_flat(plugins.deep_view()), k).len() >= 1,
        forall|k: IdV| #[trigger] r@.dom().contains(k) ==> r@[k] == browser_list(
            named_flat(plugins.deep_view()),
            k,
        ),
{
    let ghost ps = plugins.deep_view();
    let mut index: VecMap<RecordIdentity, Vec<String>> = VecMap::new();
    let n = plugins.len();
    let mut i: usize = 0;
    while i < n
        invariant
            n == plugins@.len(),
            ps == plugins.deep_view(),
            i <= n,
            index.wf(),
            forall|k: IdV| #[trigger]
                index@.dom().contains(k) <==> browser_list(
                    named_flat(ps.take(i as int)),
                    k,
                ).len() >= 1,
            forall|k: IdV| #[trigger] index@.dom().contains(k) ==> index@[k] == browser_list(
                named_flat(ps.take(i as int)),
                k,
            ),
        decreases n - i,
    {
        let plugin = &plugins[i];
        proof {
            assert(plugin.deep_view() == ps[i as int]);
        }
        let m = plugin.records.len();
        let ghost rs = plugin.records.deep_view();
        let ghost name = plugin.name@;
        let ghost before = named_flat(ps.take(i as int));
        let ghost part = |j: int| rs.take(j).map_values(|r: RecordV| (name, r));
        proof {
            assert(part(0) =~= Seq::<NRec>::empty());
            assert(before + part(0) =~= before);
        }
        let mut j: usize = 0;
        while j < m
            invariant
                n == plugins@.len(),
                ps == plugins.deep_view(),
                i < n,
                plugin == &plugins[i as int],
                plugin.deep_view() == ps[i as int],
                m == plugin.records@.len(),
                rs == plugin.records.deep_view(),
                name == plugin.name@,
                before == named_flat(ps.take(i as int)),
                part == (|j: int| rs.take(j).map_values(|r: RecordV| (name, r))),
                j <= m,
                index.wf(),
                forall|k: IdV| #[trigger]
                    index@.dom().contains(k) <==> browser_list(
                        before + part(j as int),
                        k,
                    ).len() >= 1,
                forall|k: IdV| #[trigger] index@.dom().contains(k) ==> index@[k] == browser_list(
                    before + part(j as int),
                    k,
                ),
            decreases m - j,
        {
            let ghost cur = before + part(j as int);
            let ghost next = before + part(j + 1);
            proof {
                assert(next.drop_last() =~= cur);
                assert(next.last() == (name, rs[j as int]));
            }
            let rec = &plugin.records[j];
            proof {
                assert(rec.deep_view() == rs[j as int]);
            }
            if ERecordType::from_tag(rec.tag.as_str()).is_some() {
                proof {
                    assert(known_tag(rs[j as int].tag));
                }
                let key = rec.identity();
                let mut list: Vec<String> = match index.get(&key) {
                    Some(v) => v.dup(),
                    None => Vec::new(),
                };
                list.push(plugin.name.clone());
                proof {
                    if !index@.dom().contains(key.deep_view()) {
                        assert(browser_list(cur, key.deep_view()).len() == 0);
                        assert(browser_list(cur, key.deep_view()) =~= Seq::<Seq<char>>::empty());
                    }
                    assert(list.deep_view() =~= browser_list(cur, key.deep_view()) + seq![name]);
                }
                index.insert(key, list);
            } else {
                proof {
                    assert(!known_tag(rs[j as int].tag));
                }
            }
            proof {
                assert forall|k: IdV| #[trigger] browser_list(next, k) == browser_list(cur, k)
                    + if known_tag(rs[j as int].tag) && ident_of(rs[j as int]) == k {
                    seq![name]
                } else {
                    Seq::<Seq<char>>::empty()
                } by {}
                assert forall|k: IdV|
                    !(known_tag(rs[j as int].tag) && ident_of(rs[j as int]) == k) implies #[trigger]
                    browser_list(next, k) =~= browser_list(cur, k) by {}
            }
            j = j + 1;
        }
        proof {
            assert(rs.take(m as int) =~= rs);
            assert(ps.take(i + 1).drop_last() =~= ps.take(i as int));
            assert(ps.take(i + 1).last() == ps[i as int]);
            assert(part(m as int) =~= ps[i as int].records.map_values(
                |r: RecordV| (ps[i as int].name, r),
            ));
            assert(named_flat(ps.take(i + 1)) == named_flat(ps.take(i as int)) + part(m as int));
        }
        i = i + 1;
    }
    proof {
        assert(ps.take(n as int) =~= ps);
    }
    index
}

/// One row set of the conflict-compare table: the record's unique id, its
/// field rows, and the plugins whose values fill the columns.
pub struct UiData {
    pub id: String,
    pub rows: Vec<(String, Vec<String>)>,
    pub plugins: Vec<String>,
}

impl Default for UiData {
    fn default() -> (r: Self)
        ensures
            r.id@ == Seq::<char>::empty(),
            r.rows@ == Seq::<(String, Vec<String>)>::empty(),
            r.plugins@ == Seq::<String>::empty(),
    {
        UiData { id: String::new(), rows: Vec::new(), plugins: Vec::new() }
    }
}

/// One line of the conflict list: a record's unique id and the names of
/// the plugins that define it.
pub struct RecordViewModel {
    pub id: String,
    pub plugins: Vec<String>,
}

impl Default for RecordViewModel {
    fn default() -> (r: Self)
        ensures
            r.id@ == Seq::<char>::empty(),
            r.plugins@ == Seq::<String>::empty(),
    {
        RecordViewModel { id: String::new(), plugins: Vec::new() }
    }
}

/// The unique ids of the identities that carry the given tag and match
/// the search line, in their given order.
pub open spec fn matching_uids(ids: Seq<IdV>, t: Seq<char>, f: Seq<char>) -> Seq<Seq<char>>
    decreases ids.len(),
{
    if ids.len() == 0 {
        Seq::empty()
    } else {
        matching_uids(ids.drop_last(), t, f) + if ids.last().0 == t && is_substring(
            lower_of(unique_id_of(ids.last().0, ids.last().1)),
            lower_of(f),
        ) {
            seq![unique_id_of(ids.last().0, ids.last().1)]
        } else {
            Seq::<Seq<char>>::empty()
        }
    }
}

/// The record list's display cache: for every known tag, the unique ids of
/// the given identities that carry it and match the search line, sorted
/// ascending.
pub fn group_ids_by_tag(ids: &Vec<RecordIdentity>, filter: &str) -> (r: VecMap<String, Vec<String>>)
    ensures
        r.wf(),
        forall|t: Seq<char>| #[trigger] r@.dom().contains(t) <==> all_tags().contains(t),
        forall|t: Seq<char>| #[trigger]
            r@.dom().contains(t) ==> r@[t].to_multiset() == matching_uids(
                ids.deep_view(),
                t,
                filter@,
            ).to_multiset() && (forall|x: int, y: int|
                0 <= x < y < r@[t].len() ==> lex_le(#[trigger] r@[t][x], #[trigger] r@[t][y])),
{
    let tags = get_all_tags();
    let mut cache: VecMap<String, Vec<String>> = VecMap::new();
    let tn = tags.len();
    let mut i: usize = 0;
    proof {
        assert(all_tags().take(0) =~= Seq::<Seq<char>>::empty());
    }
    while i < tn
        invariant
            tn == tags@.len(),
            tags.deep_view() == all_tags(),
            cache.wf(),
            i <= tn,
            forall|t: Seq<char>| #[trigger]
                cache@.dom().contains(t) <==> all_tags().take(i as int).contains(t),
            forall|t: Seq<char>| #[trigger]
                cache@.dom().contains(t) ==> cache@[t].to_multiset() == matching_uids(
                    ids.deep_view(),
                    t,
                    filter@,
                ).to_multiset() && (forall|x: int, y: int|
                    0 <= x < y < cache@[t].len() ==> lex_le(
                        #[trigger] cache@[t][x],
                        #[trigger] cache@[t][y],
                    )),
        decreases tn - i,
    {
        let tag = &tags[i];
        let ghost tv = all_tags()[i as int];
        proof {
            assert(tag.deep_view() == tags.deep_view()[i as int]);
            assert(tag@ == tv);
        }
        // gather this tag's matching unique ids
        let mut list: Vec<String> = Vec::new();
        let n = ids.len();
        let mut j: usize = 0;
        proof {
            assert(ids.deep_view().take(0) =~= Seq::<IdV>::empty());
            assert(list.deep_view() =~= matching_uids(ids.deep_view().take(0), tv, filter@));
        }
        while j < n
            invariant
                n == ids@.len(),
                tag@ == tv,
                j <= n,
                list.deep_view() == matching_uids(ids.deep_view().take(j as int), tv, filter@),
            decreases n - j,
        {
            let ghost cur = ids.deep_view().take(j as int);
            let ghost next = ids.deep_view().take(j + 1);
            proof {
                assert(next.drop_last() =~= cur);
                assert(next.last() == ids.deep_view()[j as int]);
            }
            let id = &ids[j];
            proof {
                assert(id.deep_view() == ids.deep_view()[j as int]);
            }
            if str_eq(id.tag.as_str(), tag.as_str()) {
                let uid = unique_id_of_identity(id);
                if matches_search(uid.as_str(), filter) {
                    let ghost pre = list.deep_view();
                    list.push(uid);
                    proof {
                        assert(list.deep_view() =~= pre.push(
                            unique_id_of(next.last().0, next.last().1),
                        ));
                    }
                }
            }
            j = j + 1;
        }
        proof {
            assert(ids.deep_view().take(n as int) =~= ids.deep_view());
        }
        let sorted = sort_ids(&list);
        cache.insert(tag.clone(), sorted);
        proof {
            lemma_take_step(all_tags(), i as int);
        }
        i = i + 1;
    }
    proof {
        assert(all_tags().take(tn as int) =~= all_tags());
    }
    cache
}

} // verus!
