use vstd::prelude::*;

verus! {

use crate::vecmap::{lemma_take_step, DeepEq, VecMap};

/// One plugin as the conflict pass sees it: its numeric id, whether it
/// takes part in the comparison, and the unique ids of its records.
#[derive(Debug)]
pub struct PluginRecordIds {
    pub id: u64,
    pub enabled: bool,
    pub record_ids: Vec<String>,
}

#[verifier::ext_equal]
pub ghost struct PluginRecordIdsV {
    pub id: u64,
    pub enabled: bool,
    pub record_ids: Seq<Seq<char>>,
}

impl DeepView for PluginRecordIds {
    type V = PluginRecordIdsV;

    open spec fn deep_view(&self) -> PluginRecordIdsV {
        PluginRecordIdsV {
            id: self.id,
            enabled: self.enabled,
            record_ids: self.record_ids.deep_view(),
        }
    }
}

/// The identity-to-conflicting-plugins mapping; only identities carried by
/// at least two enabled plugins are retained.
pub type ConflictIndex = VecMap<String, Vec<u64>>;

/// The ids of the enabled plugins that carry a record with the given
/// unique id, in scan order.
pub open spec fn contributors(ps: Seq<PluginRecordIdsV>, k: Seq<char>) -> Seq<u64>
    decreases ps.len(),
{
    if ps.len() == 0 {
        Seq::empty()
    } else {
        contributors(ps.drop_last(), k) + if ps.last().enabled && ps.last().record_ids.contains(
            k,
        ) {
            seq![ps.last().id]
        } else {
            Seq::empty()
        }
    }
}

/// Law (conflict symmetry, soundness half): every entry of a contributor
/// list names an enabled plugin that truly carries a record with the
/// identity in question.
pub proof fn lemma_contributors_sound(ps: Seq<PluginRecordIdsV>, k: Seq<char>, j: int)
    requires
        0 <= j < contributors(ps, k).len(),
    ensures
        exists|p: int|
            0 <= p < ps.len() && #[trigger] ps[p].enabled && ps[p].record_ids.contains(k)
                && ps[p].id == contributors(ps, k)[j],
    decreases ps.len(),
{
    let c = contributors(ps, k);
    let prev = contributors(ps.drop_last(), k);
    if j < prev.len() {
        lemma_contributors_sound(ps.drop_last(), k, j);
        let p = choose|p: int|
            0 <= p < ps.drop_last().len() && #[trigger] ps.drop_last()[p].enabled
                && ps.drop_last()[p].record_ids.contains(k) && ps.drop_last()[p].id == prev[j];
        assert(ps[p] == ps.drop_last()[p]);
        assert(c[j] == prev[j]);
    } else {
        assert(ps.last().enabled && ps.last().record_ids.contains(k));
        assert(c[j] == ps.last().id);
        assert(ps[ps.len() - 1].enabled && ps[ps.len() - 1].record_ids.contains(k) && ps[ps.len()
            - 1].id == c[j]);
    }
}

/// What one more plugin adds to a contributor list.
proof fn lemma_contributors_step(ps: Seq<PluginRecordIdsV>, i: int, k: Seq<char>)
    requires
        0 <= i < ps.len(),
    ensures
        contributors(ps.take(i + 1), k) == contributors(ps.take(i), k) + if ps[i].enabled
            && ps[i].record_ids.contains(k) {
            seq![ps[i].id]
        } else {
            Seq::<u64>::empty()
        },
{
    assert(ps.take(i + 1).drop_last() =~= ps.take(i));
    assert(ps.take(i + 1).last() == ps[i]);
}

/// Builds the conflict index over the enabled plugins in one linear pass:
/// an identity is reported exactly when at least two enabled plugins carry
/// it, and its list holds those plugins' ids in scan order.
pub fn generate_conflict_map(plugins: &Vec<PluginRecordIds>) -> (r: ConflictIndex)
    ensures
        r.wf(),
        forall|k: Seq<char>| #[trigger]
            r@.dom().contains(k) <==> contributors(plugins.deep_view(), k).len() >= 2,
        forall|k: Seq<char>| #[trigger]
            r@.dom().contains(k) ==> r@[k] == contributors(plugins.deep_view(), k),
{
    let ghost ps = plugins.deep_view();
    let mut acc: VecMap<String, Vec<u64>> = VecMap::new();
    let n = plugins.len();
    let mut i: usize = 0;
    while i < n
        invariant
            n == plugins@.len(),
            ps == plugins.deep_view(),
            i <= n,
            acc.wf(),
            forall|k: Seq<char>| #[trigger]
                acc@.dom().contains(k) <==> contributors(ps.take(i as int), k).len() >= 1,
            forall|k: Seq<char>| #[trigger]
                acc@.dom().contains(k) ==> acc@[k] == contributors(ps.take(i as int), k),
        decreases n - i,
    {
        let plugin = &plugins[i];
        proof {
            assert(plugin.deep_view() == ps[i as int]);
        }
        if plugin.enabled {
            let mut seen: VecMap<String, bool> = VecMap::new();
            let m = plugin.record_ids.len();
            let ghost rs = plugin.record_ids.deep_view();
            let mut j: usize = 0;
            while j < m
                invariant
                    n == plugins@.len(),
                    ps == plugins.deep_view(),
                    i < n,
                    plugin == &plugins[i as int],
                    plugin.deep_view() == ps[i as int],
                    ps[i as int].enabled,
                    m == plugin.record_ids@.len(),
                    rs == plugin.record_ids.deep_view(),
                    j <= m,
                    seen.wf(),
                    acc.wf(),
                    forall|k: Seq<char>| #[trigger]
                        seen@.dom().contains(k) <==> rs.take(j as int).contains(k),
                    forall|k: Seq<char>| #[trigger]
                        acc@.dom().contains(k) <==> (contributors(ps.take(i as int), k) + if rs.take(
                            j as int,
                        ).contains(k) {
                            seq![ps[i as int].id]
                        } else {
                            Seq::<u64>::empty()
                        }).len() >= 1,
                    forall|k: Seq<char>| #[trigger]
                        acc@.dom().contains(k) ==> acc@[k] == contributors(ps.take(i as int), k)
                            + if rs.take(j as int).contains(k) {
                            seq![ps[i as int].id]
                        } else {
                            Seq::<u64>::empty()
                        },
                decreases m - j,
            {
                let rid = &plugin.record_ids[j];
                proof {
                    assert(rid.deep_view() == rs[j as int]);
                    lemma_take_step(rs, j as int);
                }
                if !seen.contains_key(rid) {
                    seen.insert(rid.clone(), true);
                    let mut list: Vec<u64> = match acc.get(rid) {
                        Some(v) => v.dup(),
                        None => Vec::new(),
                    };
                    list.push(plugin.id);
                    proof {
                        if !acc@.dom().contains(rid@) {
                            assert(list.deep_view() =~= Seq::<u64>::empty() + seq![
                                ps[i as int].id,
                            ]);
                            assert(contributors(ps.take(i as int), rid@).len() == 0);
                            assert(contributors(ps.take(i as int), rid@) =~= Seq::<u64>::empty());
                        }
                    }
                    acc.insert(rid.clone(), list);
                }
                j = j + 1;
            }
            proof {
                assert(rs.take(m as int) =~= rs);
                assert forall|k: Seq<char>| #[trigger] contributors(ps.take(i + 1), k)
                    == contributors(ps.take(i as int), k) + if rs.contains(k) {
                    seq![ps[i as int].id]
                } else {
                    Seq::<u64>::empty()
                } by {
                    lemma_contributors_step(ps, i as int, k);
                }
            }
        } else {
            proof {
                assert forall|k: Seq<char>| #[trigger] contributors(ps.take(i + 1), k)
                    == contributors(ps.take(i as int), k) by {
                    lemma_contributors_step(ps, i as int, k);
                    assert(contributors(ps.take(i as int), k) + Seq::<u64>::empty() =~= contributors(
                        ps.take(i as int),
                        k,
                    ));
                }
            }
        }
        i = i + 1;
    }
    proof {
        assert(ps.take(n as int) =~= ps);
    }
    // keep only the identities that at least two enabled plugins carry
    let mut result: ConflictIndex = VecMap::new();
    proof {
        acc.lemma_entries();
    }
    let total = acc.len();
    let mut i: usize = 0;
    while i < total
        invariant
            total as nat == acc.spec_len(),
            i <= total,
            acc.wf(),
            result.wf(),
            forall|k: Seq<char>| #[trigger]
                acc@.dom().contains(k) <==> contributors(ps, k).len() >= 1,
            forall|k: Seq<char>| #[trigger] acc@.dom().contains(k) ==> acc@[k] == contributors(
                ps,
                k,
            ),
            forall|k: Seq<char>| #[trigger]
                result@.dom().contains(k) <==> (acc.key_seq().take(i as int).contains(k)
                    && acc@[k].len() >= 2),
            forall|k: Seq<char>| #[trigger] result@.dom().contains(k) ==> result@[k] == acc@[k],
        decreases total - i,
    {
        let key = acc.key_at(i);
        let val = acc.val_at(i);
        proof {
            lemma_take_step(acc.key_seq(), i as int);
        }
        if val.len() >= 2 {
            result.insert(key.dup(), val.dup());
        }
        i = i + 1;
    }
    proof {
        acc.lemma_entries();
        assert(acc.key_seq().take(total as int) =~= acc.key_seq());
        assert forall|k: Seq<char>| #[trigger] result@.dom().contains(k) <==> contributors(
            ps,
            k,
        ).len() >= 2 by {
            if contributors(ps, k).len() >= 2 {
                assert(acc@.dom().contains(k));
                assert(acc.key_seq().contains(k));
            }
        }
    }
    result
}

} // verus!
