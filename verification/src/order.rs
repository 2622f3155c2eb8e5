use vstd::prelude::*;

verus! {

use crate::conflicts::ConflictIndex;
use crate::vecmap::DeepEq;
use vstd::seq_lib::group_to_multiset_ensures;
use vstd::string::StrSliceExecFns;

/// Lexicographic order on texts by code point, read from a position on.
pub open spec fn lex_le_from(a: Seq<char>, b: Seq<char>, i: int) -> bool
    decreases a.len() - i,
{
    if i < 0 || i >= a.len() {
        true
    } else if i >= b.len() {
        false
    } else if (a[i] as u32) < (b[i] as u32) {
        true
    } else if (a[i] as u32) > (b[i] as u32) {
        false
    } else {
        lex_le_from(a, b, i + 1)
    }
}

/// Lexicographic order on texts by code point.
pub open spec fn lex_le(a: Seq<char>, b: Seq<char>) -> bool {
    lex_le_from(a, b, 0)
}

proof fn lemma_lex_total_from(a: Seq<char>, b: Seq<char>, i: int)
    ensures
        lex_le_from(a, b, i) || lex_le_from(b, a, i),
    decreases a.len() - i,
{
    if 0 <= i < a.len() && i < b.len() && (a[i] as u32) == (b[i] as u32) {
        lemma_lex_total_from(a, b, i + 1);
    }
}

/// Law: the order is total — of any two texts one comes first.
pub proof fn lemma_lex_total(a: Seq<char>, b: Seq<char>)
    ensures
        lex_le(a, b) || lex_le(b, a),
{
    lemma_lex_total_from(a, b, 0);
}

proof fn lemma_lex_trans_from(a: Seq<char>, b: Seq<char>, c: Seq<char>, i: int)
    requires
        lex_le_from(a, b, i),
        lex_le_from(b, c, i),
    ensures
        lex_le_from(a, c, i),
    decreases a.len() - i,
{
    if 0 <= i < a.len() && i < b.len() && i < c.len() && (a[i] as u32) == (b[i] as u32)
        && (b[i] as u32) == (c[i] as u32) {
        lemma_lex_trans_from(a, b, c, i + 1);
    }
}

/// Law: the order is transitive.
pub proof fn lemma_lex_trans(a: Seq<char>, b: Seq<char>, c: Seq<char>)
    requires
        lex_le(a, b),
        lex_le(b, c),
    ensures
        lex_le(a, c),
{
    lemma_lex_trans_from(a, b, c, 0);
}

/// Whether the first text comes at or before the second, by code point.
pub fn str_le(a: &str, b: &str) -> (r: bool)
    ensures
        r == lex_le(a@, b@),
{
    let an = a.unicode_len();
    let bn = b.unicode_len();
    let mut i: usize = 0;
    while i < an && i < bn
        invariant
            an as nat == a@.len(),
            bn as nat == b@.len(),
            i <= an,
            i <= bn,
            lex_le_from(a@, b@, 0) == lex_le_from(a@, b@, i as int),
        decreases an - i,
    {
        let ca = a.get_char(i) as u32;
        let cb = b.get_char(i) as u32;
        if ca < cb {
            return true;
        }
        if ca > cb {
            return false;
        }
        i = i + 1;
    }
    an <= bn
}

/// The ids in ascending lexicographic order: a permutation of the input
/// whose every earlier element comes at or before every later one.
pub fn sort_ids(ids: &Vec<String>) -> (r: Vec<String>)
    ensures
        r.deep_view().to_multiset() == ids.deep_view().to_multiset(),
        forall|x: int, y: int|
            0 <= x < y < r.deep_view().len() ==> lex_le(
                #[trigger] r.deep_view()[x],
                #[trigger] r.deep_view()[y],
            ),
{
    broadcast use group_to_multiset_ensures;

    let mut out: Vec<String> = Vec::new();
    let n = ids.len();
    let mut i: usize = 0;
    proof {
        assert(ids.deep_view().take(0) =~= Seq::<Seq<char>>::empty());
        assert(out.deep_view() =~= Seq::<Seq<char>>::empty());
        assert(out.deep_view().to_multiset() =~= ids.deep_view().take(0).to_multiset());
    }
    while i < n
        invariant
            n == ids@.len(),
            i <= n,
            out@.len() == i,
            out.deep_view().to_multiset() == ids.deep_view().take(i as int).to_multiset(),
            forall|x: int, y: int|
                0 <= x < y < out.deep_view().len() ==> lex_le(
                    #[trigger] out.deep_view()[x],
                    #[trigger] out.deep_view()[y],
                ),
        decreases n - i,
    {
        broadcast use group_to_multiset_ensures;

        let id = &ids[i];
        proof {
            assert(id.deep_view() == ids.deep_view()[i as int]);
        }
        let m = out.len();
        let mut pos: usize = 0;
        while pos < m
            invariant_except_break
                m == out@.len(),
                pos <= m,
                forall|x: int| 0 <= x < pos ==> lex_le(#[trigger] out.deep_view()[x], id@),
            ensures
                pos <= m,
                forall|x: int| 0 <= x < pos ==> lex_le(#[trigger] out.deep_view()[x], id@),
                pos < m ==> !lex_le(out.deep_view()[pos as int], id@),
            decreases m - pos,
        {
            if !str_le(out[pos].as_str(), id.as_str()) {
                proof {
                    assert(out.deep_view()[pos as int] == out@[pos as int]@);
                }
                break ;
            }
            proof {
                assert(out.deep_view()[pos as int] == out@[pos as int]@);
            }
            pos = pos + 1;
        }
        let ghost pre = out.deep_view();
        out.insert(pos, id.clone());
        proof {
            let dv = out.deep_view();
            assert(dv =~= pre.insert(pos as int, id@)) by {
                assert forall|x: int| 0 <= x < dv.len() implies dv[x] == pre.insert(
                    pos as int,
                    id@,
                )[x] by {
                    assert(dv[x] == out@[x].deep_view());
                }
            }
            // the multiset gains exactly the inserted id
            assert(dv.remove(pos as int) =~= pre);
            assert(dv[pos as int] == id@);
            assert(dv.to_multiset().remove(id@) =~= pre.to_multiset());
            assert(dv.to_multiset().contains(id@));
            assert(dv.to_multiset() =~= pre.to_multiset().insert(id@));
            assert(ids.deep_view().take(i + 1).drop_last() =~= ids.deep_view().take(i as int));
            assert(ids.deep_view().take(i + 1) =~= ids.deep_view().take(i as int).push(
                ids.deep_view()[i as int],
            ));
            // the inserted id stands between its lesser and greater neighbours
            assert forall|x: int, y: int| 0 <= x < y < dv.len() implies lex_le(
                #[trigger] dv[x],
                #[trigger] dv[y],
            ) by {
                if y == pos {
                    assert(dv[x] == pre[x]);
                    assert(lex_le(pre[x], id@));
                } else if x == pos {
                    assert(dv[y] == pre[y - 1]);
                    assert(pos <= y - 1 < pre.len());
                    lemma_lex_total(pre[pos as int], id@);
                    assert(lex_le(id@, pre[pos as int]));
                    if y - 1 > pos {
                        assert(lex_le(pre[pos as int], pre[y - 1]));
                        lemma_lex_trans(id@, pre[pos as int], pre[y - 1]);
                    }
                } else if x < pos && y > pos {
                    assert(dv[x] == pre[x] && dv[y] == pre[y - 1]);
                    if y - 1 == x {
                        lemma_lex_total(dv[x], dv[x]);
                    } else {
                        assert(lex_le(pre[x], pre[y - 1]));
                    }
                } else if y < pos {
                    assert(dv[x] == pre[x] && dv[y] == pre[y]);
                } else {
                    assert(dv[x] == pre[x - 1] && dv[y] == pre[y - 1]);
                }
            }
        }
        i = i + 1;
    }
    proof {
        assert(ids.deep_view().take(n as int) =~= ids.deep_view());
    }
    out
}

/// Directory entries in ascending order of modification time — the rule
/// that fixes the load order. Each entry is a timestamp with its path; the
/// result is a permutation of the input whose timestamps never decrease.
pub fn sort_by_modified(entries: &Vec<(u64, String)>) -> (r: Vec<(u64, String)>)
    ensures
        r.deep_view().to_multiset() == entries.deep_view().to_multiset(),
        forall|x: int, y: int|
            0 <= x < y < r.deep_view().len() ==> #[trigger] r.deep_view()[x].0
                <= #[trigger] r.deep_view()[y].0,
{
    broadcast use group_to_multiset_ensures;

    let mut out: Vec<(u64, String)> = Vec::new();
    let n = entries.len();
    let mut i: usize = 0;
    proof {
        assert(entries.deep_view().take(0) =~= Seq::<(u64, Seq<char>)>::empty());
        assert(out.deep_view() =~= Seq::<(u64, Seq<char>)>::empty());
        assert(out.deep_view().to_multiset() =~= entries.deep_view().take(0).to_multiset());
    }
    while i < n
        invariant
            n == entries@.len(),
            i <= n,
            out@.len() == i,
            out.deep_view().to_multiset() == entries.deep_view().take(i as int).to_multiset(),
            forall|x: int, y: int|
                0 <= x < y < out.deep_view().len() ==> #[trigger] out.deep_view()[x].0
                    <= #[trigger] out.deep_view()[y].0,
        decreases n - i,
    {
        broadcast use group_to_multiset_ensures;

        let entry = &entries[i];
        let stamp = entry.0;
        proof {
            assert(entry.deep_view() == entries.deep_view()[i as int]);
        }
        let m = out.len();
        let mut pos: usize = 0;
        while pos < m
            invariant_except_break
                m == out@.len(),
                pos <= m,
                forall|x: int| 0 <= x < pos ==> (#[trigger] out.deep_view()[x]).0 <= stamp,
            ensures
                pos <= m,
                forall|x: int| 0 <= x < pos ==> (#[trigger] out.deep_view()[x]).0 <= stamp,
                pos < m ==> out.deep_view()[pos as int].0 > stamp,
            decreases m - pos,
        {
            if out[pos].0 > stamp {
                proof {
                    assert(out.deep_view()[pos as int] == out@[pos as int].deep_view());
                }
                break ;
            }
            proof {
                assert(out.deep_view()[pos as int] == out@[pos as int].deep_view());
            }
            pos = pos + 1;
        }
        let ghost pre = out.deep_view();
        let ghost edv = entry.deep_view();
        out.insert(pos, (entry.0, entry.1.clone()));
        proof {
            let dv = out.deep_view();
            assert(dv =~= pre.insert(pos as int, edv)) by {
                assert forall|x: int| 0 <= x < dv.len() implies dv[x] == pre.insert(
                    pos as int,
                    edv,
                )[x] by {
                    assert(dv[x] == out@[x].deep_view());
                }
            }
            assert(dv.remove(pos as int) =~= pre);
            assert(dv[pos as int] == edv);
            assert(dv.to_multiset().remove(edv) =~= pre.to_multiset());
            assert(dv.to_multiset().contains(edv));
            assert(dv.to_multiset() =~= pre.to_multiset().insert(edv));
            assert(entries.deep_view().take(i + 1).drop_last() =~= entries.deep_view().take(
                i as int,
            ));
            assert(entries.deep_view().take(i + 1) =~= entries.deep_view().take(i as int).push(
                entries.deep_view()[i as int],
            ));
            assert forall|x: int, y: int| 0 <= x < y < dv.len() implies (#[trigger] dv[x]).0 <= (
            #[trigger] dv[y]).0 by {
                if y == pos {
                    assert(dv[x] == pre[x]);
                } else if x == pos {
                    assert(dv[y] == pre[y - 1]);
                    assert(pos <= y - 1 < pre.len());
                } else if x < pos && y > pos {
                    assert(dv[x] == pre[x] && dv[y] == pre[y - 1]);
                } else if y < pos {
                    assert(dv[x] == pre[x] && dv[y] == pre[y]);
                } else {
                    assert(dv[x] == pre[x - 1] && dv[y] == pre[y - 1]);
                }
            }
        }
        i = i + 1;
    }
    proof {
        assert(entries.deep_view().take(n as int) =~= entries.deep_view());
    }
    out
}

/// The conflicting unique ids of the index, sorted ascending for display.
pub fn conflicting_ids(index: &ConflictIndex) -> (r: Vec<String>)
    requires
        index.wf(),
    ensures
        r.deep_view().to_multiset() == index.key_seq().to_multiset(),
        forall|x: int, y: int|
            0 <= x < y < r.deep_view().len() ==> lex_le(
                #[trigger] r.deep_view()[x],
                #[trigger] r.deep_view()[y],
            ),
{
    let mut keys: Vec<String> = Vec::new();
    let total = index.len();
    let mut t: usize = 0;
    proof {
        assert(keys.deep_view() =~= index.key_seq().take(0));
    }
    while t < total
        invariant
            total as nat == index.spec_len(),
            t <= total,
            index.wf(),
            keys.deep_view() == index.key_seq().take(t as int),
        decreases total - t,
    {
        let ghost pre = keys.deep_view();
        keys.push(index.key_at(t).dup());
        proof {
            assert(keys.deep_view() =~= pre.push(index.key_seq()[t as int]));
            assert(keys.deep_view() =~= index.key_seq().take(t + 1));
        }
        t = t + 1;
    }
    proof {
        assert(index.key_seq().take(total as int) =~= index.key_seq());
    }
    sort_ids(&keys)
}

} // verus!
