use vstd::prelude::*;

verus! {

use vstd::string::StrSliceExecFns;

/// Whether the needle occurs contiguously inside the haystack.
pub open spec fn is_substring(hay: Seq<char>, needle: Seq<char>) -> bool {
    exists|i: int|
        0 <= i <= hay.len() - needle.len() && #[trigger] hay.subrange(i, i + needle.len())
            == needle
}

/// What `str::to_lowercase` returns: a function of the characters alone.
pub uninterp spec fn lower_of(s: Seq<char>) -> Seq<char>;

/// Relies on str::to_lowercase: the lowercase form of the text, which
/// depends on the characters alone.
#[verifier::external_body]
fn lowercase(s: &str) -> (r: String)
    ensures
        r@ == lower_of(s@),
{
    s.to_lowercase()
}

/// Whether the slice matches the needle at the given position.
fn matches_at(hay: &str, i: usize, needle: &str) -> (r: bool)
    requires
        i + needle@.len() <= hay@.len(),
    ensures
        r == (hay@.subrange(i as int, i + needle@.len()) == needle@),
{
    let hn = hay.unicode_len();
    let nn = needle.unicode_len();
    let mut k: usize = 0;
    while k < nn
        invariant
            hn as nat == hay@.len(),
            nn as nat == needle@.len(),
            i + nn <= hn,
            k <= nn,
            forall|l: int| 0 <= l < k ==> hay@[i + l] == needle@[l],
        decreases nn - k,
    {
        if hay.get_char(i + k) != needle.get_char(k) {
            proof {
                assert(hay@.subrange(i as int, i + needle@.len())[k as int] == hay@[i + k]);
            }
            return false;
        }
        k = k + 1;
    }
    proof {
        assert(hay@.subrange(i as int, i + needle@.len()) =~= needle@);
    }
    true
}

/// Whether the needle occurs anywhere inside the haystack.
pub fn contains_chars(hay: &str, needle: &str) -> (r: bool)
    ensures
        r == is_substring(hay@, needle@),
{
    let hn = hay.unicode_len();
    let nn = needle.unicode_len();
    if nn > hn {
        return false;
    }
    if nn == 0 {
        proof {
            assert(hay@.subrange(0, 0 + needle@.len() as int) =~= needle@);
        }
        return true;
    }
    let last = hn - nn;
    let mut i: usize = 0;
    while i <= last
        invariant
            hn as nat == hay@.len(),
            nn as nat == needle@.len(),
            1 <= nn <= hn,
            last == hn - nn,
            i <= last + 1,
            forall|j: int|
                0 <= j < i ==> #[trigger] hay@.subrange(j, j + needle@.len()) != needle@,
        decreases last - i + 1,
    {
        if matches_at(hay, i, needle) {
            proof {
                assert(hay@.subrange(i as int, i + needle@.len()) == needle@);
            }
            return true;
        }
        i = i + 1;
    }
    false
}

/// Whether the text matches the search line: the filter occurs in the
/// text once both are folded to lower case — exactly the record browser's
/// filter rule.
pub fn matches_search(text: &str, filter: &str) -> (r: bool)
    ensures
        r == is_substring(lower_of(text@), lower_of(filter@)),
{
    let lt = lowercase(text);
    let lf = lowercase(filter);
    contains_chars(lt.as_str(), lf.as_str())
}

/// The ids that match the search line, in their given order.
pub fn filter_ids(ids: &Vec<String>, filter: &str) -> (r: Vec<String>)
    ensures
        r.deep_view() == ids.deep_view().filter(
            |id: Seq<char>| is_substring(lower_of(id), lower_of(filter@)),
        ),
{
    let ghost pred = |id: Seq<char>| is_substring(lower_of(id), lower_of(filter@));
    let mut out: Vec<String> = Vec::new();
    let n = ids.len();
    let mut i: usize = 0;
    proof {
        reveal(Seq::filter);
        assert(ids.deep_view().take(0) =~= Seq::<Seq<char>>::empty());
        assert(out.deep_view() =~= ids.deep_view().take(0).filter(pred));
    }
    while i < n
        invariant
            n == ids@.len(),
            i <= n,
            pred == (|id: Seq<char>| is_substring(lower_of(id), lower_of(filter@))),
            out.deep_view() == ids.deep_view().take(i as int).filter(pred),
        decreases n - i,
    {
        let ghost pre = out.deep_view();
        let id = &ids[i];
        proof {
            reveal(Seq::filter);
            assert(id.deep_view() == ids.deep_view()[i as int]);
            assert(ids.deep_view().take(i + 1).drop_last() =~= ids.deep_view().take(i as int));
            assert(ids.deep_view().take(i + 1).last() == ids.deep_view()[i as int]);
        }
        if matches_search(id.as_str(), filter) {
            out.push(id.clone());
            proof {
                assert(out.deep_view() =~= pre.push(ids.deep_view()[i as int]));
            }
        }
        i = i + 1;
    }
    proof {
        assert(ids.deep_view().take(n as int) =~= ids.deep_view());
    }
    out
}

} // verus!
