//! The unused resolver: enumerated assets that no descriptor references.

use vstd::prelude::*;
use crate::aggregate::all_refs_spec;
use crate::aggregate::lemma_aggregate_order_irrelevant;
use crate::strutil::contains_string;

verus! {

/// Of the assets `i..`, those whose path string is not in the reference list,
/// in enumeration order.
pub open spec fn unused_from(refs: Seq<Seq<char>>, assets: Seq<Seq<char>>, i: int) -> Seq<
    Seq<char>,
>
    decreases assets.len() - i,
{
    if i >= assets.len() {
        Seq::empty()
    } else {
        let rest = unused_from(refs, assets, i + 1);
        if refs.contains(assets[i]) {
            rest
        } else {
            seq![assets[i]] + rest
        }
    }
}

/// The unused list: every enumerated asset absent from the reference list.
pub open spec fn unused_spec(refs: Seq<Seq<char>>, assets: Seq<Seq<char>>) -> Seq<Seq<char>> {
    unused_from(refs, assets, 0)
}

/// A path is unused exactly when it is one of the assets `i..` and is not
/// referenced.
pub proof fn lemma_unused_from_membership(
    refs: Seq<Seq<char>>,
    assets: Seq<Seq<char>>,
    i: int,
    p: Seq<char>,
)
    ensures
        unused_from(refs, assets, i).contains(p) <==> ((exists|j: int|
            i <= j < assets.len() && assets[j] == p) && !refs.contains(p)),
    decreases assets.len() - i,
{
    if i >= assets.len() {
    } else {
        lemma_unused_from_membership(refs, assets, i + 1, p);
        let rest = unused_from(refs, assets, i + 1);
        if !refs.contains(assets[i]) {
            crate::aggregate::lemma_concat_contains(seq![assets[i]], rest, p);
            assert(seq![assets[i]].contains(p) <==> p == assets[i]) by {
                if seq![assets[i]].contains(p) {
                    assert(seq![assets[i]][0] == assets[i]);
                }
                if p == assets[i] {
                    assert(seq![assets[i]][0] == p);
                }
            }
        }
    }
}

/// The unused resolver is exactly set difference: enumerated assets minus the
/// referenced set.
pub proof fn lemma_unused_is_set_difference(refs: Seq<Seq<char>>, assets: Seq<Seq<char>>)
    ensures
        unused_spec(refs, assets).to_set() == assets.to_set().difference(refs.to_set()),
{
    assert forall|p: Seq<char>| #[trigger]
        unused_spec(refs, assets).contains(p) == (assets.contains(p) && !refs.contains(p)) by {
        lemma_unused_from_membership(refs, assets, 0, p);
    }
    assert(unused_spec(refs, assets).to_set() =~= assets.to_set().difference(refs.to_set()));
}

/// Determinism and idempotence of the compute pipeline: against the same
/// descriptor texts and the same enumerated assets — each given in any order,
/// as parallel completion or directory walks may arrange them — the unused
/// list comes out the same as a set. Running the pipeline twice over an
/// unmodified project is the special case of equal arrangements.
pub proof fn lemma_pipeline_deterministic(
    root: Seq<char>,
    docs1: Seq<Seq<char>>,
    docs2: Seq<Seq<char>>,
    assets1: Seq<Seq<char>>,
    assets2: Seq<Seq<char>>,
)
    requires
        docs1.to_multiset() == docs2.to_multiset(),
        assets1.to_multiset() == assets2.to_multiset(),
    ensures
        unused_spec(all_refs_spec(root, docs1), assets1).to_set() == unused_spec(
            all_refs_spec(root, docs2),
            assets2,
        ).to_set(),
{
    let refs1 = all_refs_spec(root, docs1);
    let refs2 = all_refs_spec(root, docs2);
    assets1.to_multiset_ensures();
    assets2.to_multiset_ensures();
    lemma_aggregate_order_irrelevant(root, docs1, docs2);
    assert forall|p: Seq<char>| #[trigger]
        unused_spec(refs1, assets1).contains(p) == unused_spec(refs2, assets2).contains(p) by {
        lemma_unused_from_membership(refs1, assets1, 0, p);
        lemma_unused_from_membership(refs2, assets2, 0, p);
        assert(assets1.contains(p) <==> assets1.to_multiset().count(p) > 0);
        assert(assets2.contains(p) <==> assets2.to_multiset().count(p) > 0);
        assert(refs1.contains(p) <==> refs1.to_set().contains(p));
        assert(refs2.contains(p) <==> refs2.to_set().contains(p));
    }
    assert(unused_spec(refs1, assets1).to_set() =~= unused_spec(refs2, assets2).to_set());
}

/// With nothing referenced, every enumerated asset is unused, in order.
pub proof fn lemma_no_refs_all_unused(assets: Seq<Seq<char>>)
    ensures
        unused_spec(Seq::empty(), assets) == assets,
{
    lemma_no_refs_from(assets, 0);
    assert(assets.skip(0) =~= assets);
}

proof fn lemma_no_refs_from(assets: Seq<Seq<char>>, i: int)
    requires
        0 <= i <= assets.len(),
    ensures
        unused_from(Seq::empty(), assets, i) == assets.skip(i),
    decreases assets.len() - i,
{
    if i >= assets.len() {
        assert(assets.skip(i) =~= Seq::<Seq<char>>::empty());
    } else {
        lemma_no_refs_from(assets, i + 1);
        assert(!Seq::<Seq<char>>::empty().contains(assets[i]));
        assert(seq![assets[i]] + assets.skip(i + 1) =~= assets.skip(i));
    }
}

/// Filters the enumerated assets down to those absent from the reference
/// list, keeping enumeration order.
pub fn get_unused_wav(ref_list: &Vec<String>, assets: &Vec<String>) -> (r: Vec<String>)
    ensures
        r.deep_view() == unused_spec(ref_list.deep_view(), assets.deep_view()),
{
    let n = assets.len();
    let mut out: Vec<String> = Vec::new();
    let mut i: usize = 0;
    proof {
        assert(out.deep_view() =~= Seq::<Seq<char>>::empty());
        assert(unused_spec(ref_list.deep_view(), assets.deep_view()) == out.deep_view()
            + unused_from(ref_list.deep_view(), assets.deep_view(), 0));
    }
    while i < n
        invariant
            n == assets@.len(),
            i <= n,
            assets.deep_view().len() == n,
            unused_spec(ref_list.deep_view(), assets.deep_view()) == out.deep_view() + unused_from(
                ref_list.deep_view(),
                assets.deep_view(),
                i as int,
            ),
        decreases n - i,
    {
        let ghost pre = out.deep_view();
        proof {
            assert(assets.deep_view()[i as int] == assets@[i as int]@);
        }
        if !contains_string(ref_list, &assets[i]) {
            let s = assets[i].clone();
            out.push(s);
            proof {
                assert(out.deep_view() =~= pre.push(assets.deep_view()[i as int]));
                assert(seq![assets.deep_view()[i as int]] + unused_from(
                    ref_list.deep_view(),
                    assets.deep_view(),
                    i as int + 1,
                ) =~= out.deep_view().skip(pre.len() as int) + unused_from(
                    ref_list.deep_view(),
                    assets.deep_view(),
                    i as int + 1,
                ));
                assert(pre + unused_from(ref_list.deep_view(), assets.deep_view(), i as int)
                    =~= out.deep_view() + unused_from(
                    ref_list.deep_view(),
                    assets.deep_view(),
                    i as int + 1,
                ));
            }
        } else {
            proof {
                assert(unused_from(ref_list.deep_view(), assets.deep_view(), i as int)
                    == unused_from(ref_list.deep_view(), assets.deep_view(), i as int + 1));
            }
        }
        i += 1;
    }
    proof {
        assert(unused_from(ref_list.deep_view(), assets.deep_view(), n as int) =~= Seq::<
            Seq<char>,
        >::empty());
        assert(out.deep_view() =~= unused_spec(ref_list.deep_view(), assets.deep_view()));
    }
    out
}

} // verus!
