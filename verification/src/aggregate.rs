//! Merging per-descriptor extraction results into one referenced set.
//!
//! Extractions are independent, so callers may run them in any order or in
//! parallel; the lemmas here state that the referenced set depends only on
//! which descriptor texts were given, never on their order, and that one
//! malformed descriptor leaves every other descriptor's contribution intact.

use vstd::prelude::*;
use crate::depth::xml_depth;
use crate::depth::MAX_XML_DEPTH;
use crate::xml::extract_spec;
use crate::xml::parse_xml;
use crate::xml::xml_records_of;

verus! {

/// A descriptor text that contributes nothing: nested too deeply to hand to
/// the parser, or not well-formed XML.
pub open spec fn doc_fails(doc: Seq<char>) -> bool {
    xml_depth(doc) > MAX_XML_DEPTH as int || xml_records_of(doc) is None
}

/// The asset paths one descriptor text contributes: its extraction when it
/// parses, nothing when it does not.
pub open spec fn doc_refs_spec(root: Seq<char>, doc: Seq<char>) -> Seq<Seq<char>> {
    if xml_depth(doc) > MAX_XML_DEPTH as int {
        Seq::empty()
    } else {
        match xml_records_of(doc) {
            Some(recs) => extract_spec(root, recs),
            None => Seq::empty(),
        }
    }
}

/// Contributions of descriptors `i..`, concatenated in order.
pub open spec fn all_refs_from(root: Seq<char>, docs: Seq<Seq<char>>, i: int) -> Seq<Seq<char>>
    decreases docs.len() - i,
{
    if i >= docs.len() {
        Seq::empty()
    } else {
        doc_refs_spec(root, docs[i]) + all_refs_from(root, docs, i + 1)
    }
}

/// Every asset path referenced by any of the given descriptor texts.
pub open spec fn all_refs_spec(root: Seq<char>, docs: Seq<Seq<char>>) -> Seq<Seq<char>> {
    all_refs_from(root, docs, 0)
}

/// Membership in a concatenation is membership in either part.
pub proof fn lemma_concat_contains<A>(a: Seq<A>, b: Seq<A>, p: A)
    ensures
        (a + b).contains(p) <==> (a.contains(p) || b.contains(p)),
{
    if (a + b).contains(p) {
        let n = choose|n: int| 0 <= n < (a + b).len() && (a + b)[n] == p;
        if n < a.len() {
            assert(a[n] == p);
        } else {
            assert(b[n - a.len()] == p);
        }
    }
    if a.contains(p) {
        let n = choose|n: int| 0 <= n < a.len() && a[n] == p;
        assert((a + b)[n] == p);
    }
    if b.contains(p) {
        let n = choose|n: int| 0 <= n < b.len() && b[n] == p;
        assert((a + b)[n + a.len()] == p);
    }
}

/// A path is referenced by descriptors `i..` exactly when one of them
/// contributes it.
pub proof fn lemma_all_refs_from_membership(
    root: Seq<char>,
    docs: Seq<Seq<char>>,
    i: int,
    p: Seq<char>,
)
    ensures
        all_refs_from(root, docs, i).contains(p) <==> (exists|j: int|
            i <= j < docs.len() && #[trigger] doc_refs_spec(root, docs[j]).contains(p)),
    decreases docs.len() - i,
{
    if i >= docs.len() {
    } else {
        lemma_all_refs_from_membership(root, docs, i + 1, p);
        lemma_concat_contains(doc_refs_spec(root, docs[i]), all_refs_from(root, docs, i + 1), p);
    }
}

/// A path is in the referenced set exactly when some given descriptor
/// contributes it.
pub proof fn lemma_all_refs_membership(root: Seq<char>, docs: Seq<Seq<char>>, p: Seq<char>)
    ensures
        all_refs_spec(root, docs).contains(p) <==> (exists|j: int|
            0 <= j < docs.len() && #[trigger] doc_refs_spec(root, docs[j]).contains(p)),
{
    lemma_all_refs_from_membership(root, docs, 0, p);
}

/// Isolation of failures: every descriptor's contribution reaches the
/// referenced set whatever the other descriptors hold, and a descriptor that
/// fails — over-deep or malformed — can be dropped without changing the set
/// at all.
pub proof fn lemma_isolation(root: Seq<char>, docs: Seq<Seq<char>>, i: int)
    requires
        0 <= i < docs.len(),
    ensures
        forall|j: int, p: Seq<char>|
            0 <= j < docs.len() && #[trigger] doc_refs_spec(root, docs[j]).contains(p)
                ==> all_refs_spec(root, docs).contains(p),
        doc_fails(docs[i]) ==> all_refs_spec(root, docs).to_set() == all_refs_spec(
            root,
            docs.remove(i),
        ).to_set(),
{
    assert forall|j: int, p: Seq<char>|
        0 <= j < docs.len() && #[trigger] doc_refs_spec(root, docs[j]).contains(p)
            implies all_refs_spec(root, docs).contains(p) by {
        lemma_all_refs_membership(root, docs, p);
    }
    if doc_fails(docs[i]) {
        assert(doc_refs_spec(root, docs[i]) =~= Seq::<Seq<char>>::empty());
        let rest = docs.remove(i);
        assert forall|p: Seq<char>| #[trigger]
            all_refs_spec(root, docs).contains(p) == all_refs_spec(root, rest).contains(p) by {
            lemma_all_refs_membership(root, docs, p);
            lemma_all_refs_membership(root, rest, p);
            docs.remove_ensures(i);
            if all_refs_spec(root, docs).contains(p) {
                let j = choose|j: int|
                    0 <= j < docs.len() && #[trigger] doc_refs_spec(root, docs[j]).contains(p);
                assert(j != i);
                if j < i {
                    assert(rest[j] == docs[j]);
                } else {
                    assert(rest[j - 1] == docs[j]);
                }
            }
            if all_refs_spec(root, rest).contains(p) {
                let j = choose|j: int|
                    0 <= j < rest.len() && #[trigger] doc_refs_spec(root, rest[j]).contains(p);
                if j < i {
                    assert(rest[j] == docs[j]);
                } else {
                    assert(rest[j] == docs[j + 1]);
                }
            }
        }
        assert(all_refs_spec(root, docs).to_set() =~= all_refs_spec(root, rest).to_set());
    }
}

/// The referenced set depends on which descriptor texts were given, not on
/// their order: any two arrangements of the same texts agree.
pub proof fn lemma_aggregate_order_irrelevant(
    root: Seq<char>,
    docs1: Seq<Seq<char>>,
    docs2: Seq<Seq<char>>,
)
    requires
        docs1.to_multiset() == docs2.to_multiset(),
    ensures
        all_refs_spec(root, docs1).to_set() == all_refs_spec(root, docs2).to_set(),
{
    docs1.to_multiset_ensures();
    docs2.to_multiset_ensures();
    assert forall|p: Seq<char>| #[trigger]
        all_refs_spec(root, docs1).contains(p) == all_refs_spec(root, docs2).contains(p) by {
        lemma_all_refs_membership(root, docs1, p);
        lemma_all_refs_membership(root, docs2, p);
        if all_refs_spec(root, docs1).contains(p) {
            let j = choose|j: int|
                0 <= j < docs1.len() && #[trigger] doc_refs_spec(root, docs1[j]).contains(p);
            assert(docs1.contains(docs1[j]));
            assert(docs1.to_multiset().count(docs1[j]) > 0);
            assert(docs2.to_multiset().count(docs1[j]) > 0);
            assert(docs2.contains(docs1[j]));
            let k = choose|k: int| 0 <= k < docs2.len() && docs2[k] == docs1[j];
            assert(doc_refs_spec(root, docs2[k]).contains(p));
        }
        if all_refs_spec(root, docs2).contains(p) {
            let j = choose|j: int|
                0 <= j < docs2.len() && #[trigger] doc_refs_spec(root, docs2[j]).contains(p);
            assert(docs2.contains(docs2[j]));
            assert(docs2.to_multiset().count(docs2[j]) > 0);
            assert(docs1.to_multiset().count(docs2[j]) > 0);
            assert(docs1.contains(docs2[j]));
            let k = choose|k: int| 0 <= k < docs1.len() && docs1[k] == docs2[j];
            assert(doc_refs_spec(root, docs1[k]).contains(p));
        }
    }
    assert(all_refs_spec(root, docs1).to_set() =~= all_refs_spec(root, docs2).to_set());
}

/// Appends a copy of every entry of `src` to `dst`.
pub fn push_all(dst: &mut Vec<String>, src: &Vec<String>)
    ensures
        final(dst).deep_view() == old(dst).deep_view() + src.deep_view(),
{
    let n = src.len();
    let mut j: usize = 0;
    while j < n
        invariant
            n == src@.len(),
            j <= n,
            dst.deep_view() == old(dst).deep_view() + src.deep_view().take(j as int),
        decreases n - j,
    {
        let ghost pre = dst.deep_view();
        proof {
            assert(src.deep_view()[j as int] == src@[j as int]@);
        }
        let s = src[j].clone();
        dst.push(s);
        proof {
            assert(dst.deep_view() =~= pre.push(src.deep_view()[j as int]));
            assert(src.deep_view().take(j as int + 1) =~= src.deep_view().take(j as int).push(
                src.deep_view()[j as int],
            ));
            assert(old(dst).deep_view() + src.deep_view().take(j as int + 1) =~= dst.deep_view());
        }
        j += 1;
    }
    proof {
        assert(src.deep_view().take(n as int) =~= src.deep_view());
    }
}

/// Per-worker results `i..`, concatenated in order.
pub open spec fn concat_refs_from(parts: Seq<Seq<Seq<char>>>, i: int) -> Seq<Seq<char>>
    decreases parts.len() - i,
{
    if i >= parts.len() {
        Seq::empty()
    } else {
        parts[i] + concat_refs_from(parts, i + 1)
    }
}

/// The fan-in of per-worker results: one list holding every extracted path.
pub open spec fn concat_refs_spec(parts: Seq<Seq<Seq<char>>>) -> Seq<Seq<char>> {
    concat_refs_from(parts, 0)
}

/// Merges per-descriptor extraction results into one reference list.
pub fn merge_refs(parts: &Vec<Vec<String>>) -> (r: Vec<String>)
    ensures
        r.deep_view() == concat_refs_spec(parts.deep_view()),
{
    let n = parts.len();
    let mut out: Vec<String> = Vec::new();
    let mut i: usize = 0;
    proof {
        assert(out.deep_view() =~= Seq::<Seq<char>>::empty());
        assert(concat_refs_spec(parts.deep_view()) == out.deep_view() + concat_refs_from(
            parts.deep_view(),
            0,
        ));
    }
    while i < n
        invariant
            n == parts@.len(),
            i <= n,
            parts.deep_view().len() == n,
            concat_refs_spec(parts.deep_view()) == out.deep_view() + concat_refs_from(
                parts.deep_view(),
                i as int,
            ),
        decreases n - i,
    {
        let ghost pre = out.deep_view();
        proof {
            assert(parts.deep_view()[i as int] == parts@[i as int].deep_view());
        }
        push_all(&mut out, &parts[i]);
        proof {
            assert(pre + concat_refs_from(parts.deep_view(), i as int) =~= out.deep_view()
                + concat_refs_from(parts.deep_view(), i as int + 1));
        }
        i += 1;
    }
    proof {
        assert(concat_refs_from(parts.deep_view(), n as int) =~= Seq::<Seq<char>>::empty());
        assert(out.deep_view() =~= concat_refs_spec(parts.deep_view()));
    }
    out
}

/// When each worker's result is exactly its descriptor's contribution, the
/// fan-in equals the sequential aggregate.
pub proof fn lemma_merge_of_doc_results(
    root: Seq<char>,
    docs: Seq<Seq<char>>,
    parts: Seq<Seq<Seq<char>>>,
)
    requires
        parts.len() == docs.len(),
        forall|i: int| 0 <= i < docs.len() ==> #[trigger] parts[i] == doc_refs_spec(root, docs[i]),
    ensures
        concat_refs_spec(parts) == all_refs_spec(root, docs),
{
    lemma_merge_of_doc_results_from(root, docs, parts, 0);
}

proof fn lemma_merge_of_doc_results_from(
    root: Seq<char>,
    docs: Seq<Seq<char>>,
    parts: Seq<Seq<Seq<char>>>,
    i: int,
)
    requires
        0 <= i,
        parts.len() == docs.len(),
        forall|j: int| 0 <= j < docs.len() ==> #[trigger] parts[j] == doc_refs_spec(root, docs[j]),
    ensures
        concat_refs_from(parts, i) == all_refs_from(root, docs, i),
    decreases parts.len() - i,
{
    if i >= parts.len() {
    } else {
        assert(parts[i] == doc_refs_spec(root, docs[i]));
        lemma_merge_of_doc_results_from(root, docs, parts, i + 1);
    }
}

/// Runs the extraction over every descriptor text in turn and unions the
/// successful results; a text that fails to parse contributes nothing and
/// never disturbs the others.
pub fn collect_refs(root: &str, docs: &Vec<String>) -> (r: Vec<String>)
    ensures
        r.deep_view() == all_refs_spec(root@, docs.deep_view()),
{
    let n = docs.len();
    let mut out: Vec<String> = Vec::new();
    let mut i: usize = 0;
    proof {
        assert(out.deep_view() =~= Seq::<Seq<char>>::empty());
        assert(all_refs_spec(root@, docs.deep_view()) == out.deep_view() + all_refs_from(
            root@,
            docs.deep_view(),
            0,
        ));
    }
    while i < n
        invariant
            n == docs@.len(),
            i <= n,
            docs.deep_view().len() == n,
            all_refs_spec(root@, docs.deep_view()) == out.deep_view() + all_refs_from(
                root@,
                docs.deep_view(),
                i as int,
            ),
        decreases n - i,
    {
        let ghost pre = out.deep_view();
        proof {
            assert(docs.deep_view()[i as int] == docs@[i as int]@);
        }
        match parse_xml(root, docs[i].as_str()) {
            Ok(mut v) => {
                proof {
                    assert(v.deep_view() == doc_refs_spec(root@, docs.deep_view()[i as int]));
                }
                push_all(&mut out, &v);
            },
            Err(_) => {
                proof {
                    assert(doc_refs_spec(root@, docs.deep_view()[i as int]) =~= Seq::<
                        Seq<char>,
                    >::empty());
                }
            },
        }
        proof {
            assert(pre + all_refs_from(root@, docs.deep_view(), i as int) =~= out.deep_view()
                + all_refs_from(root@, docs.deep_view(), i as int + 1));
        }
        i += 1;
    }
    proof {
        assert(all_refs_from(root@, docs.deep_view(), n as int) =~= Seq::<Seq<char>>::empty());
        assert(out.deep_view() =~= all_refs_spec(root@, docs.deep_view()));
    }
    out
}

} // verus!
