//! The snapshot and its signature do not depend on the order in which the
//! windowing session reports the outputs.

use vstd::prelude::*;
use vstd::seq_lib::{
    lemma_multiset_commutative, to_multiset_build, to_multiset_contains, to_multiset_len,
    to_multiset_remove,
};
use crate::state::{
    descending, identity_pairs, lemma_identity_pairs_push, lemma_sort_descending, signature,
    sort_descending, OutputView,
};
use crate::text::{lemma_precedes_total, precedes};

verus! {

/// Whether no two outputs of `s` have the same name.
pub open spec fn distinct_names(s: Seq<OutputView>) -> bool {
    forall|i: int, j: int| 0 <= i < j < s.len() ==> #[trigger] s[i].name != #[trigger] s[j].name
}


/// A list that holds the outputs of a list without two outputs of one name,
/// each as often, has no two outputs of one name either.
pub proof fn lemma_distinct_names_permuted(a: Seq<OutputView>, b: Seq<OutputView>)
    requires
        distinct_names(a),
        a.to_multiset() == b.to_multiset(),
    ensures
        distinct_names(b),
{
    assert(a.no_duplicates()) by {
        assert forall|i: int, j: int| 0 <= i < a.len() && 0 <= j < a.len() && i != j implies a[i]
            != a[j] by {
            if i < j {
                assert(a[i].name != a[j].name);
            } else {
                assert(a[j].name != a[i].name);
            }
        }
    }
    a.lemma_multiset_has_no_duplicates();
    b.lemma_multiset_has_no_duplicates_conv();
    assert forall|i: int, j: int| 0 <= i < j < b.len() implies #[trigger] b[i].name
        != #[trigger] b[j].name by {
        assert(b[i] != b[j]);
        to_multiset_contains(a, b[i]);
        to_multiset_contains(b, b[i]);
        to_multiset_contains(a, b[j]);
        to_multiset_contains(b, b[j]);
        assert(b.contains(b[i]));
        assert(b.contains(b[j]));
        let p = choose|p: int| 0 <= p < a.len() && a[p] == b[i];
        let q = choose|q: int| 0 <= q < a.len() && a[q] == b[j];
        if p < q {
            assert(a[p].name != a[q].name);
        } else if q < p {
            assert(a[q].name != a[p].name);
        }
    }
}

/// Two descending lists without two outputs of one name that hold the same
/// outputs are the same list.
pub proof fn lemma_descending_unique(a: Seq<OutputView>, b: Seq<OutputView>)
    requires
        descending(a),
        descending(b),
        distinct_names(a),
        a.to_multiset() == b.to_multiset(),
    ensures
        a == b,
    decreases a.len(),
{
    to_multiset_len(a);
    to_multiset_len(b);
    lemma_distinct_names_permuted(a, b);
    if a.len() == 0 {
        assert(a =~= b);
    } else {
        to_multiset_contains(a, a[0]);
        to_multiset_contains(b, a[0]);
        to_multiset_contains(a, b[0]);
        to_multiset_contains(b, b[0]);
        assert(a.contains(a[0]));
        assert(b.contains(b[0]));
        let k = choose|k: int| 0 <= k < b.len() && b[k] == a[0];
        let m = choose|m: int| 0 <= m < a.len() && a[m] == b[0];
        if k != 0 && m != 0 {
            assert(!precedes(b[0].name, b[k].name));
            assert(!precedes(a[0].name, a[m].name));
            lemma_precedes_total(a[0].name, b[0].name, 0);
            assert(a[0].name != a[m].name);
        }
        assert(a[0] == b[0]);
        to_multiset_remove(a, 0);
        to_multiset_remove(b, 0);
        assert(a.remove(0) =~= a.drop_first());
        assert(b.remove(0) =~= b.drop_first());
        let ta = a.drop_first();
        let tb = b.drop_first();
        assert(descending(ta)) by {
            assert forall|i: int, j: int| 0 <= i < j < ta.len() implies !precedes(
                #[trigger] ta[i].name,
                #[trigger] ta[j].name,
            ) by {
                assert(ta[i] == a[i + 1] && ta[j] == a[j + 1]);
            }
        }
        assert(descending(tb)) by {
            assert forall|i: int, j: int| 0 <= i < j < tb.len() implies !precedes(
                #[trigger] tb[i].name,
                #[trigger] tb[j].name,
            ) by {
                assert(tb[i] == b[i + 1] && tb[j] == b[j + 1]);
            }
        }
        assert(distinct_names(ta)) by {
            assert forall|i: int, j: int| 0 <= i < j < ta.len() implies #[trigger] ta[i].name
                != #[trigger] ta[j].name by {
                assert(ta[i] == a[i + 1] && ta[j] == a[j + 1]);
            }
        }
        lemma_descending_unique(ta, tb);
        assert(a =~= seq![a[0]] + ta);
        assert(b =~= seq![b[0]] + tb);
    }
}

/// The snapshot does not depend on the order in which the outputs were
/// reported: two lists that hold the same outputs, no two of them of one
/// name, sort to the same snapshot.
pub proof fn lemma_snapshot_ignores_query_order(a: Seq<OutputView>, b: Seq<OutputView>)
    requires
        a.to_multiset() == b.to_multiset(),
        distinct_names(a),
    ensures
        sort_descending(a) == sort_descending(b),
{
    lemma_sort_descending(a);
    lemma_sort_descending(b);
    lemma_distinct_names_permuted(a, sort_descending(a));
    lemma_descending_unique(sort_descending(a), sort_descending(b));
}

/// Whether the connected outputs of one name report one identity code.
pub open spec fn names_identify(s: Seq<OutputView>) -> bool {
    forall|i: int, j: int|
        0 <= i < s.len() && 0 <= j < s.len() && (#[trigger] s[i]).is_connected && (
        #[trigger] s[j]).is_connected && s[i].name == s[j].name ==> s[i].edid == s[j].edid
}

/// Whether the names of `pairs` stand in descending order.
pub open spec fn pairs_descending(pairs: Seq<(Seq<char>, u64)>) -> bool {
    forall|i: int, j: int|
        0 <= i < j < pairs.len() ==> !precedes((#[trigger] pairs[i]).0, (#[trigger] pairs[j]).0)
}

/// Whether pairs of one name are the same pair.
pub open spec fn pairs_identify(pairs: Seq<(Seq<char>, u64)>) -> bool {
    forall|i: int, j: int|
        0 <= i < pairs.len() && 0 <= j < pairs.len() && (#[trigger] pairs[i]).0 == (
        #[trigger] pairs[j]).0 ==> pairs[i] == pairs[j]
}

/// A snapshot without outputs has no pairs.
pub proof fn lemma_identity_pairs_empty()
    ensures
        identity_pairs(Seq::<OutputView>::empty()) == Seq::<(Seq<char>, u64)>::empty(),
{
    reveal(Seq::filter);
    assert(identity_pairs(Seq::<OutputView>::empty()) =~= Seq::<(Seq<char>, u64)>::empty());
}

/// The pairs of two lists, one after the other, are the pairs of the first
/// followed by those of the second.
pub proof fn lemma_identity_pairs_concat(a: Seq<OutputView>, b: Seq<OutputView>)
    ensures
        identity_pairs(a + b) == identity_pairs(a) + identity_pairs(b),
{
    let pred = |o: OutputView| o.is_connected;
    Seq::filter_distributes_over_add(a, b, pred);
    assert(identity_pairs(a + b) =~= identity_pairs(a) + identity_pairs(b));
}

/// Each pair of a snapshot is the name and identity code of one of its
/// connected outputs.
pub proof fn lemma_identity_pair_source(s: Seq<OutputView>, k: int) -> (i: int)
    requires
        0 <= k < identity_pairs(s).len(),
    ensures
        0 <= i < s.len(),
        s[i].is_connected,
        identity_pairs(s)[k] == (s[i].name, s[i].edid),
    decreases s.len(),
{
    if s.len() == 0 {
        lemma_identity_pairs_empty();
        assert(s =~= Seq::<OutputView>::empty());
        0
    } else {
        lemma_identity_pairs_push(s.drop_last(), s.last());
        assert(s.drop_last().push(s.last()) =~= s);
        if k < identity_pairs(s.drop_last()).len() {
            lemma_identity_pair_source(s.drop_last(), k)
        } else {
            s.len() - 1
        }
    }
}

/// The pairs of a descending snapshot are descending.
pub proof fn lemma_pairs_of_descending(s: Seq<OutputView>)
    requires
        descending(s),
    ensures
        pairs_descending(identity_pairs(s)),
    decreases s.len(),
{
    if s.len() == 0 {
        lemma_identity_pairs_empty();
        assert(s =~= Seq::<OutputView>::empty());
    } else {
        let front = s.drop_last();
        assert(descending(front)) by {
            assert forall|i: int, j: int| 0 <= i < j < front.len() implies !precedes(
                #[trigger] front[i].name,
                #[trigger] front[j].name,
            ) by {
                assert(front[i] == s[i] && front[j] == s[j]);
            }
        }
        lemma_pairs_of_descending(front);
        lemma_identity_pairs_push(front, s.last());
        assert(front.push(s.last()) =~= s);
        let pairs = identity_pairs(s);
        assert forall|i: int, j: int| 0 <= i < j < pairs.len() implies !precedes(
            (#[trigger] pairs[i]).0,
            (#[trigger] pairs[j]).0,
        ) by {
            if j < identity_pairs(front).len() {
                assert(pairs[i] == identity_pairs(front)[i]);
                assert(pairs[j] == identity_pairs(front)[j]);
            } else {
                let t = lemma_identity_pair_source(front, i);
                assert(front[t] == s[t]);
                assert(!precedes(s[t].name, s[s.len() - 1].name));
            }
        }
    }
}

/// The pairs of a snapshot, as a multiset, without one of its outputs.
pub proof fn lemma_identity_pairs_remove(s: Seq<OutputView>, k: int)
    requires
        0 <= k < s.len(),
    ensures
        identity_pairs(s).to_multiset() == if s[k].is_connected {
            identity_pairs(s.remove(k)).to_multiset().insert((s[k].name, s[k].edid))
        } else {
            identity_pairs(s.remove(k)).to_multiset()
        },
{
    let front = s.take(k);
    let back = s.skip(k + 1);
    let one = Seq::<OutputView>::empty().push(s[k]);
    assert(s =~= front + one + back);
    assert(s.remove(k) =~= front + back);
    lemma_identity_pairs_empty();
    lemma_identity_pairs_push(Seq::<OutputView>::empty(), s[k]);
    lemma_identity_pairs_concat(front, one);
    lemma_identity_pairs_concat(front + one, back);
    lemma_identity_pairs_concat(front, back);
    let pf = identity_pairs(front);
    let po = identity_pairs(one);
    let pb = identity_pairs(back);
    lemma_multiset_commutative(pf + po, pb);
    lemma_multiset_commutative(pf, pb);
    if s[k].is_connected {
        let pair = (s[k].name, s[k].edid);
        assert(pf + po =~= pf.push(pair));
        to_multiset_build(pf, pair);
        assert(identity_pairs(s).to_multiset() =~= identity_pairs(s.remove(k)).to_multiset().insert(
            pair,
        ));
    } else {
        assert(pf + po =~= pf);
    }
}

/// Lists that hold the same outputs have the same pairs, each as often.
pub proof fn lemma_identity_pairs_permuted(a: Seq<OutputView>, b: Seq<OutputView>)
    requires
        a.to_multiset() == b.to_multiset(),
    ensures
        identity_pairs(a).to_multiset() == identity_pairs(b).to_multiset(),
    decreases a.len(),
{
    to_multiset_len(a);
    to_multiset_len(b);
    if a.len() == 0 {
        assert(a =~= b);
    } else {
        let last = a.len() - 1;
        let x = a[last];
        to_multiset_contains(a, x);
        to_multiset_contains(b, x);
        assert(a.contains(x));
        let k = choose|k: int| 0 <= k < b.len() && b[k] == x;
        to_multiset_remove(a, last);
        to_multiset_remove(b, k);
        lemma_identity_pairs_permuted(a.remove(last), b.remove(k));
        lemma_identity_pairs_remove(a, last);
        lemma_identity_pairs_remove(b, k);
    }
}

/// Two descending lists of pairs that hold the same pairs, those of one
/// name being the same pair, are the same list.
pub proof fn lemma_descending_pairs_unique(p: Seq<(Seq<char>, u64)>, q: Seq<(Seq<char>, u64)>)
    requires
        pairs_descending(p),
        pairs_descending(q),
        pairs_identify(p),
        p.to_multiset() == q.to_multiset(),
    ensures
        p == q,
    decreases p.len(),
{
    to_multiset_len(p);
    to_multiset_len(q);
    if p.len() == 0 {
        assert(p =~= q);
    } else {
        to_multiset_contains(p, p[0]);
        to_multiset_contains(q, p[0]);
        to_multiset_contains(p, q[0]);
        to_multiset_contains(q, q[0]);
        assert(p.contains(p[0]));
        assert(q.contains(q[0]));
        let k = choose|k: int| 0 <= k < q.len() && q[k] == p[0];
        let m = choose|m: int| 0 <= m < p.len() && p[m] == q[0];
        if k != 0 && m != 0 {
            assert(!precedes(q[0].0, q[k].0));
            assert(!precedes(p[0].0, p[m].0));
            lemma_precedes_total(p[0].0, q[0].0, 0);
            assert(p[0] == p[m]);
        }
        assert(p[0] == q[0]);
        to_multiset_remove(p, 0);
        to_multiset_remove(q, 0);
        assert(p.remove(0) =~= p.drop_first());
        assert(q.remove(0) =~= q.drop_first());
        let tp = p.drop_first();
        let tq = q.drop_first();
        assert(pairs_descending(tp)) by {
            assert forall|i: int, j: int| 0 <= i < j < tp.len() implies !precedes(
                (#[trigger] tp[i]).0,
                (#[trigger] tp[j]).0,
            ) by {
                assert(tp[i] == p[i + 1] && tp[j] == p[j + 1]);
            }
        }
        assert(pairs_descending(tq)) by {
            assert forall|i: int, j: int| 0 <= i < j < tq.len() implies !precedes(
                (#[trigger] tq[i]).0,
                (#[trigger] tq[j]).0,
            ) by {
                assert(tq[i] == q[i + 1] && tq[j] == q[j + 1]);
            }
        }
        assert(pairs_identify(tp)) by {
            assert forall|i: int, j: int|
                0 <= i < tp.len() && 0 <= j < tp.len() && (#[trigger] tp[i]).0 == (
                #[trigger] tp[j]).0 implies tp[i] == tp[j] by {
                assert(tp[i] == p[i + 1] && tp[j] == p[j + 1]);
            }
        }
        lemma_descending_pairs_unique(tp, tq);
        assert(p =~= seq![p[0]] + tp);
        assert(q =~= seq![q[0]] + tq);
    }
}

/// Where the connected outputs of one name report one identity code, the
/// pairs of one name are the same pair, in whatever order the outputs stand.
pub proof fn lemma_pairs_identify(a: Seq<OutputView>, b: Seq<OutputView>)
    requires
        names_identify(a),
        a.to_multiset() == b.to_multiset(),
    ensures
        pairs_identify(identity_pairs(b)),
{
    let pairs = identity_pairs(b);
    assert forall|i: int, j: int|
        0 <= i < pairs.len() && 0 <= j < pairs.len() && (#[trigger] pairs[i]).0 == (
        #[trigger] pairs[j]).0 implies pairs[i] == pairs[j] by {
        let s = lemma_identity_pair_source(b, i);
        let t = lemma_identity_pair_source(b, j);
        to_multiset_contains(a, b[s]);
        to_multiset_contains(b, b[s]);
        to_multiset_contains(a, b[t]);
        to_multiset_contains(b, b[t]);
        assert(b.contains(b[s]));
        assert(b.contains(b[t]));
        let u = choose|u: int| 0 <= u < a.len() && a[u] == b[s];
        let v = choose|v: int| 0 <= v < a.len() && a[v] == b[t];
        assert(a[u].is_connected && a[v].is_connected);
        assert(a[u].edid == a[v].edid);
    }
}

/// The signature does not depend on the order in which the outputs were
/// reported: two lists that hold the same outputs have, once sorted, the same
/// signature. This holds where the connected outputs of one name report one
/// identity code; two connected outputs of one name with different codes
/// come out in the order in which they were reported.
pub proof fn lemma_signature_ignores_query_order(a: Seq<OutputView>, b: Seq<OutputView>)
    requires
        a.to_multiset() == b.to_multiset(),
        names_identify(a),
    ensures
        identity_pairs(sort_descending(a)) == identity_pairs(sort_descending(b)),
        signature(sort_descending(a)) == signature(sort_descending(b)),
{
    let sa = sort_descending(a);
    let sb = sort_descending(b);
    lemma_sort_descending(a);
    lemma_sort_descending(b);
    lemma_pairs_of_descending(sa);
    lemma_pairs_of_descending(sb);
    lemma_identity_pairs_permuted(sa, sb);
    lemma_pairs_identify(a, sa);
    lemma_descending_pairs_unique(identity_pairs(sa), identity_pairs(sb));
}

/// The signature depends on the names and identity codes of the connected
/// outputs alone: snapshots that agree in those have the same signature,
/// whatever else differs in them.
pub proof fn lemma_signature_depends_on_identity_pairs(a: Seq<OutputView>, b: Seq<OutputView>)
    requires
        identity_pairs(a) == identity_pairs(b),
    ensures
        signature(a) == signature(b),
{
}

/// Which outputs are mapped, where they are placed and how they are set has
/// no part in the signature.
pub proof fn lemma_signature_ignores_layout(a: Seq<OutputView>, b: Seq<OutputView>)
    requires
        a.len() == b.len(),
        forall|i: int|
            0 <= i < a.len() ==> a[i].name == b[i].name && a[i].edid == b[i].edid
                && a[i].is_connected == b[i].is_connected,
    ensures
        signature(a) == signature(b),
    decreases a.len(),
{
    if a.len() == 0 {
        assert(a =~= b);
    } else {
        lemma_signature_ignores_layout(a.drop_last(), b.drop_last());
        lemma_identity_pairs_same_keys(a, b);
    }
}

/// Snapshots whose outputs agree, one by one, in name, identity code and
/// connectivity have the same names and identity codes of connected outputs.
pub proof fn lemma_identity_pairs_same_keys(a: Seq<OutputView>, b: Seq<OutputView>)
    requires
        a.len() == b.len(),
        forall|i: int|
            0 <= i < a.len() ==> a[i].name == b[i].name && a[i].edid == b[i].edid
                && a[i].is_connected == b[i].is_connected,
    ensures
        identity_pairs(a) == identity_pairs(b),
    decreases a.len(),
{
    if a.len() == 0 {
        assert(a =~= b);
    } else {
        lemma_identity_pairs_same_keys(a.drop_last(), b.drop_last());
        lemma_identity_pairs_push(a.drop_last(), a.last());
        lemma_identity_pairs_push(b.drop_last(), b.last());
        assert(a.drop_last().push(a.last()) =~= a);
        assert(b.drop_last().push(b.last()) =~= b);
    }
}

} // verus!
