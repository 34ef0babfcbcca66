//! The cascade: which of the declarations that reach an element sets each
//! property.
use vstd::prelude::*;

use super::rules::Property;

verus! {

/// What a declaration competes with: whether it is `!important`, the
/// specificity of its selector, and its place in source order.
#[derive(Debug, Clone, Copy, PartialEq, Eq, Structural)]
pub struct CascadeKey {
    pub important: bool,
    pub specificity: u32,
    pub order: usize,
}

/// `a` outranks `b`: importance first, then specificity, then source order.
pub open spec fn outranks(a: CascadeKey, b: CascadeKey) -> bool {
    if a.important != b.important {
        a.important
    } else if a.specificity != b.specificity {
        a.specificity > b.specificity
    } else {
        a.order > b.order
    }
}

/// Whether `a` outranks `b`.
pub fn key_outranks(a: CascadeKey, b: CascadeKey) -> (r: bool)
    ensures
        r == outranks(a, b),
{
    if a.important != b.important {
        a.important
    } else if a.specificity != b.specificity {
        a.specificity > b.specificity
    } else {
        a.order > b.order
    }
}

/// Candidate `i` sets property `p`: it is a declaration of `p`, no
/// declaration of `p` outranks it, and every earlier one of `p` ranks
/// below it (of equal keys the first one stays).
pub open spec fn is_winner(cands: Seq<(Property, CascadeKey)>, p: Property, i: int) -> bool {
    &&& 0 <= i < cands.len()
    &&& cands[i].0 == p
    &&& forall|j: int| 0 <= j < cands.len() && #[trigger] cands[j].0 == p ==> !outranks(cands[j].1, cands[i].1)
    &&& forall|j: int| 0 <= j < i && #[trigger] cands[j].0 == p ==> outranks(cands[i].1, cands[j].1)
}

/// `out` names, for each property that some candidate declares, the one
/// candidate that sets it, and nothing else.
pub open spec fn is_cascade_result(cands: Seq<(Property, CascadeKey)>, out: Seq<(Property, usize)>) -> bool {
    &&& forall|k: int| 0 <= k < out.len() ==> is_winner(cands, #[trigger] out[k].0, out[k].1 as int)
    &&& forall|k1: int, k2: int| 0 <= k1 < k2 < out.len() ==> #[trigger] out[k1].0 != #[trigger] out[k2].0
    &&& forall|j: int| 0 <= j < cands.len() ==> exists|k: int| 0 <= k < out.len() && #[trigger] out[k].0 == #[trigger] cands[j].0
    &&& in_first_declared_order(cands, out)
}

/// Some candidate before index `j` declares `p`.
pub open spec fn declared_before(cands: Seq<(Property, CascadeKey)>, p: Property, j: int) -> bool {
    exists|i: int| 0 <= i < j && #[trigger] cands[i].0 == p
}

/// The properties of `out` come in the order in which `cands` first
/// declares them: every declaration of a later property of `out` has a
/// declaration of each earlier property before it.
pub open spec fn in_first_declared_order(cands: Seq<(Property, CascadeKey)>, out: Seq<(Property, usize)>) -> bool {
    forall|k1: int, k2: int, j: int|
        #![trigger out[k1], out[k2], cands[j]]
        0 <= k1 < k2 < out.len() && 0 <= j < cands.len() && cands[j].0 == out[k2].0
            ==> declared_before(cands, out[k1].0, j)
}

proof fn lemma_outranks_transitive(a: CascadeKey, b: CascadeKey, c: CascadeKey)
    requires
        outranks(a, b),
        outranks(b, c),
    ensures
        outranks(a, c),
{
}

proof fn lemma_outranks_total(a: CascadeKey, b: CascadeKey)
    ensures
        a == b || outranks(a, b) || outranks(b, a),
        !(outranks(a, b) && outranks(b, a)),
{
}

proof fn lemma_winner_other(pre: Seq<(Property, CascadeKey)>, c: (Property, CascadeKey), qp: Property, qi: int)
    requires
        is_winner(pre, qp, qi),
        c.0 != qp,
    ensures
        is_winner(pre.push(c), qp, qi),
{
    let post = pre.push(c);
    assert forall|m: int| 0 <= m < post.len() && #[trigger] post[m].0 == qp implies !outranks(post[m].1, post[qi].1) by {
        assert(m < pre.len());
        assert(post[m] == pre[m]);
    }
    assert forall|m: int| 0 <= m < qi && #[trigger] post[m].0 == qp implies outranks(post[qi].1, post[m].1) by {
        assert(post[m] == pre[m]);
    }
}

proof fn lemma_winner_keep(pre: Seq<(Property, CascadeKey)>, c: (Property, CascadeKey), wi: int)
    requires
        is_winner(pre, c.0, wi),
        !outranks(c.1, pre[wi].1),
    ensures
        is_winner(pre.push(c), c.0, wi),
{
    let post = pre.push(c);
    assert forall|m: int| 0 <= m < post.len() && #[trigger] post[m].0 == c.0 implies !outranks(post[m].1, post[wi].1) by {
        if m < pre.len() {
            assert(post[m] == pre[m]);
        }
    }
    assert forall|m: int| 0 <= m < wi && #[trigger] post[m].0 == c.0 implies outranks(post[wi].1, post[m].1) by {
        assert(post[m] == pre[m]);
    }
}

proof fn lemma_winner_replace(pre: Seq<(Property, CascadeKey)>, c: (Property, CascadeKey), wi: int)
    requires
        is_winner(pre, c.0, wi),
        outranks(c.1, pre[wi].1),
    ensures
        is_winner(pre.push(c), c.0, pre.len() as int),
{
    let post = pre.push(c);
    let n = pre.len() as int;
    assert forall|m: int| 0 <= m < post.len() && #[trigger] post[m].0 == c.0 implies !outranks(post[m].1, post[n].1) by {
        if m < n {
            assert(post[m] == pre[m]);
            lemma_outranks_total(pre[m].1, pre[wi].1);
            if pre[m].1 != pre[wi].1 {
                lemma_outranks_transitive(c.1, pre[wi].1, pre[m].1);
            }
            lemma_outranks_total(pre[m].1, c.1);
        } else {
            lemma_outranks_total(c.1, c.1);
        }
    }
    assert forall|m: int| 0 <= m < n && #[trigger] post[m].0 == c.0 implies outranks(post[n].1, post[m].1) by {
        assert(post[m] == pre[m]);
        lemma_outranks_total(pre[m].1, pre[wi].1);
        if pre[m].1 != pre[wi].1 {
            lemma_outranks_transitive(c.1, pre[wi].1, pre[m].1);
        }
    }
}

proof fn lemma_winner_first(pre: Seq<(Property, CascadeKey)>, c: (Property, CascadeKey))
    requires
        forall|m: int| 0 <= m < pre.len() ==> #[trigger] pre[m].0 != c.0,
    ensures
        is_winner(pre.push(c), c.0, pre.len() as int),
{
    let post = pre.push(c);
    let n = pre.len() as int;
    assert forall|m: int| 0 <= m < post.len() && #[trigger] post[m].0 == c.0 implies !outranks(post[m].1, post[n].1) by {
        if m < n {
            assert(post[m] == pre[m]);
        } else {
            lemma_outranks_total(c.1, c.1);
        }
    }
    assert forall|m: int| 0 <= m < n && #[trigger] post[m].0 == c.0 implies outranks(post[n].1, post[m].1) by {
        assert(post[m] == pre[m]);
    }
}

proof fn lemma_order_new_property(pre: Seq<(Property, CascadeKey)>, c: (Property, CascadeKey), out: Seq<(Property, usize)>)
    requires
        is_cascade_result(pre, out),
        forall|m: int| 0 <= m < pre.len() ==> #[trigger] pre[m].0 != c.0,
    ensures
        in_first_declared_order(pre.push(c), out.push((c.0, pre.len() as usize))),
{
    let post = pre.push(c);
    let nout = out.push((c.0, pre.len() as usize));
    assert forall|k1: int, k2: int, j: int|
        #![trigger nout[k1], nout[k2], post[j]]
        0 <= k1 < k2 < nout.len() && 0 <= j < post.len() && post[j].0 == nout[k2].0
            implies declared_before(post, nout[k1].0, j) by {
        assert(nout[k1] == out[k1]);
        if k2 < out.len() {
            assert(nout[k2] == out[k2]);
            if j == pre.len() {
                let w = out[k2].1 as int;
                assert(is_winner(pre, out[k2].0, w));
                assert(pre[w].0 == c.0);
            }
            assert(post[j] == pre[j]);
            assert(out[k1] == out[k1] && out[k2] == out[k2] && pre[j] == pre[j]);
            let i = choose|i: int| 0 <= i < j && #[trigger] pre[i].0 == out[k1].0;
            assert(post[i] == pre[i]);
        } else {
            if j < pre.len() {
                assert(post[j] == pre[j]);
            }
            let w = out[k1].1 as int;
            assert(is_winner(pre, out[k1].0, w));
            assert(post[w] == pre[w]);
        }
    }
}

proof fn lemma_order_known_property(
    pre: Seq<(Property, CascadeKey)>,
    c: (Property, CascadeKey),
    out: Seq<(Property, usize)>,
    nout: Seq<(Property, usize)>,
    k: int,
)
    requires
        in_first_declared_order(pre, out),
        forall|q: int| 0 <= q < out.len() ==> 0 <= #[trigger] out[q].1 < pre.len() && pre[out[q].1 as int].0 == out[q].0,
        0 <= k < out.len(),
        out[k].0 == c.0,
        nout.len() == out.len(),
        forall|q: int| 0 <= q < out.len() ==> #[trigger] nout[q].0 == out[q].0,
    ensures
        in_first_declared_order(pre.push(c), nout),
{
    let post = pre.push(c);
    assert forall|k1: int, k2: int, j: int|
        #![trigger nout[k1], nout[k2], post[j]]
        0 <= k1 < k2 < nout.len() && 0 <= j < post.len() && post[j].0 == nout[k2].0
            implies declared_before(post, nout[k1].0, j) by {
        assert(nout[k1].0 == out[k1].0);
        assert(nout[k2].0 == out[k2].0);
        if j < pre.len() {
            assert(post[j] == pre[j]);
            assert(out[k1] == out[k1] && out[k2] == out[k2] && pre[j] == pre[j]);
            let i = choose|i: int| 0 <= i < j && #[trigger] pre[i].0 == out[k1].0;
            assert(post[i] == pre[i]);
        } else {
            let w = out[k1].1 as int;
            assert(post[w] == pre[w]);
        }
    }
}

/// A property has at most one winning declaration.
pub proof fn law_winner_unique(cands: Seq<(Property, CascadeKey)>, p: Property, i: int, j: int)
    requires
        is_winner(cands, p, i),
        is_winner(cands, p, j),
    ensures
        i == j,
{
    lemma_outranks_total(cands[i].1, cands[j].1);
}

/// An `!important` declaration prevails over every normal declaration of
/// the same property: a normal one never wins against it.
pub proof fn law_important_beats_normal(cands: Seq<(Property, CascadeKey)>, p: Property, i: int, j: int)
    requires
        0 <= i < cands.len(),
        0 <= j < cands.len(),
        cands[i].0 == p,
        cands[j].0 == p,
        cands[i].1.important,
        !cands[j].1.important,
    ensures
        !is_winner(cands, p, j),
{
}

/// Of two declarations of equal importance, the one whose selector is less
/// specific does not win.
pub proof fn law_specificity_decides(cands: Seq<(Property, CascadeKey)>, p: Property, i: int, j: int)
    requires
        0 <= i < cands.len(),
        0 <= j < cands.len(),
        cands[i].0 == p,
        cands[j].0 == p,
        cands[i].1.important == cands[j].1.important,
        cands[i].1.specificity > cands[j].1.specificity,
    ensures
        !is_winner(cands, p, j),
{
}

/// Of two declarations of equal importance and specificity, the one that
/// comes earlier in source order does not win.
pub proof fn law_later_wins_on_tie(cands: Seq<(Property, CascadeKey)>, p: Property, i: int, j: int)
    requires
        0 <= i < cands.len(),
        0 <= j < cands.len(),
        cands[i].0 == p,
        cands[j].0 == p,
        cands[i].1.important == cands[j].1.important,
        cands[i].1.specificity == cands[j].1.specificity,
        cands[i].1.order > cands[j].1.order,
    ensures
        !is_winner(cands, p, j),
{
}

/// An inline declaration (of the greatest specificity and order) is beaten
/// only by a more important one: the winner of its property either has
/// the same key or is `!important` where the inline one is not.
pub proof fn law_inline_style_wins(cands: Seq<(Property, CascadeKey)>, p: Property, i: int, w: int)
    requires
        0 <= i < cands.len(),
        cands[i].0 == p,
        cands[i].1.specificity == u32::MAX,
        cands[i].1.order == usize::MAX,
        is_winner(cands, p, w),
    ensures
        cands[w].1 == cands[i].1 || (cands[w].1.important && !cands[i].1.important),
{
    lemma_outranks_total(cands[w].1, cands[i].1);
}

/// The winning candidate of each declared property, properties in the
/// order in which they are first declared.
pub fn cascade_winners(cands: &Vec<(Property, CascadeKey)>) -> (out: Vec<(Property, usize)>)
    ensures
        is_cascade_result(cands@, out@),
{
    let mut out: Vec<(Property, usize)> = Vec::new();
    let mut j: usize = 0;
    while j < cands.len()
        invariant
            j <= cands@.len(),
            is_cascade_result(cands@.take(j as int), out@),
            forall|k: int| 0 <= k < out@.len() ==> #[trigger] out@[k].1 < j,
        decreases cands@.len() - j,
    {
        let ghost pre = cands@.take(j as int);
        let ghost c = cands@[j as int];
        let (p, key) = cands[j];
        proof {
            assert(cands@.take(j + 1) =~= pre.push(c));
        }
        let mut k: usize = 0;
        while k < out.len() && out[k].0 != p
            invariant
                k <= out@.len(),
                forall|m: int| 0 <= m < k ==> (#[trigger] out@[m]).0 != p,
            decreases out@.len() - k,
        {
            k += 1;
        }
        let ghost old_out = out@;
        if k < out.len() {
            let w = out[k].1;
            proof {
                assert(is_winner(pre, p, w as int));
                assert(pre[w as int] == cands@[w as int]);
            }
            if key_outranks(key, cands[w].1) {
                out.set(k, (p, j));
                proof {
                    lemma_winner_replace(pre, c, w as int);
                }
            } else {
                proof {
                    lemma_winner_keep(pre, c, w as int);
                }
            }
            proof {
                assert forall|q: int| 0 <= q < out@.len() implies is_winner(pre.push(c), #[trigger] out@[q].0, out@[q].1 as int) by {
                    if q != k {
                        assert(old_out[q].0 != p);
                        lemma_winner_other(pre, c, old_out[q].0, old_out[q].1 as int);
                    }
                }
                assert forall|m: int| 0 <= m < pre.len() + 1 implies exists|q: int| 0 <= q < out@.len() && #[trigger] out@[q].0 == #[trigger] pre.push(c)[m].0 by {
                    if m < pre.len() {
                        assert(pre.push(c)[m] == pre[m]);
                        let q = choose|q: int| 0 <= q < old_out.len() && #[trigger] old_out[q].0 == #[trigger] pre[m].0;
                        assert(out@[q].0 == old_out[q].0);
                    } else {
                        assert(out@[k as int].0 == p);
                    }
                }
                assert forall|q: int| 0 <= q < old_out.len() implies #[trigger] out@[q].0 == old_out[q].0 by {}
                assert forall|q: int| 0 <= q < old_out.len() implies 0 <= #[trigger] old_out[q].1 < pre.len() && pre[old_out[q].1 as int].0 == old_out[q].0 by {
                    assert(is_winner(pre, old_out[q].0, old_out[q].1 as int));
                }
                lemma_order_known_property(pre, c, old_out, out@, k as int);
            }
        } else {
            out.push((p, j));
            proof {
                assert forall|m: int| 0 <= m < pre.len() implies #[trigger] pre[m].0 != c.0 by {
                    if pre[m].0 == c.0 {
                        let q = choose|q: int| 0 <= q < old_out.len() && #[trigger] old_out[q].0 == #[trigger] pre[m].0;
                        assert(old_out[q].0 != p);
                    }
                }
                lemma_winner_first(pre, c);
                assert(out@ =~= old_out.push((c.0, pre.len() as usize)));
                lemma_order_new_property(pre, c, old_out);
                assert forall|q: int| 0 <= q < out@.len() implies is_winner(pre.push(c), #[trigger] out@[q].0, out@[q].1 as int) by {
                    if q < old_out.len() {
                        assert(out@[q] == old_out[q]);
                        assert(old_out[q].0 != p);
                        lemma_winner_other(pre, c, old_out[q].0, old_out[q].1 as int);
                    }
                }
                assert forall|m: int| 0 <= m < pre.len() + 1 implies exists|q: int| 0 <= q < out@.len() && #[trigger] out@[q].0 == #[trigger] pre.push(c)[m].0 by {
                    if m < pre.len() {
                        assert(pre.push(c)[m] == pre[m]);
                        let q = choose|q: int| 0 <= q < old_out.len() && #[trigger] old_out[q].0 == #[trigger] pre[m].0;
                        assert(out@[q].0 == old_out[q].0);
                    } else {
                        assert(out@[old_out.len() as int].0 == p);
                    }
                }
                assert forall|k1: int, k2: int| 0 <= k1 < k2 < out@.len() implies #[trigger] out@[k1].0 != #[trigger] out@[k2].0 by {
                    if k2 < old_out.len() {
                        assert(out@[k1] == old_out[k1]);
                        assert(out@[k2] == old_out[k2]);
                    } else {
                        assert(out@[k1] == old_out[k1]);
                    }
                }
            }
        }
        j += 1;
    }
    assert(cands@.take(cands@.len() as int) =~= cands@);
    out
}

/// The specificity of a selector list: that of its most specific selector,
/// or 0 for none.
pub open spec fn max_specificity(specs: Seq<u32>) -> u32
    decreases specs.len(),
{
    if specs.len() == 0 {
        0
    } else if max_specificity(specs.drop_last()) >= specs.last() {
        max_specificity(specs.drop_last())
    } else {
        specs.last()
    }
}

/// The greatest of the specificities, or 0 for none.
pub fn selector_list_specificity(specs: &Vec<u32>) -> (r: u32)
    ensures
        r == max_specificity(specs@),
        forall|i: int| 0 <= i < specs@.len() ==> specs@[i] <= r,
        specs@.len() > 0 ==> exists|i: int| 0 <= i < specs@.len() && specs@[i] == r,
{
    let mut best: u32 = 0;
    let mut i: usize = 0;
    while i < specs.len()
        invariant
            i <= specs@.len(),
            best == max_specificity(specs@.take(i as int)),
            forall|m: int| 0 <= m < i ==> specs@[m] <= best,
            i > 0 ==> exists|m: int| 0 <= m < i && specs@[m] == best,
        decreases specs@.len() - i,
    {
        proof {
            let t = specs@.take(i + 1);
            assert(t.drop_last() =~= specs@.take(i as int));
            assert(t.last() == specs@[i as int]);
        }
        if specs[i] > best {
            best = specs[i];
        }
        i += 1;
    }
    assert(specs@.take(specs@.len() as int) =~= specs@);
    best
}

} // verus!
