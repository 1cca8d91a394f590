//! Walks that end at all end within as many steps as there are nodes: a
//! longer walk would meet some node twice, and could then go round forever.

use vstd::prelude::*;
use vstd::set_lib::lemma_len_subset;
use crate::tree::{depth_within, parent_in, reaches_top, NodeId, ShadowNode};

verus! {

/// The node `i` steps up from `k` (staying at the top once there).
pub open spec fn ancestor<P>(m: Map<u64, ShadowNode<P>>, k: u64, i: nat) -> u64
    decreases i,
{
    if i == 0 {
        k
    } else {
        match parent_in(m, ancestor(m, k, (i - 1) as nat)) {
            Some(p) => p.0,
            None => ancestor(m, k, (i - 1) as nat),
        }
    }
}

proof fn lemma_ancestor_shift<P>(m: Map<u64, ShadowNode<P>>, k: u64, p: u64, t: nat)
    requires
        parent_in(m, k) matches Some(q) && q.0 == p,
    ensures
        ancestor(m, k, t + 1) == ancestor(m, p, t),
    decreases t,
{
    if t > 0 {
        lemma_ancestor_shift(m, k, p, (t - 1) as nat);
        assert(ancestor(m, k, t) == ancestor(m, p, (t - 1) as nat));
        assert(ancestor(m, k, t + 1) == ancestor(m, k, ((t + 1) - 1) as nat + 1));
    } else {
        assert(ancestor(m, k, 0) == k);
        assert(ancestor(m, p, 0) == p);
    }
}

/// Reaching the top within `n` steps is finding a node without a parent
/// among the first `n` ancestors.
proof fn lemma_reaches_top_iff<P>(m: Map<u64, ShadowNode<P>>, k: u64, n: nat)
    ensures
        reaches_top(m, k, n) <==> exists|t: nat| t < n && #[trigger] parent_in(m, ancestor(m, k, t)) is None,
    decreases n,
{
    if n > 0 {
        match parent_in(m, k) {
            None => {
                assert(parent_in(m, ancestor(m, k, 0)) is None);
            },
            Some(p) => {
                lemma_reaches_top_iff(m, p.0, (n - 1) as nat);
                if reaches_top(m, k, n) {
                    let t = choose|t: nat| t < n - 1 && #[trigger] parent_in(m, ancestor(m, p.0, t)) is None;
                    lemma_ancestor_shift(m, k, p.0, t);
                    assert(parent_in(m, ancestor(m, k, t + 1)) is None);
                }
                if exists|t: nat| t < n && #[trigger] parent_in(m, ancestor(m, k, t)) is None {
                    let t = choose|t: nat| t < n && #[trigger] parent_in(m, ancestor(m, k, t)) is None;
                    assert(t != 0);
                    lemma_ancestor_shift(m, k, p.0, (t - 1) as nat);
                    assert(parent_in(m, ancestor(m, p.0, (t - 1) as nat)) is None);
                }
            },
        }
    }
}

proof fn lemma_ancestor_follows<P>(m: Map<u64, ShadowNode<P>>, k: u64, a: nat, b: nat, d: nat)
    requires
        ancestor(m, k, a) == ancestor(m, k, b),
    ensures
        ancestor(m, k, a + d) == ancestor(m, k, b + d),
    decreases d,
{
    if d > 0 {
        lemma_ancestor_follows(m, k, a, b, (d - 1) as nat);
        assert(ancestor(m, k, a + d) == ancestor(m, k, (a + d - 1) as nat + 1));
        assert(ancestor(m, k, b + d) == ancestor(m, k, (b + d - 1) as nat + 1));
    }
}

proof fn lemma_first_top<P>(m: Map<u64, ShadowNode<P>>, k: u64, t: nat) -> (t0: nat)
    requires
        parent_in(m, ancestor(m, k, t)) is None,
    ensures
        t0 <= t,
        parent_in(m, ancestor(m, k, t0)) is None,
        forall|i: nat| i < t0 ==> !(#[trigger] parent_in(m, ancestor(m, k, i)) is None),
    decreases t,
{
    if exists|i: nat| i < t && #[trigger] parent_in(m, ancestor(m, k, i)) is None {
        let i = choose|i: nat| i < t && #[trigger] parent_in(m, ancestor(m, k, i)) is None;
        lemma_first_top(m, k, i)
    } else {
        t
    }
}

/// Following parents up from `k` ends at all only if it ends within as many
/// steps as there are nodes, and one more.
pub proof fn lemma_parent_chain_bound<P>(m: Map<u64, ShadowNode<P>>, k: u64, n: nat)
    requires
        m.dom().finite(),
        reaches_top(m, k, n),
    ensures
        reaches_top(m, k, m.len() + 1),
{
    lemma_reaches_top_iff(m, k, n);
    let t = choose|t: nat| t < n && #[trigger] parent_in(m, ancestor(m, k, t)) is None;
    let t0 = lemma_first_top(m, k, t);
    let s = Seq::new(t0, |i: int| ancestor(m, k, i as nat));
    assert forall|i: int, j: int| 0 <= i < j < s.len() implies s[i] != s[j] by {
        if s[i] == s[j] {
            lemma_ancestor_follows(m, k, i as nat, j as nat, (t0 - j) as nat);
            assert(parent_in(m, ancestor(m, k, (i + (t0 - j)) as nat)) is None);
        }
    }
    assert(s.no_duplicates());
    s.unique_seq_to_set();
    assert forall|x: u64| s.to_set().contains(x) implies m.dom().contains(x) by {
        let i = choose|i: int| 0 <= i < s.len() && s[i] == x;
        assert(!(parent_in(m, ancestor(m, k, i as nat)) is None));
    }
    lemma_len_subset(s.to_set(), m.dom());
    assert(parent_in(m, ancestor(m, k, t0)) is None);
    lemma_reaches_top_iff(m, k, m.len() + 1);
}

/// `b` is among the children of `a`.
pub open spec fn steps_to(g: Map<u64, Seq<NodeId>>, a: u64, b: u64) -> bool {
    g.contains_key(a) && exists|c: int| 0 <= c < g[a].len() && (#[trigger] g[a][c]).0 == b
}

/// `w` is a walk down the children links through nodes that are all there.
pub open spec fn is_walk(g: Map<u64, Seq<NodeId>>, w: Seq<u64>) -> bool {
    &&& w.len() > 0
    &&& forall|i: int| 0 <= i < w.len() ==> g.contains_key(#[trigger] w[i])
    &&& forall|i: int| 0 <= i < w.len() - 1 ==> steps_to(g, #[trigger] w[i], w[i + 1])
}

proof fn lemma_long_walk(g: Map<u64, Seq<NodeId>>, k: u64, h: nat) -> (w: Seq<u64>)
    requires
        !depth_within(g, k, h),
    ensures
        is_walk(g, w),
        w[0] == k,
        w.len() == h + 1,
    decreases h,
{
    if h == 0 {
        seq![k]
    } else {
        let c = choose|c: int| 0 <= c < g[k].len() && !depth_within(g, (#[trigger] g[k][c]).0, (h - 1) as nat);
        let rest = lemma_long_walk(g, g[k][c].0, (h - 1) as nat);
        let w = seq![k] + rest;
        assert forall|i: int| 0 <= i < w.len() implies g.contains_key(#[trigger] w[i]) by {
            if i > 0 {
                assert(w[i] == rest[i - 1]);
            }
        }
        assert forall|i: int| 0 <= i < w.len() - 1 implies steps_to(g, #[trigger] w[i], w[i + 1]) by {
            if i > 0 {
                assert(w[i] == rest[i - 1] && w[i + 1] == rest[i]);
            } else {
                assert(w[1] == rest[0]);
                assert(g[k][c].0 == w[1]);
            }
        }
        w
    }
}

proof fn lemma_walk_fails(g: Map<u64, Seq<NodeId>>, w: Seq<u64>, h: nat)
    requires
        is_walk(g, w),
        w.len() == h + 1,
    ensures
        !depth_within(g, w[0], h),
    decreases h,
{
    if h > 0 {
        let rest = w.drop_first();
        assert forall|i: int| 0 <= i < rest.len() implies g.contains_key(#[trigger] rest[i]) by {
            assert(rest[i] == w[i + 1]);
        }
        assert forall|i: int| 0 <= i < rest.len() - 1 implies steps_to(g, #[trigger] rest[i], rest[i + 1]) by {
            assert(rest[i] == w[i + 1] && rest[i + 1] == w[i + 2]);
        }
        lemma_walk_fails(g, rest, (h - 1) as nat);
        assert(steps_to(g, w[0], w[1]));
        let c = choose|c: int| 0 <= c < g[w[0]].len() && (#[trigger] g[w[0]][c]).0 == w[1];
        assert(rest[0] == w[1]);
    }
}

proof fn lemma_walk_prefix(g: Map<u64, Seq<NodeId>>, w: Seq<u64>, n: int)
    requires
        is_walk(g, w),
        1 <= n <= w.len(),
    ensures
        is_walk(g, w.take(n)),
        w.take(n)[0] == w[0],
{
    let t = w.take(n);
    assert forall|i: int| 0 <= i < t.len() implies g.contains_key(#[trigger] t[i]) by {
        assert(t[i] == w[i]);
    }
    assert forall|i: int| 0 <= i < t.len() - 1 implies steps_to(g, #[trigger] t[i], t[i + 1]) by {
        assert(t[i] == w[i] && t[i + 1] == w[i + 1]);
    }
}

proof fn lemma_pump(g: Map<u64, Seq<NodeId>>, w: Seq<u64>, i: int, j: int, len: nat) -> (v: Seq<u64>)
    requires
        is_walk(g, w),
        0 <= i < j < w.len(),
        w[i] == w[j],
    ensures
        is_walk(g, v),
        v[0] == w[0],
        v.len() >= len,
    decreases if w.len() >= len { 0 } else { len - w.len() },
{
    if w.len() >= len {
        w
    } else {
        let v = w.take(j) + w.subrange(i, w.len() as int);
        assert forall|x: int| 0 <= x < v.len() implies g.contains_key(#[trigger] v[x]) by {
            if x < j {
                assert(v[x] == w[x]);
            } else {
                assert(v[x] == w[i + x - j]);
            }
        }
        assert forall|x: int| 0 <= x < v.len() - 1 implies steps_to(g, #[trigger] v[x], v[x + 1]) by {
            if x < j - 1 {
                assert(v[x] == w[x] && v[x + 1] == w[x + 1]);
            } else if x == j - 1 {
                assert(v[x] == w[j - 1] && v[x + 1] == w[i]);
                assert(steps_to(g, w[j - 1], w[j]));
            } else {
                assert(v[x] == w[i + x - j] && v[x + 1] == w[i + x - j + 1]);
            }
        }
        assert(v[i] == w[i]);
        assert(v[j] == w[i]);
        assert(v[0] == w[0]);
        assert(v.len() == w.len() + (j - i));
        lemma_pump(g, v, i, j, len)
    }
}

/// Every walk down from `k` ends at all only if every walk down from `k`
/// ends within as many steps as there are nodes, and one more.
pub proof fn lemma_depth_bound(g: Map<u64, Seq<NodeId>>, k: u64, h: nat)
    requires
        g.dom().finite(),
        depth_within(g, k, h),
    ensures
        depth_within(g, k, g.len() + 1),
{
    if !depth_within(g, k, g.len() + 1) {
        let w = lemma_long_walk(g, k, g.len() + 1);
        if w.no_duplicates() {
            w.unique_seq_to_set();
            assert forall|x: u64| w.to_set().contains(x) implies g.dom().contains(x) by {
                let i = choose|i: int| 0 <= i < w.len() && w[i] == x;
            }
            lemma_len_subset(w.to_set(), g.dom());
        }
        let (i, j) = choose|i: int, j: int| 0 <= i < w.len() && 0 <= j < w.len() && i != j && w[i] == w[j];
        let v = if i < j {
            lemma_pump(g, w, i, j, h + 1)
        } else {
            lemma_pump(g, w, j, i, h + 1)
        };
        lemma_walk_prefix(g, v, (h + 1) as int);
        lemma_walk_fails(g, v.take((h + 1) as int), h);
    }
}

} // verus!
