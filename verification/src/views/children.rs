//! The children list of a native view: where an inserted child lands, what
//! removing a child leaves, and how the two undo each other.

use vstd::prelude::*;
use crate::platform::NativeHandle;

verus! {

/// `children` after `child` was inserted at `index`, or at the end when the
/// index is past it.
pub open spec fn inserted_at(children: Seq<NativeHandle>, child: NativeHandle, index: int) -> Seq<NativeHandle> {
    children.insert(if index < children.len() { index } else { children.len() as int }, child)
}

/// `children` without any occurrence of `child`.
pub open spec fn without(children: Seq<NativeHandle>, child: NativeHandle) -> Seq<NativeHandle> {
    children.filter(other_than(child))
}

/// Whether a handle is another than `child`.
pub open spec fn other_than(child: NativeHandle) -> spec_fn(NativeHandle) -> bool {
    |c: NativeHandle| c != child
}

/// After `remove_child`, the parent no longer lists the child.
pub proof fn lemma_removed_child_is_gone(children: Seq<NativeHandle>, child: NativeHandle)
    ensures
        !without(children, child).contains(child),
{
    broadcast use vstd::seq_lib::group_filter_ensures;
    if without(children, child).contains(child) {
        let i = choose|i: int| 0 <= i < without(children, child).len() && without(children, child)[i] == child;
        assert((|c: NativeHandle| c != child)(without(children, child)[i]));
    }
}

proof fn lemma_without_absent(s: Seq<NativeHandle>, c: NativeHandle)
    requires
        !s.contains(c),
    ensures
        without(s, c) == s,
    decreases s.len(),
{
    reveal(Seq::filter);
    if s.len() > 0 {
        assert(!s.drop_last().contains(c)) by {
            if s.drop_last().contains(c) {
                let i = choose|i: int| 0 <= i < s.drop_last().len() && s.drop_last()[i] == c;
                assert(s[i] == c);
            }
        }
        lemma_without_absent(s.drop_last(), c);
        assert(s.last() != c) by {
            assert(s[s.len() - 1] == s.last());
        }
        assert(s.drop_last().push(s.last()) =~= s);
    }
}

proof fn lemma_without_insert(s: Seq<NativeHandle>, c: NativeHandle, k: int)
    requires
        0 <= k <= s.len(),
    ensures
        without(s.insert(k, c), c) == without(s, c),
    decreases s.len(),
{
    reveal(Seq::filter);
    let t = s.insert(k, c);
    if k == s.len() {
        assert(t.drop_last() =~= s);
        assert(t.last() == c);
    } else {
        assert(t.drop_last() =~= s.drop_last().insert(k, c));
        assert(t.last() == s.last());
        lemma_without_insert(s.drop_last(), c, k);
    }
}

/// Removing a child undoes inserting it, wherever it was inserted, when the
/// parent did not list it before.
pub proof fn lemma_remove_undoes_insert(children: Seq<NativeHandle>, child: NativeHandle, index: int)
    requires
        0 <= index,
        !children.contains(child),
    ensures
        without(inserted_at(children, child, index), child) == children,
{
    let k = if index < children.len() { index } else { children.len() as int };
    lemma_without_insert(children, child, k);
    lemma_without_absent(children, child);
}

} // verus!
