//! Keeping the books on references: which inodes hold one on which directory.

use vstd::prelude::*;

use crate::passthrough::{with_reference, without_reference, InodeView, ROOT_ID};
use crate::restore::swap_removed;
use crate::serialized::{Inode, InodeLocation};

verus! {

impl Inode {
    /// The inode is found in the directory `id`, and so holds a reference to it.
    pub open spec fn child_of(self, id: u64) -> bool {
        self.location matches InodeLocation::Path { parent, .. } && parent == id
    }
}

/// How many of the inodes are found in the directory `id`.
pub open spec fn children(inodes: Seq<Inode>, id: u64) -> nat
    decreases inodes.len(),
{
    if inodes.len() == 0 {
        0
    } else {
        children(inodes.drop_last(), id) + (if inodes.last().child_of(id) {
            1nat
        } else {
            0nat
        })
    }
}

/// No two of the inodes have the same number.
pub open spec fn distinct(inodes: Seq<Inode>) -> bool {
    forall|i: int, j: int|
        0 <= i < j < inodes.len() ==> (#[trigger] inodes[i]).id != (#[trigger] inodes[j]).id
}

/// One of the inodes has the number `id`.
pub open spec fn known(inodes: Seq<Inode>, id: u64) -> bool {
    exists|i: int| 0 <= i < inodes.len() && (#[trigger] inodes[i]).id == id
}

/// What a source guarantees of the inodes that it sends: no number is used twice, and the reference
/// count of an inode includes a reference for each inode that is found in it. If an inode is found
/// below the root by a path, the root has a reference, and one more can be taken.
pub open spec fn promised(inodes: Seq<Inode>) -> bool {
    &&& distinct(inodes)
    &&& forall|i: int|
        0 <= i < inodes.len() ==> (#[trigger] inodes[i]).refcount >= children(inodes, inodes[i].id)
    &&& forall|i: int, j: int|
        0 <= i < inodes.len() && 0 <= j < inodes.len() && (#[trigger] inodes[i]).id == ROOT_ID && (
        #[trigger] inodes[j]).location is FullPath ==> 0 < inodes[i].refcount < u64::MAX
}

/// The inode is still there when every inode that is found in it has dropped its reference.
pub open spec fn stays(inodes: Seq<Inode>, inode: Inode) -> bool {
    inode.refcount > children(inodes, inode.id) || children(inodes, inode.id) == 0
}

pub(super) open spec fn one_if(b: bool) -> nat {
    if b {
        1
    } else {
        0
    }
}

proof fn lemma_children_update(inodes: Seq<Inode>, i: int, inode: Inode, id: u64)
    requires
        0 <= i < inodes.len(),
    ensures
        children(inodes.update(i, inode), id) + one_if(inodes[i].child_of(id)) == children(
            inodes,
            id,
        ) + one_if(inode.child_of(id)),
    decreases inodes.len(),
{
    let updated = inodes.update(i, inode);
    if i == inodes.len() - 1 {
        assert(updated.drop_last() =~= inodes.drop_last());
    } else {
        assert(updated.drop_last() =~= inodes.drop_last().update(i, inode));
        lemma_children_update(inodes.drop_last(), i, inode, id);
    }
}

/// Taking an inode out takes out one child of its directory.
pub(super) proof fn lemma_children_swap_removed(inodes: Seq<Inode>, i: int, id: u64)
    requires
        0 <= i < inodes.len(),
    ensures
        children(swap_removed(inodes, i), id) + one_if(inodes[i].child_of(id)) == children(
            inodes,
            id,
        ),
{
    lemma_children_update(inodes, i, inodes.last(), id);
    let updated = inodes.update(i, inodes.last());
    assert(updated.last() == inodes.last());
}

/// The inodes that are left when one is taken out.
pub(super) proof fn lemma_swap_removed(inodes: Seq<Inode>, i: int)
    requires
        distinct(inodes),
        0 <= i < inodes.len(),
    ensures
        distinct(swap_removed(inodes, i)),
        forall|inode: Inode| #[trigger]
            swap_removed(inodes, i).contains(inode) <==> inodes.contains(inode) && inode
                != inodes[i],
{
    let rest = swap_removed(inodes, i);
    let last = inodes.len() - 1;
    assert forall|inode: Inode| rest.contains(inode) implies inodes.contains(inode) && inode
        != inodes[i] by {
        let j = choose|j: int| 0 <= j < rest.len() && rest[j] == inode;
        if j == i {
            assert(inodes[last] == inode);
        } else {
            assert(inodes[j] == inode);
        }
    }
    assert forall|inode: Inode| inodes.contains(inode) && inode != inodes[i] implies rest.contains(
        inode,
    ) by {
        let j = choose|j: int| 0 <= j < inodes.len() && inodes[j] == inode;
        if j == last {
            assert(rest[i] == inode);
        } else {
            assert(rest[j] == inode);
        }
    }
}

proof fn lemma_child_counts(inodes: Seq<Inode>, i: int, id: u64)
    requires
        0 <= i < inodes.len(),
        inodes[i].child_of(id),
    ensures
        children(inodes, id) >= 1,
{
    lemma_children_swap_removed(inodes, i, id);
}

/// How many references to `inode` there are while the inodes in `open` still hold theirs to their
/// directories, and `borrowed` more references to the root are out.
pub(super) open spec fn references(
    all: Seq<Inode>,
    open: Seq<Inode>,
    borrowed: nat,
    inode: Inode,
) -> int {
    inode.refcount - children(all, inode.id) + children(open, inode.id) + (if inode.id == ROOT_ID {
        borrowed as int
    } else {
        0
    })
}

/// The books are right. Of `all` inodes those in `left` have not been added yet, those in `open`
/// still hold the reference to their directory, and `borrowed` more references to the root are out.
/// An inode is forgotten when its last reference is dropped.
pub(super) open spec fn books<F, H>(
    all: Seq<Inode>,
    left: Seq<Inode>,
    open: Seq<Inode>,
    inodes: Map<u64, InodeView<F, H>>,
    borrowed: nat,
) -> bool {
    &&& distinct(left)
    &&& distinct(open)
    &&& forall|id: u64| #[trigger] children(open, id) <= children(all, id)
    &&& forall|n: Inode| #[trigger]
        left.contains(n) ==> {
            &&& all.contains(n)
            &&& !inodes.contains_key(n.id)
            &&& children(open, n.id) == children(all, n.id)
        }
    &&& forall|n: Inode| #[trigger]
        all.contains(n) && !left.contains(n) ==> {
            &&& inodes.contains_key(n.id) <==> references(all, open, borrowed, n) > 0 || children(
                open,
                n.id,
            ) == children(all, n.id)
            &&& inodes.contains_key(n.id) ==> inodes[n.id].inode == n.id && inodes[n.id].refcount
                == references(all, open, borrowed, n)
        }
    &&& forall|id: u64| #[trigger] inodes.contains_key(id) ==> known(all, id)
}

/// An inode that is there is one of those that are not left.
pub(super) proof fn lemma_entry<F, H>(
    all: Seq<Inode>,
    left: Seq<Inode>,
    open: Seq<Inode>,
    inodes: Map<u64, InodeView<F, H>>,
    borrowed: nat,
    id: u64,
) -> (n: Inode)
    requires
        books(all, left, open, inodes, borrowed),
        inodes.contains_key(id),
    ensures
        all.contains(n),
        n.id == id,
        !left.contains(n),
{
    assert(known(all, id));
    let i = choose|i: int| 0 <= i < all.len() && (#[trigger] all[i]).id == id;
    assert(all.contains(all[i]));
    all[i]
}

/// An inode that is found in a directory drops its reference to it.
pub(super) proof fn lemma_release<F, H>(
    all: Seq<Inode>,
    left: Seq<Inode>,
    open: Seq<Inode>,
    inodes: Map<u64, InodeView<F, H>>,
    i: int,
    parent: u64,
)
    requires
        promised(all),
        books(all, left, open, inodes, 0),
        0 <= i < open.len(),
        open[i].child_of(parent),
        inodes.contains_key(parent),
    ensures
        books(all, left, swap_removed(open, i), without_reference(inodes, parent), 0),
{
    let n = lemma_entry(all, left, open, inodes, 0, parent);
    let rest = swap_removed(open, i);
    let after = without_reference(inodes, parent);
    assert forall|id: u64| children(open, id) == #[trigger] children(rest, id) + one_if(
        id == parent,
    ) by {
        lemma_children_swap_removed(open, i, id);
    }
    lemma_child_counts(open, i, parent);
    lemma_swap_removed(open, i);
    let k = choose|k: int| 0 <= k < all.len() && all[k] == n;
    assert(all[k].refcount >= children(all, all[k].id));
    assert forall|m: Inode| #[trigger] left.contains(m) implies {
        &&& all.contains(m)
        &&& !after.contains_key(m.id)
        &&& children(rest, m.id) == children(all, m.id)
    } by {
        assert(m.id != parent);
    }
    assert forall|m: Inode| #[trigger] all.contains(m) && !left.contains(m) implies {
        &&& after.contains_key(m.id) <==> references(all, rest, 0, m) > 0 || children(rest, m.id)
            == children(all, m.id)
        &&& after.contains_key(m.id) ==> after[m.id].inode == m.id && after[m.id].refcount
            == references(all, rest, 0, m)
    } by {
        if m.id == parent {
            let j = choose|j: int| 0 <= j < all.len() && all[j] == m;
            assert(j == k);
            assert(children(open, parent) <= children(all, parent));
        }
        assert(children(open, m.id) == children(rest, m.id) + one_if(m.id == parent));
    }
    assert forall|id: u64| #[trigger] children(rest, id) <= children(all, id) by {
        assert(children(open, id) <= children(all, id));
    }
}

/// An inode that is not found in a directory has no reference to drop.
pub(super) proof fn lemma_nothing_to_release<F, H>(
    all: Seq<Inode>,
    left: Seq<Inode>,
    open: Seq<Inode>,
    inodes: Map<u64, InodeView<F, H>>,
    i: int,
)
    requires
        books(all, left, open, inodes, 0),
        0 <= i < open.len(),
        !(open[i].location is Path),
    ensures
        books(all, left, swap_removed(open, i), inodes, 0),
{
    let rest = swap_removed(open, i);
    assert forall|id: u64| children(open, id) == #[trigger] children(rest, id) by {
        lemma_children_swap_removed(open, i, id);
    }
    lemma_swap_removed(open, i);
    assert forall|m: Inode| #[trigger] left.contains(m) implies children(rest, m.id) == children(
        all,
        m.id,
    ) by {}
    assert forall|m: Inode| #[trigger] all.contains(m) && !left.contains(m) implies references(
        all,
        rest,
        0,
        m,
    ) == references(all, open, 0, m) && children(rest, m.id) == children(open, m.id) by {}
}

/// A reference to the root is taken, for the inode `below`.
pub(super) proof fn lemma_borrow<F, H>(
    all: Seq<Inode>,
    left: Seq<Inode>,
    open: Seq<Inode>,
    inodes: Map<u64, InodeView<F, H>>,
    below: Inode,
)
    requires
        promised(all),
        books(all, left, open, inodes, 0),
        inodes.contains_key(ROOT_ID),
        all.contains(below),
        below.location is FullPath,
    ensures
        books(all, left, open, with_reference(inodes, ROOT_ID), 1),
{
    let n = lemma_entry(all, left, open, inodes, 0, ROOT_ID);
    let after = with_reference(inodes, ROOT_ID);
    let k = choose|k: int| 0 <= k < all.len() && all[k] == n;
    let l = choose|l: int| 0 <= l < all.len() && all[l] == below;
    assert(all[l].location is FullPath);
    assert(0 < all[k].refcount < u64::MAX);
    assert(all[k].refcount >= children(all, all[k].id));
    assert(children(open, ROOT_ID) <= children(all, ROOT_ID));
    assert forall|m: Inode| #[trigger] all.contains(m) && !left.contains(m) implies {
        &&& after.contains_key(m.id) <==> references(all, open, 1, m) > 0 || children(open, m.id)
            == children(all, m.id)
        &&& after.contains_key(m.id) ==> after[m.id].inode == m.id && after[m.id].refcount
            == references(all, open, 1, m)
    } by {
        if m.id == ROOT_ID {
            let j = choose|j: int| 0 <= j < all.len() && all[j] == m;
            assert(j == k);
        }
    }
}

/// The reference to the root that was taken for the inode `below` is given back.
pub(super) proof fn lemma_unborrow<F, H>(
    all: Seq<Inode>,
    left: Seq<Inode>,
    open: Seq<Inode>,
    inodes: Map<u64, InodeView<F, H>>,
    below: Inode,
)
    requires
        promised(all),
        books(all, left, open, inodes, 1),
        inodes.contains_key(ROOT_ID),
        all.contains(below),
        below.location is FullPath,
    ensures
        books(all, left, open, without_reference(inodes, ROOT_ID), 0),
{
    let n = lemma_entry(all, left, open, inodes, 1, ROOT_ID);
    let after = without_reference(inodes, ROOT_ID);
    let k = choose|k: int| 0 <= k < all.len() && all[k] == n;
    let l = choose|l: int| 0 <= l < all.len() && all[l] == below;
    assert(all[l].location is FullPath);
    assert(0 < all[k].refcount < u64::MAX);
    assert(all[k].refcount >= children(all, all[k].id));
    assert(children(open, ROOT_ID) <= children(all, ROOT_ID));
    assert forall|m: Inode| #[trigger] all.contains(m) && !left.contains(m) implies {
        &&& after.contains_key(m.id) <==> references(all, open, 0, m) > 0 || children(open, m.id)
            == children(all, m.id)
        &&& after.contains_key(m.id) ==> after[m.id].inode == m.id && after[m.id].refcount
            == references(all, open, 0, m)
    } by {
        if m.id == ROOT_ID {
            let j = choose|j: int| 0 <= j < all.len() && all[j] == m;
            assert(j == k);
        }
    }
}

/// An inode that was left is added.
pub(super) proof fn lemma_add<F, H>(
    all: Seq<Inode>,
    left: Seq<Inode>,
    open: Seq<Inode>,
    inodes: Map<u64, InodeView<F, H>>,
    i: int,
    data: InodeView<F, H>,
)
    requires
        promised(all),
        books(all, left, open, inodes, 0),
        0 <= i < left.len(),
        data.inode == left[i].id,
        data.refcount == left[i].refcount,
    ensures
        books(all, swap_removed(left, i), open, inodes.insert(data.inode, data), 0),
{
    let n = left[i];
    let rest = swap_removed(left, i);
    let after = inodes.insert(n.id, data);
    lemma_swap_removed(left, i);
    assert(left.contains(n));
    assert forall|m: Inode| #[trigger] rest.contains(m) implies {
        &&& all.contains(m)
        &&& !after.contains_key(m.id)
        &&& children(open, m.id) == children(all, m.id)
    } by {
        assert(left.contains(m));
        let j = choose|j: int| 0 <= j < left.len() && left[j] == m;
        assert(left[j].id != left[i].id);
    }
    assert forall|m: Inode| #[trigger] all.contains(m) && !rest.contains(m) implies {
        &&& after.contains_key(m.id) <==> references(all, open, 0, m) > 0 || children(open, m.id)
            == children(all, m.id)
        &&& after.contains_key(m.id) ==> after[m.id].inode == m.id && after[m.id].refcount
            == references(all, open, 0, m)
    } by {
        if m.id == n.id {
            let j = choose|j: int| 0 <= j < all.len() && all[j] == m;
            let k = choose|k: int| 0 <= k < all.len() && all[k] == n;
            assert(j == k);
        }
    }
    assert forall|id: u64| #[trigger] after.contains_key(id) implies known(all, id) by {
        if id == n.id {
            let k = choose|k: int| 0 <= k < all.len() && all[k] == n;
            assert(all[k].id == id);
        }
    }
}

} // verus!
