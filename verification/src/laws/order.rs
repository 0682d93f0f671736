//! The order in which a source lists its inodes.

use vstd::prelude::*;

use super::books::{
    children, distinct, known, lemma_children_swap_removed, lemma_swap_removed, promised,
    stays,
};
use super::effects::{lookup_ended, lookup_started};
use super::host::{
    answering, end_on, inodes_on, law_restore_ends_on_a_host, lemma_leads_inodes,
    lemma_leads_nowhere, lemma_same_end, lemma_settled, looked_up_on, lookup_on, most_requests,
    named_on, root_on, settled, then_files,
};
use super::outcome::{grounded, lemma_some_ready};
use super::run::{filter_added, inodes_right, lemma_restored};
use crate::deserialization::{PathLookupView, ProgressView, TargetView};
use crate::error::ErrorView;
use crate::file_handle::SerializableFileHandle;
use crate::passthrough::{FileOrHandleView, FsView, InodeView, ROOT_ID};
use crate::restore::{
    lemma_next_ready, next_ready, swap_removed, PhaseView, ReplyView, RequestView, RestoreView,
};
use crate::serialized::{Inode, InodeLocation, PassthroughFsV1};

verus! {

/// The two states agree in everything but the order of their inodes.
pub open spec fn reordered(a: PassthroughFsV1, b: PassthroughFsV1) -> bool {
    &&& a.inodes@.to_multiset() == b.inodes@.to_multiset()
    &&& a.next_inode == b.next_inode
    &&& a.handles@ == b.handles@
    &&& a.next_handle == b.next_handle
    &&& a.negotiated_opts == b.negotiated_opts
}

/// If an inode is to be found below the root by a path, the root has a reference besides those of
/// the inodes that are found in it.
pub open spec fn root_stays(inodes: Seq<Inode>) -> bool {
    forall|i: int, j: int|
        0 <= i < inodes.len() && 0 <= j < inodes.len() && (#[trigger] inodes[i]).location is FullPath
            && (#[trigger] inodes[j]).id == ROOT_ID ==> stays(inodes, inodes[j])
}

impl Inode {
    /// The directory in which the inode is looked up, if it has a path.
    spec fn directory(self) -> u64 {
        match self.location {
            InodeLocation::Path { parent, .. } => parent,
            _ => ROOT_ID,
        }
    }
}

/// The inode meets the same in both file systems: it is in neither, and its directory is the same.
spec fn meets_the_same<F, H>(inode: Inode, a: FsView<F, H>, b: FsView<F, H>) -> bool {
    &&& a.cfg == b.cfg
    &&& a.filter_path_remap == b.filter_path_remap
    &&& !a.inodes.contains_key(inode.id)
    &&& !b.inodes.contains_key(inode.id)
    &&& inode.has_path() && inode.id != ROOT_ID ==> {
        &&& a.inodes.contains_key(inode.directory())
        &&& b.inodes.contains_key(inode.directory())
        &&& a.inodes[inode.directory()].file_or_handle
            == b.inodes[inode.directory()].file_or_handle
    }
}

proof fn lemma_checked_alike<F, H>(
    inode: Inode,
    a: FsView<F, H>,
    b: FsView<F, H>,
    target: TargetView,
    data: InodeView<F, H>,
    named: Option<Result<SerializableFileHandle, ErrorView>>,
)
    requires
        a.cfg == b.cfg,
        !a.inodes.contains_key(inode.id),
        !b.inodes.contains_key(inode.id),
        inode.fits(data),
    ensures
        ({
            let x = inode.checked(a, target, data, named);
            let y = inode.checked(b, target, data, named);
            &&& x.result == y.result
            &&& x.result matches Ok(ProgressView::Restored) ==> x.fs.inodes[inode.id]
                == y.fs.inodes[inode.id]
            &&& x.result matches Ok(ProgressView::Identify(t, d)) ==> x.fs == a && y.fs == b && d
                == data && t == target
        }),
{
}

proof fn lemma_looked_up_alike<F, H>(
    inode: Inode,
    a: FsView<F, H>,
    b: FsView<F, H>,
    target: TargetView,
    lookup: PathLookupView<F, H>,
)
    requires
        a.cfg == b.cfg,
        !a.inodes.contains_key(inode.id),
        !b.inodes.contains_key(inode.id),
    ensures
        ({
            let x = inode.looked_up(a, target, lookup);
            let y = inode.looked_up(b, target, lookup);
            &&& x.result == y.result
            &&& x.result matches Ok(ProgressView::Restored) ==> x.fs.inodes[inode.id]
                == y.fs.inodes[inode.id]
            &&& x.result matches Ok(ProgressView::Identify(t, d)) ==> {
                &&& inode.fits(d)
                &&& x.fs.cfg == a.cfg
                &&& y.fs.cfg == b.cfg
                &&& !x.fs.inodes.contains_key(inode.id)
                &&& !y.fs.inodes.contains_key(inode.id)
            }
        }),
{
    reveal(Inode::looked_up);
    let x = FsView {
        inodes: crate::passthrough::without_reference(a.inodes, target.parent),
        ..a
    };
    let y = FsView {
        inodes: crate::passthrough::without_reference(b.inodes, target.parent),
        ..b
    };
    match inode.path_result(lookup) {
        Ok(data) => {
            lemma_checked_alike(inode, x, y, target, data, None);
        },
        Err(error) => {
            if let Ok(data) = inode.invalid_result::<F, H>(a.cfg.migration_on_error, error) {
                lemma_checked_alike(inode, x, y, target, data, None);
            }
        },
    }
}

proof fn lemma_looked_up_on_alike<F, H>(
    host: spec_fn(RequestView<F, H>) -> ReplyView<F, H>,
    inode: Inode,
    a: FsView<F, H>,
    b: FsView<F, H>,
    target: TargetView,
)
    requires
        a.cfg == b.cfg,
        !a.inodes.contains_key(inode.id),
        !b.inodes.contains_key(inode.id),
        a.inodes[target.parent].file_or_handle == b.inodes[target.parent].file_or_handle,
    ensures
        ({
            let x = looked_up_on(host, inode, a, target);
            let y = looked_up_on(host, inode, b, target);
            &&& x.result == y.result
            &&& x.result matches Ok(ProgressView::Restored) ==> x.fs.inodes[inode.id]
                == y.fs.inodes[inode.id]
        }),
{
    let lookup = lookup_on(host, a.inodes[target.parent].file_or_handle, target.filename);
    let x = inode.looked_up(a, target, lookup);
    let y = inode.looked_up(b, target, lookup);
    lemma_looked_up_alike(inode, a, b, target, lookup);
    if let Ok(ProgressView::Identify(t, data)) = x.result {
        let named = Some(named_on(host, data.file_or_handle));
        lemma_checked_alike(inode, x.fs, y.fs, t, data, named);
    }
}

proof fn lemma_look_up_alike<F, H>(
    inode: Inode,
    a: FsView<F, H>,
    b: FsView<F, H>,
    target: TargetView,
)
    requires
        a.cfg == b.cfg,
        !a.inodes.contains_key(inode.id),
        !b.inodes.contains_key(inode.id),
        a.inodes[target.parent].file_or_handle == b.inodes[target.parent].file_or_handle,
    ensures
        ({
            let x = inode.look_up(a, target);
            let y = inode.look_up(b, target);
            &&& x.result == y.result
            &&& x.result matches Ok(ProgressView::Restored) ==> x.fs.inodes[inode.id]
                == y.fs.inodes[inode.id]
            &&& x.result matches Ok(ProgressView::LookUp(t)) ==> x.fs == a && y.fs == b && t
                == target
            &&& !(x.result matches Ok(ProgressView::OpenRoot))
        }),
{
    if let FileOrHandleView::Invalid(error) = a.inodes[target.parent].file_or_handle {
        let lookup = PathLookupView::Failed(crate::error::invalid_inode_error(error));
        lemma_looked_up_alike(inode, a, b, target, lookup);
        reveal(Inode::looked_up);
    }
}

proof fn lemma_root_on_alike<F, H>(
    host: spec_fn(RequestView<F, H>) -> ReplyView<F, H>,
    inode: Inode,
    a: FsView<F, H>,
    b: FsView<F, H>,
)
    requires
        !a.inodes.contains_key(ROOT_ID),
        !b.inodes.contains_key(ROOT_ID),
    ensures
        ({
            let x = root_on(host, inode, a);
            let y = root_on(host, inode, b);
            &&& x.result == y.result
            &&& x.result matches Ok(ProgressView::Restored) ==> x.fs.inodes[ROOT_ID]
                == y.fs.inodes[ROOT_ID]
        }),
{
}

/// What becomes of an inode depends on its directory alone.
proof fn lemma_settled_alike<F, H>(
    host: spec_fn(RequestView<F, H>) -> ReplyView<F, H>,
    inode: Inode,
    a: FsView<F, H>,
    b: FsView<F, H>,
)
    requires
        meets_the_same(inode, a, b),
    ensures
        settled(host, inode, a).result == settled(host, inode, b).result,
        settled(host, inode, a).result matches Ok(ProgressView::Restored) ==> settled(
            host,
            inode,
            a,
        ).fs.inodes[inode.id] == settled(host, inode, b).fs.inodes[inode.id],
{
    match inode.location {
        InodeLocation::RootNode => {
            if inode.id == ROOT_ID {
                lemma_root_on_alike(host, inode, a, b);
            }
        },
        InodeLocation::Path { parent, filename, fullname } => {
            if inode.id != ROOT_ID {
                let target = inode.path_target(a, parent, filename@, fullname@);
                assert(inode.path_target(b, parent, filename@, fullname@) == target);
                lemma_look_up_alike(inode, a, b, target);
                lemma_looked_up_on_alike(host, inode, a, b, target);
            }
        },
        InodeLocation::FullPath { filename } => {
            if inode.id != ROOT_ID {
                let x = lookup_started(inode, a);
                let y = lookup_started(inode, b);
                let target = TargetView {
                    parent: ROOT_ID,
                    filename: filename@,
                    is_filter: false,
                    checked: false,
                };
                lemma_look_up_alike(inode, x, y, target);
                lemma_looked_up_on_alike(host, inode, x, y, target);
            }
        },
        InodeLocation::Invalid => {},
    }
}

/// A file system in which there is nothing but the directory of the inode, if it has one.
spec fn alone<F, H>(before: FsView<F, H>, made: Map<u64, InodeView<F, H>>, inode: Inode) -> FsView<
    F,
    H,
> {
    FsView {
        inodes: if inode.has_path() {
            Map::empty().insert(inode.directory(), made[inode.directory()])
        } else {
            Map::empty()
        },
        ..before
    }
}

/// The inode becomes what `made` has for it, with the directory that `made` has for it.
spec fn solved<F, H>(
    host: spec_fn(RequestView<F, H>) -> ReplyView<F, H>,
    before: FsView<F, H>,
    made: Map<u64, InodeView<F, H>>,
    inode: Inode,
) -> bool {
    let step = settled(host, inode, alone(before, made, inode));
    &&& made.contains_key(inode.id)
    &&& step.result == Ok::<ProgressView<F, H>, ErrorView>(ProgressView::Restored)
    &&& step.fs.inodes[inode.id] == made[inode.id]
    &&& inode.has_path() ==> made.contains_key(inode.directory()) && inode.directory() != inode.id
}

/// The inodes are those that `made` has, but for their references.
spec fn as_made<F, H>(inodes: Map<u64, InodeView<F, H>>, made: Map<u64, InodeView<F, H>>) -> bool {
    forall|id: u64| #[trigger]
        inodes.contains_key(id) ==> made.contains_key(id) && inodes[id] == (InodeView {
            refcount: inodes[id].refcount,
            ..made[id]
        })
}

/// `made` has all inodes, each with the directory that `made` has, and each has a higher rank than
/// its directory.
spec fn solution<F, H>(
    host: spec_fn(RequestView<F, H>) -> ReplyView<F, H>,
    before: FsView<F, H>,
    all: Seq<Inode>,
    made: Map<u64, InodeView<F, H>>,
    rank: Map<u64, nat>,
) -> bool {
    &&& forall|n: Inode| #[trigger]
        all.contains(n) ==> solved(host, before, made, n) && (n.has_path() ==> rank[n.directory()]
            < rank[n.id])
    &&& forall|id: u64| #[trigger] made.contains_key(id) ==> known(all, id)
}

/// `made` has the inodes that are not left. They have ranks below `time`.
spec fn solution_so_far<F, H>(
    host: spec_fn(RequestView<F, H>) -> ReplyView<F, H>,
    before: FsView<F, H>,
    all: Seq<Inode>,
    state: RestoreView<F, H>,
    made: Map<u64, InodeView<F, H>>,
    rank: Map<u64, nat>,
    time: nat,
) -> bool {
    &&& forall|n: Inode| #[trigger]
        all.contains(n) && !state.inodes.contains(n) ==> solved(host, before, made, n) && (
        n.has_path() ==> rank[n.directory()] < rank[n.id])
    &&& forall|n: Inode| #[trigger] state.inodes.contains(n) ==> !made.contains_key(n.id)
    &&& forall|id: u64| #[trigger] made.contains_key(id) ==> known(all, id) && rank[id] < time
    &&& as_made(state.fs.inodes, made)
    &&& state.fs.next_handle == before.next_handle
}

/// Restoring an inode leaves the others as they were made.
proof fn lemma_restored_as_made<F, H>(
    inode: Inode,
    fs: FsView<F, H>,
    after: FsView<F, H>,
    made: Map<u64, InodeView<F, H>>,
)
    requires
        as_made(fs.inodes, made),
        inode.restored(fs, after),
        made.contains_key(inode.id),
        made[inode.id] == after.inodes[inode.id],
    ensures
        as_made(after.inodes, made),
        after.next_handle == fs.next_handle,
{
    let ended = lookup_ended(inode, lookup_started(inode, fs));
    assert(as_made(ended.inodes, made));
}

/// What a restore on a host has made of the inodes, if none of them has failed.
proof fn lemma_solution<F, H>(
    plan: PassthroughFsV1,
    before: FsView<F, H>,
    host: spec_fn(RequestView<F, H>) -> ReplyView<F, H>,
    state: RestoreView<F, H>,
    made: Map<u64, InodeView<F, H>>,
    rank: Map<u64, nat>,
    time: nat,
) -> (solution: (Map<u64, InodeView<F, H>>, Map<u64, nat>))
    requires
        promised(plan.inodes@),
        state.phase is Scan,
        inodes_right(plan, before, state),
        solution_so_far(host, before, plan.inodes@, state, made, rank, time),
        inodes_on(host, state).phase is Scan,
    ensures
        self::solution(host, before, plan.inodes@, solution.0, solution.1),
    decreases state.inodes.len(),
{
    reveal_with_fuel(inodes_on, 1);
    if state.inodes.len() == 0 {
        (made, rank)
    } else {
        let position = next_ready(state.inodes, state.fs.inodes, state.position);
        lemma_next_ready(state.inodes, state.fs.inodes, state.position);
        let taken = RestoreView { position, ..state };
        let n = taken.inode();
        let step = settled(host, n, taken.fs);
        let next = taken.after(step);
        lemma_settled(host, n, taken.fs);
        lemma_restored(plan, before, taken, step.fs);
        lemma_one_more_made(plan, before, host, taken, made, rank, time);
        lemma_solution(
            plan,
            before,
            host,
            next,
            made.insert(n.id, step.fs.inodes[n.id]),
            rank.insert(n.id, time),
            time + 1,
        )
    }
}

/// The inode that has been taken up is made.
proof fn lemma_one_more_made<F, H>(
    plan: PassthroughFsV1,
    before: FsView<F, H>,
    host: spec_fn(RequestView<F, H>) -> ReplyView<F, H>,
    state: RestoreView<F, H>,
    made: Map<u64, InodeView<F, H>>,
    rank: Map<u64, nat>,
    time: nat,
)
    requires
        promised(plan.inodes@),
        state.phase is Scan,
        inodes_right(plan, before, state),
        state.position < state.inodes.len(),
        !state.inode().blocked(state.fs.inodes),
        solution_so_far(host, before, plan.inodes@, state, made, rank, time),
        settled(host, state.inode(), state.fs).result == Ok::<ProgressView<F, H>, ErrorView>(
            ProgressView::Restored,
        ),
    ensures
        ({
            let step = settled(host, state.inode(), state.fs);
            solution_so_far(
                host,
                before,
                plan.inodes@,
                state.after(step),
                made.insert(state.inode().id, step.fs.inodes[state.inode().id]),
                rank.insert(state.inode().id, time),
                time + 1,
            )
        }),
{
    let all = plan.inodes@;
    let n = state.inode();
    let step = settled(host, n, state.fs);
    let next = state.after(step);
    let more = made.insert(n.id, step.fs.inodes[n.id]);
    let ranks = rank.insert(n.id, time);
    lemma_settled(host, n, state.fs);
    assert(state.inodes.contains(n));
    assert(!made.contains_key(n.id));
    lemma_swap_removed(state.inodes, state.position);
    assert(as_made(state.fs.inodes, more));
    lemma_restored_as_made(n, state.fs, step.fs, more);
    let env = alone(before, more, n);
    assert(meets_the_same(n, state.fs, env));
    lemma_settled_alike(host, n, state.fs, env);
    assert(solved(host, before, more, n));
    assert forall|o: Inode| #[trigger] all.contains(o) && !next.inodes.contains(o) implies solved(
        host,
        before,
        more,
        o,
    ) && (o.has_path() ==> ranks[o.directory()] < ranks[o.id]) by {
        if o != n {
            assert(!state.inodes.contains(o));
            assert(solved(host, before, made, o));
            assert(alone(before, more, o) == alone(before, made, o));
        }
    }
    assert forall|o: Inode| #[trigger] next.inodes.contains(o) implies !more.contains_key(o.id) by {
        assert(state.inodes.contains(o));
        let i = choose|i: int| 0 <= i < state.inodes.len() && state.inodes[i] == o;
        assert(state.inodes[i].id != state.inodes[state.position].id);
    }
    assert forall|id: u64| #[trigger] more.contains_key(id) implies known(all, id) && ranks[id]
        < time + 1 by {
        if id == n.id {
            assert(all.contains(n));
            let i = choose|i: int| 0 <= i < all.len() && all[i] == n;
            assert(all[i].id == id);
        }
    }
}

/// If there is a solution, a restore on the host comes to it.
proof fn lemma_comes_to_solution<F, H>(
    plan: PassthroughFsV1,
    before: FsView<F, H>,
    host: spec_fn(RequestView<F, H>) -> ReplyView<F, H>,
    state: RestoreView<F, H>,
    made: Map<u64, InodeView<F, H>>,
    rank: Map<u64, nat>,
)
    requires
        promised(plan.inodes@),
        root_stays(plan.inodes@),
        state.phase is Scan,
        inodes_right(plan, before, state),
        solution(host, before, plan.inodes@, made, rank),
        as_made(state.fs.inodes, made),
        state.fs.next_handle == before.next_handle,
    ensures
        ({
            let end = inodes_on(host, state);
            &&& end.phase is Scan
            &&& end.inodes.len() == 0
            &&& inodes_right(plan, before, end)
            &&& as_made(end.fs.inodes, made)
            &&& end.fs.next_handle == before.next_handle
        }),
    decreases state.inodes.len(),
{
    reveal_with_fuel(inodes_on, 1);
    if state.inodes.len() > 0 {
        let ranks = |id: u64| rank[id];
        lemma_solution_is_grounded(host, before, plan.inodes@, made, rank);
        lemma_some_ready(plan, ranks, before, state);
        let position = next_ready(state.inodes, state.fs.inodes, state.position);
        lemma_next_ready(state.inodes, state.fs.inodes, state.position);
        let taken = RestoreView { position, ..state };
        let n = taken.inode();
        assert(state.inodes.contains(n));
        assert(solved(host, before, made, n));
        lemma_solved_not_root_by_path(host, before, made, n);
        assert(meets_the_same(n, taken.fs, alone(before, made, n)));
        lemma_settled_alike(host, n, taken.fs, alone(before, made, n));
        lemma_settled(host, n, taken.fs);
        let step = settled(host, n, taken.fs);
        lemma_restored(plan, before, taken, step.fs);
        lemma_restored_as_made(n, taken.fs, step.fs, made);
        lemma_comes_to_solution(plan, before, host, taken.after(step), made, rank);
    }
}

/// An inode with the root's number is not found by a path.
proof fn lemma_solved_not_root_by_path<F, H>(
    host: spec_fn(RequestView<F, H>) -> ReplyView<F, H>,
    before: FsView<F, H>,
    made: Map<u64, InodeView<F, H>>,
    inode: Inode,
)
    requires
        solved(host, before, made, inode),
    ensures
        inode.has_path() ==> inode.id != ROOT_ID,
{
}

proof fn lemma_solution_is_grounded<F, H>(
    host: spec_fn(RequestView<F, H>) -> ReplyView<F, H>,
    before: FsView<F, H>,
    all: Seq<Inode>,
    made: Map<u64, InodeView<F, H>>,
    rank: Map<u64, nat>,
)
    requires
        root_stays(all),
        solution(host, before, all, made, rank),
    ensures
        grounded(all, |id: u64| rank[id]),
{
    let ranks = |id: u64| rank[id];
    assert forall|i: int| 0 <= i < all.len() implies match (#[trigger] all[i]).location {
        InodeLocation::Path { parent, .. } => known(all, parent) && ranks(parent) < ranks(
            all[i].id,
        ),
        InodeLocation::FullPath { .. } => {
            &&& ranks(ROOT_ID) < ranks(all[i].id)
            &&& exists|j: int|
                0 <= j < all.len() && (#[trigger] all[j]).id == ROOT_ID && stays(all, all[j])
        },
        _ => true,
    } by {
        assert(all.contains(all[i]));
        assert(solved(host, before, made, all[i]));
        if all[i].has_path() {
            assert(known(all, all[i].directory()));
            let j = choose|j: int| 0 <= j < all.len() && (#[trigger] all[j]).id == all[i].directory();
            if all[i].location is FullPath {
                assert(stays(all, all[j]));
            }
        }
    }
}

/// Two lists of the same inodes have as many in each directory.
proof fn lemma_same_children(a: Seq<Inode>, b: Seq<Inode>, id: u64)
    requires
        distinct(a),
        distinct(b),
        forall|n: Inode| #[trigger] a.contains(n) <==> b.contains(n),
    ensures
        children(a, id) == children(b, id),
    decreases a.len(),
{
    if a.len() == 0 {
        if b.len() > 0 {
            assert(b.contains(b[0]));
            assert(a.contains(b[0]));
        }
    } else {
        let n = a.last();
        let last = a.len() - 1;
        assert(a[last] == n);
        assert(a.contains(n));
        let j = choose|j: int| 0 <= j < b.len() && b[j] == n;
        lemma_swap_removed(a, last);
        lemma_swap_removed(b, j);
        assert(swap_removed(a, last) =~= a.drop_last());
        lemma_children_swap_removed(a, last, id);
        lemma_children_swap_removed(b, j, id);
        lemma_same_children(a.drop_last(), swap_removed(b, j), id);
    }
}

/// What holds of a list of inodes in any order.
proof fn lemma_reordered(a: Seq<Inode>, b: Seq<Inode>)
    requires
        a.to_multiset() == b.to_multiset(),
        promised(a),
        root_stays(a),
    ensures
        a.len() == b.len(),
        forall|n: Inode| #[trigger] a.contains(n) <==> b.contains(n),
        forall|id: u64| #[trigger] children(a, id) == children(b, id),
        promised(b),
        root_stays(b),
{
    a.to_multiset_ensures();
    b.to_multiset_ensures();
    assert forall|n: Inode| #[trigger] a.contains(n) <==> b.contains(n) by {
        assert(a.contains(n) <==> a.to_multiset().count(n) > 0);
        assert(b.contains(n) <==> b.to_multiset().count(n) > 0);
    }
    assert(a.no_duplicates());
    a.lemma_multiset_has_no_duplicates();
    b.lemma_multiset_has_no_duplicates_conv();
    assert forall|i: int| 0 <= i < b.len() implies exists|k: int|
        0 <= k < a.len() && #[trigger] a[k] == #[trigger] b[i] by {
        assert(b.contains(b[i]));
        assert(a.contains(b[i]));
    }
    assert forall|i: int, j: int| 0 <= i < j < b.len() implies (#[trigger] b[i]).id != (
    #[trigger] b[j]).id by {
        let k = choose|k: int| 0 <= k < a.len() && #[trigger] a[k] == b[i];
        let l = choose|l: int| 0 <= l < a.len() && #[trigger] a[l] == b[j];
        assert(b[i] != b[j]);
    }
    assert forall|id: u64| #[trigger] children(a, id) == children(b, id) by {
        lemma_same_children(a, b, id);
    }
    assert forall|i: int| 0 <= i < b.len() implies (#[trigger] b[i]).refcount >= children(
        b,
        b[i].id,
    ) by {
        let k = choose|k: int| 0 <= k < a.len() && #[trigger] a[k] == b[i];
        assert(a[k].refcount >= children(a, a[k].id));
    }
    assert forall|i: int, j: int|
        0 <= i < b.len() && 0 <= j < b.len() && (#[trigger] b[i]).id == ROOT_ID && (
        #[trigger] b[j]).location is FullPath implies 0 < b[i].refcount < u64::MAX by {
        let k = choose|k: int| 0 <= k < a.len() && #[trigger] a[k] == b[i];
        let l = choose|l: int| 0 <= l < a.len() && #[trigger] a[l] == b[j];
        assert(a[k].id == ROOT_ID && a[l].location is FullPath);
    }
    assert forall|i: int, j: int|
        0 <= i < b.len() && 0 <= j < b.len() && (#[trigger] b[i]).location is FullPath && (
        #[trigger] b[j]).id == ROOT_ID implies stays(b, b[j]) by {
        let k = choose|k: int| 0 <= k < a.len() && #[trigger] a[k] == b[i];
        let l = choose|l: int| 0 <= l < a.len() && #[trigger] a[l] == b[j];
        assert(stays(a, a[l]));
        assert(children(a, b[j].id) == children(b, b[j].id));
    }
}

/// The same inodes that have all been made are the same.
proof fn lemma_same_inodes<F, H>(
    a: PassthroughFsV1,
    b: PassthroughFsV1,
    before: FsView<F, H>,
    x: RestoreView<F, H>,
    y: RestoreView<F, H>,
    made: Map<u64, InodeView<F, H>>,
)
    requires
        forall|n: Inode| #[trigger] a.inodes@.contains(n) <==> b.inodes@.contains(n),
        forall|id: u64| #[trigger] children(a.inodes@, id) == children(b.inodes@, id),
        x.phase is Scan,
        y.phase is Scan,
        x.inodes.len() == 0,
        y.inodes.len() == 0,
        inodes_right(a, before, x),
        inodes_right(b, before, y),
        as_made(x.fs.inodes, made),
        as_made(y.fs.inodes, made),
    ensures
        x.fs.inodes == y.fs.inodes,
{
    let none = Seq::<Inode>::empty();
    assert(x.inodes =~= none);
    assert(y.inodes =~= none);
    assert forall|id: u64|
        x.fs.inodes.contains_key(id) == y.fs.inodes.contains_key(id) && (x.fs.inodes.contains_key(
            id,
        ) ==> x.fs.inodes[id] == y.fs.inodes[id]) by {
        if known(a.inodes@, id) {
            let i = choose|i: int| 0 <= i < a.inodes@.len() && (#[trigger] a.inodes@[i]).id == id;
            let n = a.inodes@[i];
            assert(a.inodes@.contains(n));
            assert(b.inodes@.contains(n));
            assert(!none.contains(n));
            assert(children(none, id) == 0);
            assert(children(a.inodes@, id) == children(b.inodes@, id));
        } else {
            if known(b.inodes@, id) {
                let i = choose|i: int|
                    0 <= i < b.inodes@.len() && (#[trigger] b.inodes@[i]).id == id;
                let n = b.inodes@[i];
                assert(b.inodes@.contains(n));
                assert(a.inodes@.contains(n));
                let k = choose|k: int| 0 <= k < a.inodes@.len() && a.inodes@[k] == n;
                assert(a.inodes@[k].id == id);
            }
        }
    }
    assert(x.fs.inodes =~= y.fs.inodes);
}

/// The same filter roots that have all been added have the same entries.
proof fn lemma_same_filter<F, H>(
    a: PassthroughFsV1,
    b: PassthroughFsV1,
    before: FsView<F, H>,
    x: RestoreView<F, H>,
    y: RestoreView<F, H>,
)
    requires
        forall|n: Inode| #[trigger] a.inodes@.contains(n) <==> b.inodes@.contains(n),
        x.phase is Scan,
        y.phase is Scan,
        x.inodes.len() == 0,
        y.inodes.len() == 0,
        inodes_right(a, before, x),
        inodes_right(b, before, y),
    ensures
        x.fs.filter == y.fs.filter,
{
    let none = Seq::<Inode>::empty();
    assert(x.inodes =~= none);
    assert(y.inodes =~= none);
    assert forall|id: u64|
        #![trigger x.fs.filter.dom().contains(id)]
        #![trigger y.fs.filter.dom().contains(id)]
        #![trigger x.fs.filter[id]]
        x.fs.filter.dom().contains(id) == y.fs.filter.dom().contains(id) && (
        x.fs.filter.dom().contains(id) ==> x.fs.filter[id] == y.fs.filter[id]) by {
        if filter_added(a.inodes@, none, id) {
            let n = choose|n: Inode| #[trigger]
                a.inodes@.contains(n) && !none.contains(n) && n.id == id && n.is_filter();
            assert(b.inodes@.contains(n) && !none.contains(n));
        } else if filter_added(b.inodes@, none, id) {
            let n = choose|n: Inode| #[trigger]
                b.inodes@.contains(n) && !none.contains(n) && n.id == id && n.is_filter();
            assert(a.inodes@.contains(n) && !none.contains(n));
        }
    }
    assert(x.fs.filter.dom() =~= y.fs.filter.dom());
    assert(x.fs.filter =~= y.fs.filter);
}

/// The start of restoring inodes is right.
proof fn lemma_start_right<F, H>(plan: PassthroughFsV1, fs: FsView<F, H>)
    requires
        promised(plan.inodes@),
    ensures
        inodes_right(plan, plan.prepared(fs), plan.planned(plan.prepared(fs))),
{
}

/// If the inodes can all be restored in one order, so can they in another, and the outcome is the
/// same.
proof fn lemma_other_order<F, H>(
    a: PassthroughFsV1,
    b: PassthroughFsV1,
    fs: FsView<F, H>,
    host: spec_fn(RequestView<F, H>) -> ReplyView<F, H>,
)
    requires
        reordered(a, b),
        promised(a.inodes@),
        root_stays(a.inodes@),
        inodes_on(host, a.planned(a.prepared(fs))).phase is Scan,
    ensures
        inodes_on(host, b.planned(b.prepared(fs))).phase is Scan,
        then_files(inodes_on(host, a.planned(a.prepared(fs)))) == then_files(
            inodes_on(host, b.planned(b.prepared(fs))),
        ),
{
    let before = a.prepared(fs);
    let start = a.planned(before);
    let none = Map::<u64, InodeView<F, H>>::empty();
    lemma_reordered(a.inodes@, b.inodes@);
    lemma_start_right(a, fs);
    lemma_start_right(b, fs);
    assert(b.prepared(fs) == before);
    let (made, rank) = lemma_solution(a, before, host, start, none, Map::empty(), 0);
    assert(solution(host, before, b.inodes@, made, rank)) by {
        assert forall|n: Inode| #[trigger] b.inodes@.contains(n) implies solved(
            host,
            before,
            made,
            n,
        ) && (n.has_path() ==> rank[n.directory()] < rank[n.id]) by {
            assert(a.inodes@.contains(n));
        }
        assert forall|id: u64| #[trigger] made.contains_key(id) implies known(b.inodes@, id) by {
            let i = choose|i: int| 0 <= i < a.inodes@.len() && (#[trigger] a.inodes@[i]).id == id;
            assert(a.inodes@.contains(a.inodes@[i]));
            assert(b.inodes@.contains(a.inodes@[i]));
            let k = choose|k: int| 0 <= k < b.inodes@.len() && b.inodes@[k] == a.inodes@[i];
            assert(b.inodes@[k].id == id);
        }
    }
    lemma_comes_to_solution(a, before, host, start, made, rank);
    lemma_comes_to_solution(b, before, host, b.planned(before), made, rank);
    let x = inodes_on(host, start);
    let y = inodes_on(host, b.planned(before));
    lemma_same_inodes(a, b, before, x, y, made);
    lemma_same_filter(a, b, before, x, y);
    assert(x.inodes =~= y.inodes);
    assert(x.with_inodes_done().fs =~= y.with_inodes_done().fs);
    assert(x.with_inodes_done() == y.with_inodes_done());
}

/// A restore that fails with its inodes ends so on the host.
proof fn lemma_ends_in_failure<F, H>(
    plan: PassthroughFsV1,
    fs: FsView<F, H>,
    host: spec_fn(RequestView<F, H>) -> ReplyView<F, H>,
)
    requires
        answering(host),
        plan.negotiated_opts.refusal(fs) is None,
        !(inodes_on(host, plan.planned(plan.prepared(fs))).phase is Scan),
    ensures
        end_on(plan, fs, host).phase matches PhaseView::Finished(Err(_)),
{
    let start = plan.planned(plan.prepared(fs));
    let failed = inodes_on(host, start);
    lemma_inodes_fail_or_end(host, start);
    lemma_leads_inodes(host, start);
    lemma_leads_nowhere(host, failed);
    law_restore_ends_on_a_host(plan, fs, host);
    lemma_same_end(host, plan.started(fs), failed, failed, most_requests(plan));
}

/// Restoring the inodes ends with all of them done, or with a failure.
proof fn lemma_inodes_fail_or_end<F, H>(
    host: spec_fn(RequestView<F, H>) -> ReplyView<F, H>,
    state: RestoreView<F, H>,
)
    requires
        state.phase is Scan,
        0 <= state.position <= state.inodes.len(),
    ensures
        inodes_on(host, state).phase is Scan || inodes_on(
            host,
            state,
        ).phase matches PhaseView::Finished(Err(_)),
    decreases state.inodes.len(),
{
    reveal_with_fuel(inodes_on, 1);
    if state.inodes.len() > 0 {
        let position = next_ready(state.inodes, state.fs.inodes, state.position);
        lemma_next_ready(state.inodes, state.fs.inodes, state.position);
        if position < state.inodes.len() {
            let taken = RestoreView { position, ..state };
            lemma_settled(host, taken.inode(), taken.fs);
            let next = taken.after(settled(host, taken.inode(), taken.fs));
            if next.phase is Scan {
                lemma_inodes_fail_or_end(host, next);
            }
        }
    }
}

/// Two restores that come to the same with their inodes end alike.
proof fn lemma_ends_alike<F, H>(
    a: PassthroughFsV1,
    b: PassthroughFsV1,
    fs: FsView<F, H>,
    host: spec_fn(RequestView<F, H>) -> ReplyView<F, H>,
)
    requires
        answering(host),
        a.inodes@.len() == b.inodes@.len(),
        a.handles@.len() == b.handles@.len(),
        a.negotiated_opts.refusal(fs) is None,
        b.negotiated_opts.refusal(fs) is None,
        then_files(inodes_on(host, a.planned(a.prepared(fs)))) == then_files(
            inodes_on(host, b.planned(b.prepared(fs))),
        ),
    ensures
        end_on(a, fs, host) == end_on(b, fs, host),
{
    let to = then_files(inodes_on(host, a.planned(a.prepared(fs))));
    law_restore_ends_on_a_host(a, fs, host);
    law_restore_ends_on_a_host(b, fs, host);
    lemma_leads_inodes(host, a.planned(a.prepared(fs)));
    lemma_leads_inodes(host, b.planned(b.prepared(fs)));
    lemma_same_end(host, a.started(fs), b.started(fs), to, most_requests(a));
}

/// A restore whose options are refused asks the host nothing.
proof fn lemma_refused_on_a_host<F, H>(
    plan: PassthroughFsV1,
    fs: FsView<F, H>,
    host: spec_fn(RequestView<F, H>) -> ReplyView<F, H>,
)
    requires
        plan.negotiated_opts.refusal(fs) is Some,
    ensures
        end_on(plan, fs, host).phase matches PhaseView::Finished(Err(_)),
{
}

/// The order in which the source lists its inodes does not matter. On one host, two states that
/// differ in that order alone are restored alike: both restores end, one succeeds just if the other
/// does, and then they leave the same file system, with the same inodes, the same filter and the
/// same open files.
///
/// The root must outlast the inodes that are found in it, if others are found below it by a path:
/// those would look for it in vain if they came too late.
pub proof fn law_order_does_not_matter<F, H>(
    a: PassthroughFsV1,
    b: PassthroughFsV1,
    fs: FsView<F, H>,
    host: spec_fn(RequestView<F, H>) -> ReplyView<F, H>,
)
    requires
        reordered(a, b),
        promised(a.inodes@),
        root_stays(a.inodes@),
        answering(host),
    ensures
        ({
            let x = end_on(a, fs, host);
            let y = end_on(b, fs, host);
            &&& x.phase is Finished
            &&& y.phase is Finished
            &&& x.phase == PhaseView::<F, H>::Finished(Ok(())) <==> y.phase == PhaseView::<
                F,
                H,
            >::Finished(Ok(()))
            &&& x.phase == PhaseView::<F, H>::Finished(Ok(())) ==> x.fs == y.fs
        }),
{
    law_restore_ends_on_a_host(a, fs, host);
    law_restore_ends_on_a_host(b, fs, host);
    lemma_reordered(a.inodes@, b.inodes@);
    if a.negotiated_opts.refusal(fs) is None {
        if inodes_on(host, a.planned(a.prepared(fs))).phase is Scan {
            lemma_other_order(a, b, fs, host);
            lemma_ends_alike(a, b, fs, host);
        } else if inodes_on(host, b.planned(b.prepared(fs))).phase is Scan {
            lemma_other_order(b, a, fs, host);
        } else {
            lemma_ends_in_failure(a, fs, host);
            lemma_ends_in_failure(b, fs, host);
        }
    } else {
        lemma_refused_on_a_host(a, fs, host);
        lemma_refused_on_a_host(b, fs, host);
    }
}

} // verus!
