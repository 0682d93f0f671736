//! What holds of every restore.

use vstd::prelude::*;

use books::{children, known, promised, stays};
use run::{answers, lemma_run, open_files, run};

use crate::deserialization::ProgressView;
use crate::error::ErrorView;
use crate::file_handle::SerializableFileHandle;
use crate::passthrough::{with_reference, without_reference, FsView, HandleView, InodeView};
use crate::restore::{PhaseView, ReplyView};
use crate::serialized::{Inode, NegotiatedOpts, PassthroughFsV1};

pub mod books;
pub mod counting;
pub mod effects;
pub mod failure;
pub mod files;
pub mod handles;
pub mod host;
pub mod identity;
pub mod inodes;
pub mod machine;
pub mod options;
pub mod order;
pub mod origin;
pub mod outcome;
pub mod past;
pub mod progress;
pub mod remapping;
pub mod requests;
pub mod run;
pub mod validity;
pub mod views;
pub mod wording;

verus! {

/// One of the inodes is a filter root with the number `id`.
pub open spec fn filter_root(inodes: Seq<Inode>, id: u64) -> bool {
    exists|i: int|
        0 <= i < inodes.len() && (#[trigger] inodes[i]).id == id && inodes[i].is_filter()
}

/// What a restore that succeeds has made of the file system, whatever the host has replied.
///
/// The options are those that the source has negotiated; the configuration has not changed. The
/// inodes are those of the source, each with the references that it has there, less one for each
/// inode that is found in it: that inode has dropped it. An inode without any other reference is
/// gone with the last one. The open files are those of the source. Each filter root has the path at
/// which it is to be found now in the filter; no other entry has changed.
pub proof fn law_restored<F, H>(
    plan: PassthroughFsV1,
    fs: FsView<F, H>,
    replies: Seq<ReplyView<F, H>>,
)
    requires
        promised(plan.inodes@),
        answers(plan.started(fs), replies),
        run(plan.started(fs), replies).phase == PhaseView::<F, H>::Finished(Ok(())),
    ensures
        ({
            let end = run(plan.started(fs), replies).fs;
            let inodes = plan.inodes@;
            &&& end.cfg == fs.cfg
            &&& end.filter_path_remap == fs.filter_path_remap
            &&& end.writeback == plan.negotiated_opts.writeback
            &&& end.announce_submounts == plan.negotiated_opts.announce_submounts
            &&& end.posix_acl == plan.negotiated_opts.posix_acl
            &&& end.sup_group_extension == plan.negotiated_opts.sup_group_extension
            &&& end.next_inode == plan.next_inode
            &&& end.next_handle == plan.next_handle
            &&& forall|id: u64| #[trigger] end.inodes.contains_key(id) ==> known(inodes, id)
            &&& forall|i: int|
                0 <= i < inodes.len() ==> {
                    let n = #[trigger] inodes[i];
                    &&& end.inodes.contains_key(n.id) <==> stays(inodes, n)
                    &&& stays(inodes, n) ==> end.inodes[n.id].inode == n.id
                        && end.inodes[n.id].refcount == n.refcount - children(inodes, n.id)
                }
            &&& end.handles.map_values(|data: HandleView<F>| (data.inode, data.migration_info))
                == open_files(plan.handles@)
            &&& forall|i: int|
                0 <= i < inodes.len() && (#[trigger] inodes[i]).is_filter() ==> {
                    &&& end.filter.contains_key(inodes[i].id)
                    &&& end.filter[inodes[i].id] == inodes[i].filter_entry(fs)
                }
            &&& forall|id: u64|
                !#[trigger] filter_root(inodes, id) ==> {
                    &&& end.filter.contains_key(id) == fs.filter.contains_key(id)
                    &&& end.filter[id] == fs.filter[id]
                }
        }),
{
    let state = run(plan.started(fs), replies);
    let end = state.fs;
    let inodes = plan.inodes@;
    let none = Seq::<Inode>::empty();
    lemma_run(plan, fs, replies);
    lemma_not_refused(plan, fs, replies);
    assert forall|i: int| 0 <= i < inodes.len() implies {
        let n = #[trigger] inodes[i];
        &&& end.inodes.contains_key(n.id) <==> stays(inodes, n)
        &&& stays(inodes, n) ==> end.inodes[n.id].inode == n.id && end.inodes[n.id].refcount
            == n.refcount - children(inodes, n.id)
    } by {
        assert(inodes.contains(inodes[i]));
        assert(!none.contains(inodes[i]));
        assert(children(none, inodes[i].id) == 0);
    }
    assert(plan.handles@.take(state.handles_done) =~= plan.handles@);
    assert forall|i: int| 0 <= i < inodes.len() && (#[trigger] inodes[i]).is_filter() implies {
        &&& end.filter.contains_key(inodes[i].id)
        &&& end.filter[inodes[i].id] == inodes[i].filter_entry(fs)
    } by {
        assert(inodes.contains(inodes[i]));
        assert(!none.contains(inodes[i]));
    }
    assert forall|id: u64| !#[trigger] filter_root(inodes, id) implies {
        &&& end.filter.contains_key(id) == fs.filter.contains_key(id)
        &&& end.filter[id] == fs.filter[id]
    } by {
        if run::filter_added(inodes, none, id) {
            let n = choose|n: Inode| #[trigger]
                inodes.contains(n) && !none.contains(n) && n.id == id && n.is_filter();
            let i = choose|i: int| 0 <= i < inodes.len() && inodes[i] == n;
            assert(inodes[i].id == id);
        }
    }
}

/// A restore whose options have been refused takes no replies and does not succeed.
pub(crate) proof fn lemma_not_refused<F, H>(
    plan: PassthroughFsV1,
    fs: FsView<F, H>,
    replies: Seq<ReplyView<F, H>>,
)
    requires
        answers(plan.started(fs), replies),
        !(run(plan.started(fs), replies).phase matches PhaseView::Finished(Err(_))),
    ensures
        plan.negotiated_opts.refusal(fs) is None,
    decreases replies.len(),
{
    if replies.len() > 0 {
        let state = run(plan.started(fs), replies.drop_last());
        assert(state.expects(replies.last()));
        lemma_not_refused(plan, fs, replies.drop_last());
    }
}

/// No option is in force that the configuration disables.
pub open spec fn options_within<F, H>(fs: FsView<F, H>) -> bool {
    &&& fs.writeback ==> fs.cfg.writeback
    &&& fs.announce_submounts ==> fs.cfg.announce_submounts
    &&& fs.posix_acl ==> fs.cfg.posix_acl
}

/// An option that the configuration disables is not in force once options have been applied
/// successfully. If none was in force before, none is either where they have been refused.
pub proof fn law_options_within_configuration<F, H>(opts: NegotiatedOpts, fs: FsView<F, H>)
    ensures
        opts.refusal(fs) is None ==> options_within(opts.applied(fs)),
        options_within(fs) ==> options_within(opts.applied(fs)),
{
}

/// Applying options again changes nothing.
pub proof fn law_options_applied_once<F, H>(opts: NegotiatedOpts, fs: FsView<F, H>)
    ensures
        opts.applied(opts.applied(fs)) == opts.applied(fs),
        opts.refusal(opts.applied(fs)) == opts.refusal(fs),
{
}

/// An inode is deferred just if what it is found through is not there, and then nothing changes.
pub proof fn law_deferral<F, H>(inode: Inode, fs: FsView<F, H>)
    ensures
        inode.first_step(fs).result == Ok::<ProgressView<F, H>, ErrorView>(ProgressView::Deferred)
            <==> inode.blocked(fs.inodes),
        inode.blocked(fs.inodes) ==> inode.first_step(fs).fs == fs,
{
    crate::restore::lemma_deferred_means_blocked(inode, fs);
}

/// File handles are compared without regard to the mount.
pub proof fn law_mount_is_disregarded(inode: Inode, actual: SerializableFileHandle, mount_id: u64)
    ensures
        inode.comparison(SerializableFileHandle { mount_id, ..actual }) == inode.comparison(actual),
{
}

/// A reference that is taken and dropped leaves everything as it was.
pub proof fn law_reference_comes_back<F, H>(inodes: Map<u64, InodeView<F, H>>, id: u64)
    requires
        inodes.contains_key(id) ==> 0 < inodes[id].refcount < u64::MAX,
    ensures
        without_reference(with_reference(inodes, id), id) == inodes,
{
    assert(without_reference(with_reference(inodes, id), id) =~= inodes);
}

} // verus!
