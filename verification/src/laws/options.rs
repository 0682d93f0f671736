//! What becomes of the options that the source has negotiated.

use vstd::prelude::*;

use crate::error::{ErrorKind, ErrorView};
use crate::passthrough::FsView;
use crate::serialized::NegotiatedOpts;

verus! {

/// Options are refused if and only if the source has one enabled that the configuration disables.
/// Where the configuration enables everything that the source wants, they never are.
pub proof fn law_options_are_refused_for_a_reason<F, H>(opts: NegotiatedOpts, fs: FsView<F, H>)
    ensures
        opts.refusal(fs) is Some <==> {
            ||| opts.writeback && !fs.cfg.writeback
            ||| opts.announce_submounts && !fs.cfg.announce_submounts
            ||| opts.posix_acl && !fs.cfg.posix_acl
        },
{
}

/// The refusal names the first option that is wanted and disabled: writeback, then submounts, then
/// ACLs.
pub proof fn law_refusal_names_the_option<F, H>(opts: NegotiatedOpts, fs: FsView<F, H>)
    ensures
        opts.refusal(fs) matches Some(error) ==> {
            let writeback = opts.writeback && !fs.cfg.writeback;
            let submounts = opts.announce_submounts && !fs.cfg.announce_submounts;
            &&& error.kind == ErrorKind::Other
            &&& writeback ==> error.message
                == "Migration source wants writeback enabled, but it is disabled on the destination"@
            &&& !writeback && submounts ==> error.message
                == "Migration source wants announce-submounts enabled, but it is disabled on the destination"@
            &&& !writeback && !submounts ==> error.message
                == "Migration source wants posix ACLs enabled, but it is disabled on the destination"@
        },
{
}

/// Options that are not refused are in force as the source had them, whatever was in force before.
/// Of those that are refused, the ones before the refused one are. Nothing else ever changes.
pub proof fn law_options_in_force<F, H>(opts: NegotiatedOpts, fs: FsView<F, H>)
    ensures
        ({
            let after = opts.applied(fs);
            let writeback = opts.writeback && !fs.cfg.writeback;
            let submounts = opts.announce_submounts && !fs.cfg.announce_submounts;
            let acl = opts.posix_acl && !fs.cfg.posix_acl;
            &&& after.cfg == fs.cfg
            &&& after.inodes == fs.inodes
            &&& after.next_inode == fs.next_inode
            &&& after.handles == fs.handles
            &&& after.next_handle == fs.next_handle
            &&& after.filter == fs.filter
            &&& after.filter_path_remap == fs.filter_path_remap
            &&& writeback ==> after == fs
            &&& !writeback ==> after.writeback == opts.writeback
            &&& !writeback && submounts ==> after.announce_submounts == fs.announce_submounts
                && after.posix_acl == fs.posix_acl && after.sup_group_extension
                == fs.sup_group_extension
            &&& !writeback && !submounts ==> after.announce_submounts == opts.announce_submounts
            &&& !writeback && !submounts && acl ==> after.posix_acl == fs.posix_acl
                && after.sup_group_extension == fs.sup_group_extension
            &&& !writeback && !submounts && !acl ==> after.posix_acl == opts.posix_acl
                && after.sup_group_extension == opts.sup_group_extension
        }),
{
}

/// To enable more in the configuration never makes options refused that were not.
pub proof fn law_enabling_more_refuses_less<F, H>(
    opts: NegotiatedOpts,
    a: FsView<F, H>,
    b: FsView<F, H>,
)
    requires
        opts.refusal(a) is None,
        a.cfg.writeback ==> b.cfg.writeback,
        a.cfg.announce_submounts ==> b.cfg.announce_submounts,
        a.cfg.posix_acl ==> b.cfg.posix_acl,
    ensures
        opts.refusal(b) is None,
{
}

} // verus!
