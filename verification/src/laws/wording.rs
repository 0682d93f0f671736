//! What numbers and errors read like.

use vstd::prelude::*;

use crate::deserialization::{
    inode_not_found_error, lost_inode_error, non_root_id_error, root_path_error, unresolved_error,
    PathLookupView,
};
use crate::error::{invalid_inode_error, other_error_view, ErrorKind, ErrorView};
use crate::passthrough::double_use_error;
use crate::serialized::{Handle, Inode};
use crate::text::decimal;

verus! {

/// The number that a reader makes of a sequence of decimal digits.
pub open spec fn reads_as(digits: Seq<char>) -> int
    decreases digits.len(),
{
    if digits.len() == 0 {
        0
    } else {
        10 * reads_as(digits.drop_last()) + (digits.last() as int - '0' as int)
    }
}

/// A number that is written in decimal reads as that number. It is written with digits alone and
/// without leading zeros.
pub proof fn law_decimal(n: nat)
    ensures
        decimal(n).len() > 0,
        reads_as(decimal(n)) == n,
        forall|i: int|
            0 <= i < decimal(n).len() ==> '0' as int <= (#[trigger] decimal(n)[i]) as int
                <= '9' as int,
        decimal(n).len() > 1 ==> decimal(n)[0] != '0',
        n == 0 ==> decimal(n) == seq!['0'],
    decreases n,
{
    let d = n % 10;
    assert(crate::text::digit(d) as int == '0' as int + d) by {
        assert(d == 0 || d == 1 || d == 2 || d == 3 || d == 4 || d == 5 || d == 6 || d == 7 || d
            == 8 || d == 9);
    }
    reveal_with_fuel(reads_as, 2);
    if n >= 10 {
        law_decimal(n / 10);
        assert(decimal(n).drop_last() =~= decimal(n / 10));
        if decimal(n / 10).len() == 1 {
            assert(decimal(n / 10) =~= seq![decimal(n / 10)[0]]);
        }
    }
}

/// Different numbers are written differently.
pub proof fn law_decimals_differ(m: nat, n: nat)
    requires
        decimal(m) == decimal(n),
    ensures
        m == n,
{
    law_decimal(m);
    law_decimal(n);
}

/// An error about an inode names it. What the restore itself notices is of no particular kind, but
/// for an inode that the source has lost.
pub proof fn law_errors_name_their_inode(id: u64)
    ensures
        lost_inode_error(id).kind == ErrorKind::NotFound,
        lost_inode_error(id).message == "Migration source has lost inode "@ + decimal(id as nat),
        non_root_id_error(id).kind == ErrorKind::Other,
        non_root_id_error(id).message == "Node with non-root ID ("@ + decimal(id as nat)
            + ") given as root node"@,
        inode_not_found_error(id).kind == ErrorKind::Other,
        inode_not_found_error(id).message == "Inode "@ + decimal(id as nat) + " not found"@,
        double_use_error(id).kind == ErrorKind::Other,
        double_use_error(id).message == "Double-use of FUSE inode ID "@ + decimal(id as nat),
        root_path_error().kind == ErrorKind::Other,
        root_path_error().message == "Refusing to use path given for root node"@,
        unresolved_error().kind == ErrorKind::Other,
        unresolved_error().message == "Unresolved references between serialized inodes"@,
{
}

/// An error of no particular kind says what it is given to say.
pub proof fn law_plain_error(message: Seq<char>)
    ensures
        other_error_view(message).kind == ErrorKind::Other,
        other_error_view(message).message == message,
{
}

/// An error that is passed on keeps its kind, and ends in what it said.
pub proof fn law_errors_keep_their_cause(error: ErrorView)
    ensures
        invalid_inode_error(error).kind == error.kind,
        invalid_inode_error(error).message
            == "Inode is invalid because of an error during the preceding migration, which was: "@
            + error.message,
{
}

/// The error for a path that could not be opened gives the whole path, with one slash between the
/// directory and the name where the directory does not end in one.
pub proof fn law_path_error<F, H>(
    inode: Inode,
    directory: Seq<char>,
    filename: Seq<char>,
    error: ErrorView,
)
    ensures
        ({
            let lookup = PathLookupView::<F, H>::NotOpened { directory, filename, error };
            let slash = if directory.len() > 0 && directory[directory.len() - 1] == '/' {
                Seq::<char>::empty()
            } else {
                seq!['/']
            };
            &&& inode.path_result(lookup) matches Err(told)
            &&& told.kind == error.kind
            &&& told.message == "Opening "@ + directory + slash + filename + ": "@ + error.message
        }),
        inode.path_result(PathLookupView::<F, H>::Failed(error)) == Err::<
            crate::passthrough::InodeView<F, H>,
            ErrorView,
        >(error),
{
    reveal_strlit("/");
    assert("/"@ =~= seq!['/']);
    let lookup = PathLookupView::<F, H>::NotOpened { directory, filename, error };
    let slash = if directory.len() > 0 && directory[directory.len() - 1] == '/' {
        Seq::<char>::empty()
    } else {
        seq!['/']
    };
    let told = inode.path_result(lookup)->Err_0;
    assert(told.message =~= "Opening "@ + directory + slash + filename + ": "@ + error.message);
}

/// The error for an open file gives its inode, its own number, the cause, and the path where it is
/// known.
pub proof fn law_open_error(handle: Handle, path: Seq<char>, error: ErrorView)
    ensures
        handle.open_error(None, error).kind == error.kind,
        handle.open_error(None, error).message == "Opening inode "@ + decimal(handle.inode as nat)
            + " as handle "@ + decimal(handle.id as nat) + ": "@ + error.message,
        handle.open_error(Some(path), error).kind == error.kind,
        handle.open_error(Some(path), error).message == "Opening inode "@ + decimal(
            handle.inode as nat,
        ) + " ("@ + path + ")"@ + " as handle "@ + decimal(handle.id as nat) + ": "@
            + error.message,
{
    assert(handle.open_error(None, error).message =~= "Opening inode "@ + decimal(
        handle.inode as nat,
    ) + " as handle "@ + decimal(handle.id as nat) + ": "@ + error.message);
    assert(handle.open_error(Some(path), error).message =~= "Opening inode "@ + decimal(
        handle.inode as nat,
    ) + " ("@ + path + ")"@ + " as handle "@ + decimal(handle.id as nat) + ": "@ + error.message);
}

} // verus!
