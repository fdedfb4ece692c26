//! The admin role on this machine: a record that the backend verified it.

use vstd::prelude::*;

use crate::auth::{removal_error, say_removal_error, Removal};

verus! {

/// Whether the role is granted. `state` is what the file says, where there is
/// one that can be read.
pub fn is_admin(state: Option<bool>) -> (r: bool)
    ensures
        r == (state == Some(true)),
{
    match state {
        Some(admin) => admin,
        None => false,
    }
}

/// Grant the role, which only the backend can verify. Returns what to say once
/// the role is written down.
pub fn grant_admin(verified: &Result<bool, String>) -> (r: Result<String, String>)
    ensures
        match verified {
            Ok(true) => r matches Ok(out) && out@
                == "Admin role granted. All pro features are now unlocked on this machine.\n"@,
            Ok(false) => r matches Err(why) && why@
                == "The backend does not report this account as an admin — the role was not granted."@,
            Err(told) => r matches Err(why) && why@ == told@,
        },
{
    match verified {
        Ok(true) => Ok(
            "Admin role granted. All pro features are now unlocked on this machine.\n".to_owned(),
        ),
        Ok(false) => Err(
            "The backend does not report this account as an admin — the role was not granted.".to_owned(),
        ),
        Err(told) => Err(told.clone()),
    }
}

/// What is said after the role was removed, or why it was not.
pub fn revoke_admin(removal: &Removal, path: &str) -> (r: Result<String, String>)
    ensures
        match removal {
            Removal::Removed => r matches Ok(out) && out@
                == "Admin role revoked. Pro features now follow your account plan.\n"@,
            Removal::Missing => r matches Ok(out) && out@
                == "You weren't an admin — nothing to revoke.\n"@,
            Removal::Failed(why) => r matches Err(e) && e@ == removal_error(path@, why@),
        },
{
    match removal {
        Removal::Removed => Ok(
            "Admin role revoked. Pro features now follow your account plan.\n".to_owned(),
        ),
        Removal::Missing => Ok("You weren't an admin — nothing to revoke.\n".to_owned()),
        Removal::Failed(why) => Err(say_removal_error(path, why.as_str())),
    }
}

/// Say whether the role is granted.
pub fn status(admin: bool) -> (r: String)
    ensures
        r@ == if admin {
            "Admin: enabled — all pro features unlocked on this machine.\n"@
        } else {
            "Admin: not enabled. Run `commitor gimme admin` to unlock all pro features.\n"@
        },
{
    if admin {
        "Admin: enabled — all pro features unlocked on this machine.\n".to_owned()
    } else {
        "Admin: not enabled. Run `commitor gimme admin` to unlock all pro features.\n".to_owned()
    }
}

} // verus!
