//! Resolution of the invoking user's home directory.

use vstd::prelude::*;

use crate::error::ErrorKind;
use crate::error::ErrorModel;

verus! {

/// The POSIX-style environment variable that names the home directory. It
/// is consulted first, whatever the platform.
pub const POSIX_HOME_VAR: &'static str = "HOME";

/// The Windows-style environment variable that names the user profile. It
/// is consulted only when the POSIX-style signal is unusable.
pub const WINDOWS_HOME_VAR: &'static str = "USERPROFILE";

/// An environment signal is usable when it is set and non-empty.
pub open spec fn present(v: Option<String>) -> bool {
    v is Some && v->0@.len() > 0
}

/// Resolves the home directory from the two platform environment signals:
/// `home` is the value of the POSIX-style variable, `user_profile` the value
/// of the Windows-style one, each `None` when unset. The first signal that
/// is present and non-empty wins, the POSIX-style one strictly before the
/// Windows-style one, regardless of the platform the call runs on. The
/// resolved path is returned as opaque text: no existence check and no
/// normalization. When neither signal is usable the call fails with
/// [`ErrorKind::EnvironmentUnavailable`].
pub fn home_dir(home: Option<String>, user_profile: Option<String>) -> (r: Result<
    String,
    ErrorKind,
>)
    ensures
        present(home) ==> r is Ok && r->Ok_0@ == home->0@,
        !present(home) && present(user_profile) ==> r is Ok && r->Ok_0@ == user_profile->0@,
        !present(home) && !present(user_profile) ==> r is Err && r->Err_0@
            == ErrorModel::EnvironmentUnavailable,
{
    if let Option::Some(h) = home {
        if !h.as_str().is_empty() {
            return Result::Ok(h);
        }
    }
    if let Option::Some(u) = user_profile {
        if !u.as_str().is_empty() {
            return Result::Ok(u);
        }
    }
    Result::Err(ErrorKind::EnvironmentUnavailable)
}

} // verus!
