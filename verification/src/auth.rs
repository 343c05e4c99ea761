use vstd::prelude::*;

use crate::strutil::str_eq;

verus! {

/// The outcome of a login attempt.
#[derive(Clone, Copy, Debug, PartialEq, Eq, Structural)]
pub enum LoginResult {
    Success { is_admin: bool },
    LockedOut,
    Failure,
}

/// Check a username/password pair against the two known accounts:
/// `admin` holds the administrator role, `herbert` an ordinary one, and
/// every other pair fails.  (No account is ever locked out here; the
/// variant exists so that callers must handle it.)
pub fn is_login_valid(username: &str, password: &str) -> (r: LoginResult)
    ensures
        username@ == "admin"@ && password@ == "password"@ ==> r == (LoginResult::Success {
            is_admin: true,
        }),
        username@ == "herbert"@ && password@ == "password"@ ==> r == (LoginResult::Success {
            is_admin: false,
        }),
        !((username@ == "admin"@ || username@ == "herbert"@) && password@ == "password"@)
            ==> r == LoginResult::Failure,
{
    proof {
        reveal_strlit("admin");
        reveal_strlit("herbert");
        assert("admin"@.len() == 5);
        assert("herbert"@.len() == 7);
        assert("admin"@ != "herbert"@);
    }
    if str_eq(username, "admin") && str_eq(password, "password") {
        LoginResult::Success { is_admin: true }
    } else if str_eq(username, "herbert") && str_eq(password, "password") {
        LoginResult::Success { is_admin: false }
    } else {
        LoginResult::Failure
    }
}

} // verus!
