use vstd::prelude::*;

use vstd::string::StringExecFns;
use crate::strutil::str_eq;

verus! {

/// A stored account.
#[derive(Debug)]
pub struct User {
    pub username: String,
    pub password: String,
}

impl User {
    /// An account from its parts.
    pub fn new(username: &str, password: &str) -> (u: User)
        ensures
            u.username@ == username@,
            u.password@ == password@,
    {
        User { username: username.to_owned(), password: password.to_owned() }
    }
}

/// The two built-in accounts.
pub fn get_users() -> (r: Vec<User>)
    ensures
        r@.len() == 2,
        r@[0].username@ == "admin"@,
        r@[0].password@ == "password"@,
        r@[1].username@ == "herbert"@,
        r@[1].password@ == "password"@,
{
    let mut v: Vec<User> = Vec::new();
    v.push(User::new("admin", "password"));
    v.push(User::new("herbert", "password"));
    v
}

/// Some account of the roster carries exactly this pair.
pub open spec fn matches_user(users: Seq<User>, username: Seq<char>, password: Seq<char>) -> bool {
    exists|i: int|
        0 <= i < users.len() && users[i].username@ == username && users[i].password@ == password
}

/// Scan a roster for the username/password pair.
pub fn is_login_valid(users: &[User], username: &str, password: &str) -> (r: bool)
    ensures
        r == matches_user(users@, username@, password@),
{
    let n = users.len();
    let mut i: usize = 0;
    while i < n
        invariant
            n == users@.len(),
            i <= n,
            forall|k: int|
                0 <= k < i ==> !(users@[k].username@ == username@ && users@[k].password@
                    == password@),
        decreases n - i,
    {
        let u = &users[i];
        if str_eq(u.username.as_str(), username) && str_eq(u.password.as_str(), password) {
            return true;
        }
        i += 1;
    }
    false
}

/// Scan the built-in roster for the pair.
pub fn is_login_valid_iter(username: &str, password: &str) -> (r: bool)
    ensures
        r == ((username@ == "admin"@ || username@ == "herbert"@) && password@ == "password"@),
{
    let users = get_users();
    let r = is_login_valid(users.as_slice(), username, password);
    proof {
        if (username@ == "admin"@ || username@ == "herbert"@) && password@ == "password"@ {
            if username@ == "admin"@ {
                assert(users@[0].username@ == username@ && users@[0].password@ == password@);
            } else {
                assert(users@[1].username@ == username@ && users@[1].password@ == password@);
            }
        }
        if matches_user(users@, username@, password@) {
            let i = choose|i: int|
                0 <= i < users@.len() && users@[i].username@ == username@ && users@[i].password@
                    == password@;
            assert(i == 0 || i == 1);
        }
    }
    r
}

} // verus!
