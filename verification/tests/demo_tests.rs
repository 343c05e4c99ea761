use blogstore::arith::{double, double_or_nothing};
use blogstore::auth::{is_login_valid as login_result, LoginResult};
use blogstore::geometry::{new_point, new_point_on_heap, Point};
use blogstore::users::{get_users, is_login_valid, is_login_valid_iter, User};

#[test]
fn doubling() {
    assert_eq!(double(5), 10);
    assert_eq!(double(-3), -6);
    assert_eq!(double_or_nothing(5), 10);
    assert_eq!(double_or_nothing(-5), 0);
    assert_eq!(double_or_nothing(0), 0);
}

#[test]
fn points() {
    let p = Point::new(5, 6);
    assert_eq!(p.x, 5);
    assert_eq!(p.y, 6);
    let q = p.add(Point::new(10, 10));
    assert_eq!(q.x, 15);
    assert_eq!(q.y, 16);
    let fixed = new_point();
    assert_eq!((fixed.x, fixed.y), (10, 20));
    let boxed = new_point_on_heap();
    assert_eq!((boxed.x, boxed.y), (10, 20));
}

#[test]
fn login_roles_are_assigned_per_account() {
    assert!(matches!(login_result("admin", "password"), LoginResult::Success { is_admin: true }));
    assert!(matches!(login_result("herbert", "password"), LoginResult::Success { is_admin: false }));
    assert!(matches!(login_result("admin", "12345"), LoginResult::Failure));
    assert!(matches!(login_result("herbert", "12345"), LoginResult::Failure));
    assert!(matches!(login_result("bad", "actor"), LoginResult::Failure));
}

#[test]
fn every_login_outcome_is_handled() {
    let message = match login_result("herbert", "password") {
        LoginResult::Success { is_admin: true } => "Hello, admin!",
        LoginResult::Success { is_admin: false } => "Hello, user!",
        LoginResult::Failure => "Login failed.",
        LoginResult::LockedOut => "Your account is locked out.",
    };
    assert_eq!(message, "Hello, user!");
}

#[test]
fn built_in_roster() {
    let users = get_users();
    assert_eq!(users.len(), 2);
    assert_eq!(users[0].username, "admin");
    assert_eq!(users[1].username, "herbert");
}

#[test]
fn roster_scan_finds_added_users() {
    let mut users = get_users();
    users.push(User::new("new_user", "password"));
    assert!(is_login_valid(&users, "new_user", "password"));
    assert!(is_login_valid(&users, "herbert", "password"));
    assert!(!is_login_valid(&users, "new_user", "wrong"));
    assert!(!is_login_valid(&users, "nobody", "password"));
}

#[test]
fn roster_scan_over_the_fixed_accounts() {
    assert!(is_login_valid_iter("herbert", "password"));
    assert!(is_login_valid_iter("admin", "password"));
    assert!(!is_login_valid_iter("admin", "12345"));
    assert!(!is_login_valid_iter("intruder", "password"));
}
