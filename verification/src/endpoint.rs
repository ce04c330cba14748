//! The addresses under which the console's client asks for users.

use vstd::prelude::*;
use vstd::string::*;
use crate::text::join;

verus! {

/// The text of one decimal digit.
pub open spec fn digit_text(d: int) -> Seq<char> {
    if d == 0 {
        "0"@
    } else if d == 1 {
        "1"@
    } else if d == 2 {
        "2"@
    } else if d == 3 {
        "3"@
    } else if d == 4 {
        "4"@
    } else if d == 5 {
        "5"@
    } else if d == 6 {
        "6"@
    } else if d == 7 {
        "7"@
    } else if d == 8 {
        "8"@
    } else {
        "9"@
    }
}

/// A number in decimal, without leading zeros.
pub open spec fn decimal_text(n: nat) -> Seq<char>
    decreases n,
{
    if n < 10 {
        digit_text(n as int)
    } else {
        decimal_text(n / 10) + digit_text((n % 10) as int)
    }
}

/// A number written in decimal.
pub fn decimal(n: usize) -> (r: String)
    ensures
        r@ == decimal_text(n as nat),
    decreases n,
{
    let d = n % 10;
    let digit: &str = if d == 0 {
        "0"
    } else if d == 1 {
        "1"
    } else if d == 2 {
        "2"
    } else if d == 3 {
        "3"
    } else if d == 4 {
        "4"
    } else if d == 5 {
        "5"
    } else if d == 6 {
        "6"
    } else if d == 7 {
        "7"
    } else if d == 8 {
        "8"
    } else {
        "9"
    };
    if n < 10 {
        digit.to_owned()
    } else {
        decimal(n / 10).concat(digit)
    }
}

/// The address of a user: the base, `user` and the login, joined by `/`.
pub open spec fn user_address(base: Seq<char>, login: Seq<char>) -> Seq<char> {
    base + "/user/"@ + login
}

/// The address of one user.
pub fn user_endpoint(base: &str, login: &str) -> (r: String)
    ensures
        r@ == user_address(base@, login@),
{
    join(base, "/user/").concat(login)
}

/// The address of a page of the list of users.
pub fn user_list_endpoint(base: &str, page: usize) -> (r: String)
    ensures
        r@ == base@ + "/user/list/"@ + decimal_text(page as nat),
{
    let number = decimal(page);
    join(base, "/user/list/").concat(number.as_str())
}

/// The address of the groups of a user.
pub fn user_groups_endpoint(base: &str, login: &str) -> (r: String)
    ensures
        r@ == user_address(base@, login@) + "/groups"@,
{
    user_endpoint(base, login).concat("/groups")
}

/// The address of the roles of a user.
pub fn user_roles_endpoint(base: &str, login: &str) -> (r: String)
    ensures
        r@ == user_address(base@, login@) + "/roles"@,
{
    user_endpoint(base, login).concat("/roles")
}

} // verus!
