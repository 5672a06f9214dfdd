//! What the library asks of the machine it runs on: the user's home
//! directory and today's date. Nothing in this module is proved.

use chrono::Utc;
use std::fmt::Write;
use vstd::prelude::*;

use crate::text::ends_with;

verus! {

/// `shellexpand::tilde`: a path that begins with `~`, alone or before a
/// separator, has the `~` replaced by the home directory where one is
/// known; every other path comes back as it is. Which directory that is
/// depends on the machine, so of a path with `~` the contract keeps only
/// what holds either way: the result ends with what followed the `~`.
#[verifier::external_body]
pub(crate) fn expand_home(path: &str) -> (expanded: String)
    ensures
        path@.len() > 0 && path@[0] == '~' ==> ends_with(expanded@, path@.skip(1)),
        path@.len() == 0 || path@[0] != '~' ==> expanded@ == path@,
        path@.len() >= 2 && path@[1] != '/' && path@[1] != '\\' ==> expanded@ == path@,
{
    shellexpand::tilde(path).to_string()
}

/// `chrono::Utc::now` and `DateTime::format`: the current date and time
/// in UTC, rendered by a `strftime` format. `None` where the format holds
/// something that chrono cannot render. The result depends on the clock,
/// so nothing is stated of it.
#[verifier::external_body]
pub(crate) fn utc_now_formatted(format: &str) -> (date: Option<String>) {
    let mut date = String::new();
    match write!(date, "{}", Utc::now().format(format)) {
        Ok(()) => Some(date),
        Err(_) => None,
    }
}

} // verus!
