//! How grave a line is.

use crate::text::{self, str_has, to_upper};
use crate::logitem;
use vstd::prelude::*;

verus! {

/// The level that a message speaks of.
pub open spec fn level_of(msg: Seq<char>, is_system: bool) -> Option<Seq<char>> {
    let upper = text::uppercase(msg);
    if is_system {
        Some("SYS"@)
    } else if text::contains(upper, "ERROR"@) || text::contains(upper, "FATAL"@) || text::contains(
        upper,
        "CRITICAL"@,
    ) || text::contains(upper, "🚨"@) {
        Some("ERROR"@)
    } else if text::contains(upper, "WARN"@) {
        Some("WARN"@)
    } else if text::contains(upper, "INFO"@) {
        Some("INFO"@)
    } else if text::contains(upper, "DEBUG"@) {
        Some("DEBUG"@)
    } else {
        None
    }
}

pub fn infer_log_level(msg: &str, is_system: bool) -> (r: Option<String>)
    ensures
        logitem::opt_view(r) == level_of(msg@, is_system),
{
    if is_system {
        return Some("SYS".to_owned());
    }
    let upper = to_upper(msg);
    let u = upper.as_str();
    if str_has(u, "ERROR") || str_has(u, "FATAL") || str_has(u, "CRITICAL") || str_has(u, "🚨") {
        Some("ERROR".to_owned())
    } else if str_has(u, "WARN") {
        Some("WARN".to_owned())
    } else if str_has(u, "INFO") {
        Some("INFO".to_owned())
    } else if str_has(u, "DEBUG") {
        Some("DEBUG".to_owned())
    } else {
        None
    }
}

} // verus!
