//! The usage data of an account: one entry per limit window.

use vstd::prelude::*;
use crate::text::str_eq;

verus! {

/// One usage window: its status, the share of the allowance used, in
/// percent, and when it resets.
pub struct Window {
    pub status: String,
    pub percent: u8,
    pub resets_at: Option<String>,
}

/// The usage of an account: the rolling 5-hour, weekly and monthly windows,
/// each present only when the account has that limit.
pub struct UsageData {
    pub rolling: Option<Window>,
    pub weekly: Option<Window>,
    pub monthly: Option<Window>,
}

impl Clone for Window {
    fn clone(&self) -> (w: Self)
        ensures
            w == *self,
    {
        Window {
            status: self.status.clone(),
            percent: self.percent,
            resets_at: match &self.resets_at {
                Some(r) => Some(r.clone()),
                None => None,
            },
        }
    }
}

/// A copy of an optional window.
fn clone_window(w: &Option<Window>) -> (c: Option<Window>)
    ensures
        c == *w,
{
    match w {
        Some(w) => Some(w.clone()),
        None => None,
    }
}

impl Clone for UsageData {
    fn clone(&self) -> (u: Self)
        ensures
            u == *self,
    {
        UsageData {
            rolling: clone_window(&self.rolling),
            weekly: clone_window(&self.weekly),
            monthly: clone_window(&self.monthly),
        }
    }
}

/// The percentage of an optional window.
pub open spec fn window_percent(w: Option<Window>) -> Option<u8> {
    match w {
        Some(w) => Some(w.percent),
        None => None,
    }
}

/// The percentage of the window called `name` (`5h`, `week` or `month`),
/// `None` for another name or a window the account does not have.
pub open spec fn percent_of(usage: UsageData, name: Seq<char>) -> Option<u8> {
    if name == "5h"@ {
        window_percent(usage.rolling)
    } else if name == "week"@ {
        window_percent(usage.weekly)
    } else if name == "month"@ {
        window_percent(usage.monthly)
    } else {
        None
    }
}

/// The percentage of an optional window.
pub fn percent_of_window(w: &Option<Window>) -> (p: Option<u8>)
    ensures
        p == window_percent(*w),
{
    match w {
        Some(w) => Some(w.percent),
        None => None,
    }
}

/// The percentage of the window called `name`.
pub fn percent_by_name(usage: &UsageData, name: &str) -> (p: Option<u8>)
    ensures
        p == percent_of(*usage, name@),
{
    if str_eq(name, "5h") {
        percent_of_window(&usage.rolling)
    } else if str_eq(name, "week") {
        percent_of_window(&usage.weekly)
    } else if str_eq(name, "month") {
        percent_of_window(&usage.monthly)
    } else {
        None
    }
}

/// Why a usage request with this HTTP status failed: `None` for a success
/// (2xx), else the explanation shown with the status.
pub open spec fn status_problem(status: u16) -> Option<Seq<char>> {
    if 200 <= status <= 299 {
        None
    } else if status == 401 {
        Some("invalid or missing API key"@)
    } else if status == 403 {
        Some("no Go subscription on this key"@)
    } else if status == 429 {
        Some("rate limited"@)
    } else {
        Some("unexpected response"@)
    }
}

/// Why a usage request with this HTTP status failed, or `None` for a success.
pub fn http_status_problem(status: u16) -> (problem: Option<&'static str>)
    ensures
        match problem {
            Some(m) => status_problem(status) == Some(m@),
            None => status_problem(status) is None,
        },
{
    if 200 <= status && status <= 299 {
        None
    } else if status == 401 {
        Some("invalid or missing API key")
    } else if status == 403 {
        Some("no Go subscription on this key")
    } else if status == 429 {
        Some("rate limited")
    } else {
        Some("unexpected response")
    }
}

} // verus!
