//! Host metrics: snapshots, process records and their display names.
//!
//! Quantities that are fractional by nature are held as exact fixed-point
//! integers in hundredths: percentages (`8000` is 80.00 %), load averages
//! (`1050` is a load of 10.50), CPU usage and the memory growth rate
//! (hundredths of a gigabyte per hour).

use vstd::prelude::*;
use crate::text::{
    chars_of, contains, contains_exec, find, find_exec, find_from, last_index_exec, last_index_of,
    matches_at, remove_all, remove_all_exec, string_of,
};

verus! {

/// One process of the host, or a synthetic group of processes.
pub struct ProcessInfo {
    pub pid: u32,
    pub parent_pid: Option<u32>,
    pub name: String,
    pub memory_bytes: u64,
    /// CPU usage in hundredths of a percent of one core.
    pub cpu_usage: u64,
    pub exe: Option<String>,
}

/// A sample of the host's state, taken at one tick.
pub struct SystemMetrics {
    /// Seconds since the Unix epoch.
    pub timestamp: i64,
    pub memory_total: u64,
    pub memory_used: u64,
    pub memory_free: u64,
    /// Hundredths of a percent.
    pub memory_percent: u64,
    pub swap_total: u64,
    pub swap_used: u64,
    /// Hundredths of a percent.
    pub swap_percent: u64,
    /// Load averages in hundredths.
    pub load_1m: u64,
    pub load_5m: u64,
    pub load_15m: u64,
    pub top_processes: Vec<ProcessInfo>,
    pub aggregated_processes: Vec<ProcessInfo>,
    /// Hundredths of a gigabyte per hour; `None` while unknown.
    pub memory_growth_rate: Option<i64>,
}

/// The characters of an optional string.
pub open spec fn opt_chars(o: Option<String>) -> Option<Seq<char>> {
    match o {
        Some(s) => Some(s@),
        None => None,
    }
}

/// The marker of an application bundle in an executable path.
pub open spec fn bundle_marker() -> Seq<char> {
    ".app"@
}

/// The suffix that names a synthetic group record.
pub open spec fn group_suffix() -> Seq<char> {
    " (Group)"@
}

/// The bundle name that an executable path belongs to: the directory name
/// just before the first `.app` of the path.
pub open spec fn app_name_of(path: Seq<char>) -> Option<Seq<char>> {
    match find(path, bundle_marker()) {
        Some(idx) => match last_index_of(path.subrange(0, idx), '/') {
            Some(k) => Some(path.subrange(k + 1, idx)),
            None => None,
        },
        None => None,
    }
}

/// Names of runtime hosts that say little about the application they run.
pub open spec fn is_generic_name(name: Seq<char>) -> bool {
    ||| contains(name, "Electron"@)
    ||| contains(name, "Electron Helper"@)
    ||| contains(name, "java"@)
    ||| contains(name, "Python"@)
    ||| contains(name, "node"@)
    ||| contains(name, "ruby"@)
    ||| contains(name, "Web Content"@)
}

/// The name shown for a process: the group suffix dropped, and a generic
/// runtime name replaced by the bundle name of its executable when there is one.
pub open spec fn display_name(name: Seq<char>, exe: Option<Seq<char>>) -> Seq<char> {
    let base = remove_all(name, group_suffix());
    match exe {
        Some(path) => if is_generic_name(base) && app_name_of(path) is Some {
            app_name_of(path)->0
        } else {
            base
        },
        None => base,
    }
}

/// The bundle name of an executable path, such as `Visual Studio Code` for
/// `/Applications/Visual Studio Code.app/Contents/MacOS/Electron`.
pub fn extract_app_name(path: &str) -> (r: Option<String>)
    ensures
        match r {
            Some(a) => app_name_of(path@) == Some(a@),
            None => app_name_of(path@) is None,
        },
{
    let p = chars_of(path);
    match app_name_chars(&p) {
        Some(a) => Some(string_of(&a)),
        None => None,
    }
}

/// The bundle name of an executable path, as characters.
pub fn app_name_chars(p: &Vec<char>) -> (r: Option<Vec<char>>)
    ensures
        match r {
            Some(a) => app_name_of(p@) == Some(a@),
            None => app_name_of(p@) is None,
        },
{
    let marker = chars_of(".app");
    match find_exec(p, &marker) {
        Some(idx) => {
            proof {
                assert(matches_at(p@, marker@, idx as int)) by {
                    lemma_find_from_matches(p@, marker@, 0);
                }
            }
            match last_index_exec(p, idx, '/') {
                Some(k) => {
                    proof {
                        lemma_last_index_bound(p@.subrange(0, idx as int), '/');
                    }
                    let mut a: Vec<char> = Vec::new();
                    let mut j: usize = k + 1;
                    while j < idx
                        invariant
                            k + 1 <= j <= idx <= p.len(),
                            a@ == p@.subrange(k + 1, j as int),
                        decreases idx - j,
                    {
                        a.push(p[j]);
                        j = j + 1;
                        assert(a@ =~= p@.subrange(k + 1, j as int));
                    }
                    Some(a)
                },
                None => None,
            }
        },
        None => None,
    }
}

/// A match found by the search lies inside the sequence.
pub proof fn lemma_find_from_matches(s: Seq<char>, p: Seq<char>, i: int)
    ensures
        find_from(s, p, i) matches Some(k) ==> matches_at(s, p, k) && k >= i,
    decreases s.len() + 1 - i,
{
    if i < 0 || i + p.len() > s.len() {
    } else if matches_at(s, p, i) {
    } else {
        lemma_find_from_matches(s, p, i + 1);
    }
}

/// The last index of a character is an index of the sequence.
pub proof fn lemma_last_index_bound(s: Seq<char>, c: char)
    ensures
        last_index_of(s, c) matches Some(k) ==> 0 <= k < s.len() && s[k] == c,
    decreases s.len(),
{
    if s.len() > 0 && s.last() != c {
        lemma_last_index_bound(s.drop_last(), c);
    }
}

/// Whether a name is one of the generic runtime names.
fn is_generic_exec(name: &Vec<char>) -> (r: bool)
    ensures
        r == is_generic_name(name@),
{
    contains_exec(name, &chars_of("Electron"))
        || contains_exec(name, &chars_of("Electron Helper"))
        || contains_exec(name, &chars_of("java"))
        || contains_exec(name, &chars_of("Python"))
        || contains_exec(name, &chars_of("node"))
        || contains_exec(name, &chars_of("ruby"))
        || contains_exec(name, &chars_of("Web Content"))
}

impl ProcessInfo {
    /// The display name of the process, as characters.
    pub fn display_chars(&self) -> (r: Vec<char>)
        ensures
            r@ == display_name(self.name@, opt_chars(self.exe)),
    {
        let name = chars_of(self.name.as_str());
        let base = remove_all_exec(&name, &chars_of(" (Group)"));
        match &self.exe {
            Some(path) => {
                if is_generic_exec(&base) {
                    match app_name_chars(&chars_of(path.as_str())) {
                        Some(a) => a,
                        None => base,
                    }
                } else {
                    base
                }
            },
            None => base,
        }
    }

    /// Returns a human-friendly name for the process: generic runtime names
    /// such as "Electron" or "java" are resolved to their application bundle.
    pub fn human_name(&self) -> (r: String)
        ensures
            r@ == display_name(self.name@, opt_chars(self.exe)),
    {
        string_of(&self.display_chars())
    }
}

} // verus!
