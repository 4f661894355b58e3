//! Installed browser channels: which installer flag selects a channel, whether
//! an installation is machine-wide, and which versioned folder is the newest.
use vstd::prelude::*;
use crate::text::{chars_of, contains, lower_of, matches_at, str_contains, to_lower};

verus! {

/// One release channel, installed or not.
pub struct EdgeInstall {
    pub channel: String,
    pub version: String,
    pub install_path: String,
    pub exe_path: String,
    pub is_system: bool,
    pub installed: bool,
    pub download_url: String,
}

/// The installer flag of a channel name given in lower case.
pub open spec fn installer_flag(channel_lower: Seq<char>) -> Seq<char> {
    if channel_lower == "beta"@ {
        "--msedge-beta"@
    } else if channel_lower == "dev"@ {
        "--msedge-dev"@
    } else if channel_lower == "canary"@ {
        "--msedge-sxs"@
    } else {
        "--msedge"@
    }
}

/// The installer flag that selects a channel, named in any case; the stable
/// channel for any other name.
pub fn installer_flag_for(channel: &str) -> (r: String)
    ensures
        r@ == installer_flag(lower_of(channel@)),
{
    let lower = to_lower(channel);
    if lower == "beta".to_string() {
        "--msedge-beta".to_string()
    } else if lower == "dev".to_string() {
        "--msedge-dev".to_string()
    } else if lower == "canary".to_string() {
        "--msedge-sxs".to_string()
    } else {
        "--msedge".to_string()
    }
}

/// An executable path lies under a program-files folder, in any case.
pub fn is_system_install(exe_path: &str) -> (r: bool)
    ensures
        r == contains(lower_of(exe_path@), "program files"@),
{
    let lower = to_lower(exe_path);
    str_contains(lower.as_str(), "program files")
}

/// `a` sorts after `b` in code-point order.
pub open spec fn text_after(a: Seq<char>, b: Seq<char>) -> bool
    decreases a.len(),
{
    if a.len() == 0 {
        false
    } else if b.len() == 0 {
        true
    } else if a[0] != b[0] {
        a[0] > b[0]
    } else {
        text_after(a.drop_first(), b.drop_first())
    }
}

/// A folder name that looks like a version: it starts with a digit and holds a dot.
pub open spec fn is_version_name(name: Seq<char>) -> bool {
    name.len() > 0 && '0' <= name[0] && name[0] <= '9' && contains(name, "."@)
}

/// The newest version among the first `n` entries: the greatest version-like
/// directory name, the earlier one on ties.
pub open spec fn newest_version(entries: Seq<(Seq<char>, bool)>, n: int) -> Option<Seq<char>>
    decreases n,
{
    if n <= 0 {
        None
    } else {
        let best = newest_version(entries, n - 1);
        let (name, is_dir) = entries[n - 1];
        if is_dir && is_version_name(name) && (best is None || text_after(name, best.unwrap())) {
            Some(name)
        } else {
            best
        }
    }
}

fn after(a: &Vec<char>, b: &Vec<char>) -> (r: bool)
    ensures
        r == text_after(a@, b@),
{
    let mut i: usize = 0;
    assert(a@.subrange(0, a@.len() as int) =~= a@);
    assert(b@.subrange(0, b@.len() as int) =~= b@);
    while i < a.len() && i < b.len() && a[i] == b[i]
        invariant
            i <= a@.len(),
            i <= b@.len(),
            text_after(a@, b@) == text_after(a@.subrange(i as int, a@.len() as int), b@.subrange(i as int, b@.len() as int)),
        decreases a.len() - i,
    {
        assert(a@.subrange(i as int, a@.len() as int).drop_first() =~= a@.subrange(i + 1, a@.len() as int));
        assert(b@.subrange(i as int, b@.len() as int).drop_first() =~= b@.subrange(i + 1, b@.len() as int));
        i = i + 1;
    }
    if i == a.len() {
        false
    } else if i == b.len() {
        true
    } else {
        assert(a@.subrange(i as int, a@.len() as int)[0] == a@[i as int]);
        assert(b@.subrange(i as int, b@.len() as int)[0] == b@[i as int]);
        a[i] > b[i]
    }
}

/// The version of an installation: the newest version-like directory beside
/// the executable (entries are names with whether each is a directory), else
/// the version the registry reports.
pub fn newest_version_folder(entries: &Vec<(String, bool)>, reported: &str) -> (r: String)
    ensures
        ({
            let ev = entries@.map_values(|e: (String, bool)| (e.0@, e.1));
            match newest_version(ev, ev.len() as int) {
                Some(v) => r@ == v,
                None => r@ == reported@,
            }
        }),
{
    let ghost ev = entries@.map_values(|e: (String, bool)| (e.0@, e.1));
    let mut best: Option<String> = None;
    let mut best_chars: Vec<char> = Vec::new();
    let mut i: usize = 0;
    while i < entries.len()
        invariant
            i <= entries@.len(),
            ev == entries@.map_values(|e: (String, bool)| (e.0@, e.1)),
            crate::cdp::opt_text(best) == newest_version(ev, i as int),
            best matches Some(b) ==> best_chars@ == b@,
        decreases entries.len() - i,
    {
        let name = &entries[i].0;
        let cs = crate::text::chars_of(name.as_str());
        let looks = entries[i].1 && cs.len() > 0 && '0' <= cs[0] && cs[0] <= '9' && str_contains(name.as_str(), ".");
        assert(ev[i as int] == (name@, entries@[i as int].1));
        let better = match &best {
            None => true,
            Some(_) => after(&cs, &best_chars),
        };
        if looks && better {
            best = Some(name.clone());
            best_chars = cs;
        }
        i = i + 1;
    }
    match best {
        Some(b) => b,
        None => reported.to_string(),
    }
}

/// `s` ends with `suffix`.
pub open spec fn ends_with(s: Seq<char>, suffix: Seq<char>) -> bool {
    suffix.len() <= s.len() && s.subrange(s.len() - suffix.len(), s.len() as int) == suffix
}

/// A file name of an installer package: it names the mini installer, in any
/// case, and ends in `.exe`.
pub fn is_mini_installer_name(name: &str) -> (r: bool)
    ensures
        r == (contains(lower_of(name@), "mini_installer"@) && ends_with(name@, ".exe"@)),
{
    let lower = to_lower(name);
    if !str_contains(lower.as_str(), "mini_installer") {
        return false;
    }
    let cs = chars_of(name);
    let suffix = chars_of(".exe");
    if suffix.len() > cs.len() {
        return false;
    }
    matches_at(&cs, &suffix, cs.len() - suffix.len())
}

} // verus!
