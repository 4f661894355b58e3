//! Launching the browser: the flag presets offered, and the builds found in
//! checkouts.
use vstd::prelude::*;
use crate::text::string_views;

verus! {

/// A named set of command-line flags.
pub struct LaunchPreset {
    pub name: String,
    pub flags: Vec<String>,
}

/// A browser executable built in a checkout.
pub struct RepoBuild {
    pub repo_path: String,
    pub out_dir: String,
    pub exe_path: String,
    pub last_modified: String,
}

/// The name and flags of a preset.
pub open spec fn preset_view(p: LaunchPreset) -> (Seq<char>, Seq<Seq<char>>) {
    (p.name@, string_views(p.flags@))
}

/// The presets offered by default.
pub open spec fn common_presets() -> Seq<(Seq<char>, Seq<Seq<char>>)> {
    seq![
        ("No First Run"@, seq!["--no-first-run"@]),
        ("No Browser Check"@, seq!["--no-default-browser-check"@]),
        ("No Default Apps"@, seq!["--disable-default-apps"@]),
        ("No Sync"@, seq!["--disable-sync"@]),
        ("Disable GPU"@, seq!["--disable-gpu"@]),
        ("Remote Debugging"@, seq!["--remote-debugging-port=9222"@]),
        ("Incognito"@, seq!["--inprivate"@]),
        ("Disable Extensions"@, seq!["--disable-extensions"@]),
        ("Verbose Logging"@, seq!["--enable-logging"@, "--v=1"@]),
        ("WebRTC Logging"@, seq!["--enable-logging"@, "--vmodule=*/webrtc/*=1"@]),
    ]
}

fn preset(name: &str, flags: Vec<String>) -> (r: LaunchPreset)
    ensures
        preset_view(r) == (name@, string_views(flags@)),
{
    LaunchPreset { name: name.to_string(), flags }
}

fn one_flag(a: &str) -> (r: Vec<String>)
    ensures
        string_views(r@) == seq![a@],
{
    let r = vec![a.to_string()];
    assert(string_views(r@) =~= seq![a@]);
    r
}

fn two_flags(a: &str, b: &str) -> (r: Vec<String>)
    ensures
        string_views(r@) == seq![a@, b@],
{
    let r = vec![a.to_string(), b.to_string()];
    assert(string_views(r@) =~= seq![a@, b@]);
    r
}

/// The commonly used flag presets.
pub fn get_common_flags() -> (r: Vec<LaunchPreset>)
    ensures
        r@.map_values(|p: LaunchPreset| preset_view(p)) == common_presets(),
{
    let r = vec![
        preset("No First Run", one_flag("--no-first-run")),
        preset("No Browser Check", one_flag("--no-default-browser-check")),
        preset("No Default Apps", one_flag("--disable-default-apps")),
        preset("No Sync", one_flag("--disable-sync")),
        preset("Disable GPU", one_flag("--disable-gpu")),
        preset("Remote Debugging", one_flag("--remote-debugging-port=9222")),
        preset("Incognito", one_flag("--inprivate")),
        preset("Disable Extensions", one_flag("--disable-extensions")),
        preset("Verbose Logging", two_flags("--enable-logging", "--v=1")),
        preset("WebRTC Logging", two_flags("--enable-logging", "--vmodule=*/webrtc/*=1")),
    ];
    assert(r@.map_values(|p: LaunchPreset| preset_view(p)) =~= common_presets());
    r
}

} // verus!
