use edge_utilities::grouping::{
    edge_process_groups, family_processes, find_root_ancestor, group_processes, root_flags,
    HostProcess, ProcessGroup,
};

fn host(pid: u32, parent: Option<u32>, name: &str, exe: &str, args: &[&str]) -> HostProcess {
    HostProcess {
        pid,
        parent_pid: parent,
        name: name.to_string(),
        exe_path: exe.to_string(),
        cmd_args: args.iter().map(|s| s.to_string()).collect(),
        memory_bytes: 1024 * 1024,
        cpu_centipercent: 150,
    }
}

fn edge(pid: u32, parent: Option<u32>, args: &[&str]) -> HostProcess {
    host(pid, parent, "msedge.exe", "C:\\Program Files (x86)\\Microsoft\\Edge\\Application\\msedge.exe", args)
}

fn pids(g: &ProcessGroup) -> Vec<u32> {
    g.processes.iter().map(|p| p.pid).collect()
}

#[test]
fn three_processes_one_browser_group() {
    let hosts = vec![
        edge(102, Some(100), &["--type=gpu-process"]),
        edge(100, None, &[]),
        edge(101, Some(100), &["--type=renderer"]),
    ];
    let groups = edge_process_groups(&hosts);
    assert_eq!(groups.len(), 1);
    let g = &groups[0];
    assert_eq!(g.browser_pid, 100);
    assert_eq!(pids(g), vec![100, 101, 102]);
    assert_eq!(g.instance_type, "Browser");
    assert_eq!(g.channel, "Stable");
    assert_eq!(g.host_app, "");
    assert_eq!(g.processes[0].process_type, "Browser");
    assert_eq!(g.processes[1].process_type, "Renderer");
    assert_eq!(g.processes[2].process_type, "GPU");
}

#[test]
fn every_process_in_exactly_one_group() {
    let hosts = vec![
        edge(10, Some(1), &[]),
        edge(11, Some(10), &["--type=renderer"]),
        edge(20, Some(1), &["--embedded-browser-webview=1"]),
        edge(21, Some(20), &["--type=renderer", "--embedded-browser-webview=1"]),
        edge(30, None, &["--app-id=m365", "--webview-exe-name=Teams.exe"]),
        edge(31, Some(999), &["--type=gpu-process"]),
        host(1, None, "explorer.exe", "C:\\Windows\\explorer.exe", &[]),
        host(2, None, "notepad.exe", "C:\\Windows\\notepad.exe", &[]),
    ];
    let family = family_processes(&hosts);
    assert_eq!(family.len(), 6);
    let groups = group_processes(&family, &hosts);
    for p in &family {
        let n = groups.iter().filter(|g| g.processes.iter().any(|m| m.pid == p.pid)).count();
        assert_eq!(n, 1, "pid {}", p.pid);
    }
    let owners: Vec<u32> = groups.iter().map(|g| g.browser_pid).collect();
    assert_eq!(owners, vec![10, 31, 20, 30]);
    let types: Vec<&str> = groups.iter().map(|g| g.instance_type.as_str()).collect();
    assert_eq!(types, vec!["Browser", "Browser", "WebView2", "Copilot"]);
    assert_eq!(groups[2].host_app, "explorer.exe");
    assert_eq!(groups[3].host_app, "Teams.exe");
}

#[test]
fn host_app_empty_without_parent() {
    let hosts = vec![
        edge(5, None, &[]),
        host(6, Some(5), "helper.exe", "C:\\x\\msedgewebview2.exe", &["--embedded-browser-webview=1"]),
    ];
    let groups = edge_process_groups(&hosts);
    assert_eq!(groups.len(), 1);
    assert_eq!(groups[0].browser_pid, 5);
    assert_eq!(groups[0].instance_type, "WebView2");
    assert_eq!(groups[0].host_app, "");
}

#[test]
fn copilot_member_wins_over_webview() {
    let hosts = vec![
        edge(40, None, &["--embedded-browser-webview=1"]),
        edge(41, Some(40), &["--embedded-browser-webview=1", "copilot"]),
    ];
    let groups = edge_process_groups(&hosts);
    assert_eq!(groups.len(), 1);
    assert_eq!(groups[0].instance_type, "Copilot");
}

#[test]
fn deep_chain_terminates_and_is_grouped() {
    let mut hosts = vec![edge(1000, None, &[])];
    for pid in 1001..1031u32 {
        hosts.push(edge(pid, Some(pid - 1), &["--type=utility"]));
    }
    let family = family_processes(&hosts);
    let flags = root_flags(&family);
    assert_eq!(find_root_ancestor(&family, 1030, &flags), 1010);
    assert_eq!(find_root_ancestor(&family, 1015, &flags), 1000);
    let groups = group_processes(&family, &hosts);
    let total: usize = groups.iter().map(|g| g.processes.len()).sum();
    assert_eq!(total, 31);
    for p in &family {
        let n = groups.iter().filter(|g| g.processes.iter().any(|m| m.pid == p.pid)).count();
        assert_eq!(n, 1);
    }
}

#[test]
fn cycle_terminates_and_is_grouped() {
    let hosts = vec![edge(7, Some(8), &[]), edge(8, Some(7), &["--type=renderer"])];
    let family = family_processes(&hosts);
    let flags = root_flags(&family);
    assert_eq!(find_root_ancestor(&family, 7, &flags), 7);
    assert_eq!(find_root_ancestor(&family, 8, &flags), 8);
    let groups = group_processes(&family, &hosts);
    assert_eq!(groups.len(), 2);
    assert_eq!(pids(&groups[0]), vec![7]);
    assert_eq!(pids(&groups[1]), vec![8]);
}

#[test]
fn family_matches_name_or_path_in_any_case() {
    let hosts = vec![
        host(1, None, "MSEDGE.EXE", "", &[]),
        host(2, None, "other", "C:\\Apps\\MsEdge\\run.exe", &[]),
        host(3, None, "chrome.exe", "C:\\chrome.exe", &[]),
    ];
    let family = family_processes(&hosts);
    let got: Vec<u32> = family.iter().map(|p| p.pid).collect();
    assert_eq!(got, vec![1, 2]);
}

#[test]
fn empty_snapshot_has_no_groups() {
    assert!(edge_process_groups(&Vec::new()).is_empty());
}

#[test]
fn local_build_channel_and_url() {
    let hosts = vec![
        host(50, None, "msedge.exe", "D:\\edge\\src\\out\\debug_x64\\msedge.exe", &[]),
        host(51, Some(50), "msedge.exe", "D:\\edge\\src\\out\\debug_x64\\msedge.exe", &["--type=renderer", "https://a.test/"]),
    ];
    let groups = edge_process_groups(&hosts);
    assert_eq!(groups[0].channel, "Local Build");
    assert_eq!(groups[0].browser_exe, "D:\\edge\\src\\out\\debug_x64\\msedge.exe");
    assert_eq!(groups[0].processes[1].url, "https://a.test/");
    assert_eq!(groups[0].processes[1].memory_bytes, 1024 * 1024);
}
