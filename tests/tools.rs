use edge_utilities::installs::{installer_flag_for, is_mini_installer_name, is_system_install, newest_version_folder};
use edge_utilities::launcher::get_common_flags;
use edge_utilities::ports::{
    active_port_from_contents, browser_port_sources, extract_debugging_port, extract_user_data_dir,
    parse_port_number, port_source, PortSource,
};
use edge_utilities::grouping::HostProcess;
use edge_utilities::repos::{
    find_merge_base_index, get_common_build_targets, get_recent_commits, git_state_label, is_edge_repo,
    gitdir_target_of, remove_all_of, GitFacts, RebaseFiles,
};
use edge_utilities::scripts::{
    convert_date_to_schtasks, default_scripts, plan_task_sync, task_name_for_script,
    task_status_from_report, ScheduleConfig, ScriptDef, TaskSync,
};

fn args(v: &[&str]) -> Vec<String> {
    v.iter().map(|s| s.to_string()).collect()
}

#[test]
fn debugging_port_from_arguments() {
    assert_eq!(extract_debugging_port(&args(&["--remote-debugging-port=9222"])), Some(9222));
    assert_eq!(extract_debugging_port(&args(&["--remote-debugging-port=0", "--remote-debugging-port=+80"])), Some(80));
    assert_eq!(extract_debugging_port(&args(&["--remote-debugging-port=70000"])), None);
    assert_eq!(extract_debugging_port(&args(&["--remote-debugging-port=x1"])), None);
    assert_eq!(extract_debugging_port(&args(&["--remote-debugging-port="])), None);
    assert_eq!(extract_debugging_port(&args(&[])), None);
}

#[test]
fn port_numbers() {
    assert_eq!(parse_port_number("65535"), Some(65535));
    assert_eq!(parse_port_number("065535"), Some(65535));
    assert_eq!(parse_port_number("65536"), None);
    assert_eq!(parse_port_number("99999999999999999999"), None);
    assert_eq!(parse_port_number("+"), None);
    assert_eq!(parse_port_number(""), None);
    assert_eq!(parse_port_number(" 1"), None);
}

#[test]
fn user_data_dir_quotes_removed() {
    assert_eq!(
        extract_user_data_dir(&args(&["--x", "--user-data-dir=\"C:\\temp\\p\"", "--user-data-dir=D:\\"])).as_deref(),
        Some("C:\\temp\\p")
    );
    assert_eq!(extract_user_data_dir(&args(&["--user-data-dir=\"\""])).as_deref(), Some(""));
    assert_eq!(extract_user_data_dir(&args(&["--profile-directory=Default"])), None);
}

#[test]
fn active_port_file() {
    assert_eq!(active_port_from_contents("9223\n/devtools/browser/abc\n"), Some(9223));
    assert_eq!(active_port_from_contents("  9224 \r\nrest"), Some(9224));
    assert_eq!(active_port_from_contents("0\n"), Some(0));
    assert_eq!(active_port_from_contents(""), None);
    assert_eq!(active_port_from_contents("\n9225"), None);
    assert_eq!(active_port_from_contents("port"), None);
}

#[test]
fn port_source_prefers_command_line() {
    assert!(matches!(
        port_source(&args(&["--user-data-dir=C:\\d", "--remote-debugging-port=9333"])),
        Some(PortSource::Port(9333))
    ));
    match port_source(&args(&["--user-data-dir=C:\\d"])) {
        Some(PortSource::DataDir(d)) => assert_eq!(d, "C:\\d"),
        _ => panic!("expected a data directory"),
    }
    assert!(port_source(&args(&["--remote-debugging-port=0"])).is_none());
}

#[test]
fn port_sources_of_browser_processes() {
    let mk = |pid: u32, name: &str, a: &[&str]| HostProcess {
        pid,
        parent_pid: None,
        name: name.to_string(),
        exe_path: String::new(),
        cmd_args: args(a),
        memory_bytes: 0,
        cpu_centipercent: 0,
    };
    let hosts = vec![
        mk(1, "msedge.exe", &["--remote-debugging-port=9222"]),
        mk(2, "msedge.exe", &["--type=renderer", "--remote-debugging-port=9999"]),
        mk(3, "chrome.exe", &["--remote-debugging-port=9000"]),
        mk(4, "msedge.exe", &["--user-data-dir=E:\\p"]),
        mk(5, "msedge.exe", &[]),
    ];
    let sources = browser_port_sources(&hosts);
    assert_eq!(sources.len(), 2);
    assert!(matches!(sources[0], PortSource::Port(9222)));
    assert!(matches!(&sources[1], PortSource::DataDir(d) if d == "E:\\p"));
}

#[test]
fn task_names_and_dates() {
    assert_eq!(task_name_for_script("42"), "EdgeUtilities\\Script_42");
    assert_eq!(convert_date_to_schtasks("2026-02-09"), "02/09/2026");
    assert_eq!(convert_date_to_schtasks("2026/02/09"), "2026/02/09");
    assert_eq!(convert_date_to_schtasks("2026-02-09-1"), "2026-02-09-1");
    assert_eq!(convert_date_to_schtasks("--"), "//");
}

#[test]
fn built_in_scripts() {
    let s = default_scripts(false);
    assert_eq!(s.len(), 3);
    assert_eq!(s[0].id, "1");
    assert_eq!(s[0].command, "git");
    assert_eq!(s[1].args, args(&["fetch", "origin", "main"]));
    assert_eq!(s[2].command, "df");
    let w = default_scripts(true);
    assert_eq!(w[2].command, "cmd");
    assert_eq!(w[2].args[4], "size,freespace,caption");
}

fn script(schedule: Option<ScheduleConfig>, working_dir: Option<&str>) -> ScriptDef {
    ScriptDef {
        id: "7".to_string(),
        name: "Sync".to_string(),
        description: String::new(),
        command: "git".to_string(),
        args: args(&["pull", "--rebase"]),
        working_dir: working_dir.map(|s| s.to_string()),
        schedule,
    }
}

fn schedule(cadence: &str, days: &[&str], interval: u32, start: Option<&str>, end: Option<&str>) -> ScheduleConfig {
    ScheduleConfig {
        enabled: true,
        cadence: cadence.to_string(),
        time: "09:30".to_string(),
        days_of_week: args(days),
        interval,
        start_date: start.map(|s| s.to_string()),
        end_date: end.map(|s| s.to_string()),
    }
}

#[test]
fn task_sync_plans() {
    assert!(matches!(plan_task_sync(&script(None, None)), TaskSync::Remove));
    let mut off = schedule("daily", &[], 1, None, None);
    off.enabled = false;
    assert!(matches!(plan_task_sync(&script(Some(off), None)), TaskSync::Disable));
    assert!(matches!(
        plan_task_sync(&script(Some(schedule("monthly", &[], 1, None, None)), None)),
        TaskSync::UnknownCadence
    ));
    match plan_task_sync(&script(Some(schedule("weekly", &["MON", "FRI"], 0, Some("2026-02-09"), Some(""))), Some("D:\\repo"))) {
        TaskSync::Create(v) => assert_eq!(
            v,
            args(&[
                "/Create", "/TN", "EdgeUtilities\\Script_7", "/TR",
                "cmd.exe /C cd /d \"D:\\repo\" & git pull --rebase", "/F",
                "/SC", "WEEKLY", "/D", "MON,FRI", "/MO", "1", "/ST", "09:30", "/SD", "02/09/2026",
            ])
        ),
        _ => panic!("expected a task to create"),
    }
    match plan_task_sync(&script(Some(schedule("hourly", &[], 12, None, Some("2026-12-31"))), Some(""))) {
        TaskSync::Create(v) => assert_eq!(
            v,
            args(&[
                "/Create", "/TN", "EdgeUtilities\\Script_7", "/TR", "cmd.exe /C git pull --rebase", "/F",
                "/SC", "HOURLY", "/MO", "12", "/ST", "09:30", "/ED", "12/31/2026",
            ])
        ),
        _ => panic!("expected a task to create"),
    }
}

#[test]
fn task_status_report() {
    let report = "\r\nFolder: \\EdgeUtilities\r\nHostName: PC\r\n  Status:   Ready  \r\nNext Run Time: 2/10/2026 9:30:00 AM\r\nLast Run Time: N/A\r\nLast Result: 267011\r\n";
    let st = task_status_from_report(true, report);
    assert!(st.exists);
    assert_eq!(st.status, "Ready");
    assert_eq!(st.next_run, "2/10/2026 9:30:00 AM");
    assert_eq!(st.last_run, "N/A");
    assert_eq!(st.last_result, "267011");
    let none = task_status_from_report(false, report);
    assert!(!none.exists);
    assert_eq!(none.status, "Not scheduled");
    assert_eq!(none.next_run, "");
}

#[test]
fn commit_log_parsing() {
    let log = "abc123|abc|Fix thing|Ann|2026-01-02\nbad line\r\ndef456|def|Subject | with bar|Bob|2026-01-01\r\n";
    let commits = get_recent_commits(log);
    assert_eq!(commits.len(), 2);
    assert_eq!(commits[0].hash, "abc123");
    assert_eq!(commits[0].date, "2026-01-02");
    assert_eq!(commits[1].subject, "Subject ");
    assert_eq!(commits[1].author, " with bar");
    assert_eq!(commits[1].date, "Bob|2026-01-01");
    assert!(get_recent_commits("").is_empty());
}

#[test]
fn merge_base_position() {
    let commits = get_recent_commits("a|a|s|x|d\nb|b|s|x|d\n");
    assert_eq!(find_merge_base_index(&commits, "b\n"), Some(1));
    assert_eq!(find_merge_base_index(&commits, "c"), None);
}

#[test]
fn repo_markers() {
    assert!(is_edge_repo(true, true, false));
    assert!(is_edge_repo(true, false, true));
    assert!(!is_edge_repo(true, false, false));
    assert!(!is_edge_repo(false, true, true));
}

#[test]
fn fixed_lists() {
    let flags = get_common_flags();
    assert_eq!(flags.len(), 10);
    assert_eq!(flags[5].flags, args(&["--remote-debugging-port=9222"]));
    assert_eq!(flags[9].flags[1], "--vmodule=*/webrtc/*=1");
    let targets = get_common_build_targets();
    assert_eq!(targets.len(), 12);
    assert_eq!(targets[11], "mini_installer");
}

#[test]
fn installer_flags_and_paths() {
    assert_eq!(installer_flag_for("Beta"), "--msedge-beta");
    assert_eq!(installer_flag_for("DEV"), "--msedge-dev");
    assert_eq!(installer_flag_for("canary"), "--msedge-sxs");
    assert_eq!(installer_flag_for("Stable"), "--msedge");
    assert!(is_system_install("C:\\PROGRAM FILES (X86)\\Microsoft\\Edge\\Application\\msedge.exe"));
    assert!(!is_system_install("C:\\Users\\u\\AppData\\Local\\Microsoft\\Edge SxS\\Application\\msedge.exe"));
}

#[test]
fn newest_version_folder_choice() {
    let entries = vec![
        ("120.0.1.2".to_string(), true),
        ("Installer".to_string(), true),
        ("121.0.0.1".to_string(), true),
        ("122.0.0.0".to_string(), false),
        ("99.0".to_string(), true),
    ];
    assert_eq!(newest_version_folder(&entries, "1.0"), "99.0");
    assert_eq!(newest_version_folder(&vec![("Installer".to_string(), true)], "1.0"), "1.0");
}

fn facts(branch: &str) -> GitFacts {
    GitFacts {
        branch_output: branch.to_string(),
        merge_head: false,
        rebase_merge: None,
        rebase_apply_head: None,
        cherry_pick_head: false,
        revert_head: false,
        bisect_log: false,
        short_sha_output: "abc1234\n".to_string(),
    }
}

#[test]
fn git_state_labels() {
    assert_eq!(git_state_label(&facts("feature/x\n")), "feature/x");
    let mut f = facts("main\n");
    f.merge_head = true;
    assert_eq!(git_state_label(&f), "main (merge in progress)");
    let mut f = facts("");
    f.rebase_merge = Some(RebaseFiles {
        head_name: "refs/heads/topic\n".to_string(),
        msgnum: "2\n".to_string(),
        end: "5\n".to_string(),
    });
    assert_eq!(git_state_label(&f), "topic (rebase 2/5)");
    let mut f = facts("");
    f.rebase_merge = Some(RebaseFiles { head_name: String::new(), msgnum: "1".to_string(), end: String::new() });
    assert_eq!(git_state_label(&f), "HEAD (rebasing)");
    let mut f = facts("");
    f.rebase_merge = Some(RebaseFiles { head_name: "refs/heads/t".to_string(), msgnum: String::new(), end: String::new() });
    assert_eq!(git_state_label(&f), "t (rebasing)");
    let mut f = facts("");
    f.rebase_apply_head = Some("refs/heads/b\n".to_string());
    assert_eq!(git_state_label(&f), "b (rebase-apply)");
    let mut f = facts("");
    f.rebase_apply_head = Some(String::new());
    assert_eq!(git_state_label(&f), "HEAD (rebase-apply)");
    let mut f = facts("");
    f.merge_head = true;
    assert_eq!(git_state_label(&f), "HEAD (merge in progress)");
    let mut f = facts("");
    f.cherry_pick_head = true;
    assert_eq!(git_state_label(&f), "HEAD (cherry-pick)");
    let mut f = facts("");
    f.revert_head = true;
    assert_eq!(git_state_label(&f), "HEAD (revert)");
    let mut f = facts("");
    f.bisect_log = true;
    assert_eq!(git_state_label(&f), "HEAD (bisecting)");
    assert_eq!(git_state_label(&facts("  ")), "HEAD detached at abc1234");
    assert_eq!(remove_all_of("refs/heads/a/refs/heads/b", "refs/heads/"), "a/b");
    assert_eq!(remove_all_of("aaa", "aa"), "a");
}

#[test]
fn installer_file_names() {
    assert!(is_mini_installer_name("MINI_INSTALLER.x64.exe"));
    assert!(is_mini_installer_name("mini_installer.exe"));
    assert!(!is_mini_installer_name("mini_installer.EXE"));
    assert!(!is_mini_installer_name("setup.exe"));
    assert!(!is_mini_installer_name("mini_installer"));
}

#[test]
fn worktree_pointer() {
    assert_eq!(gitdir_target_of("gitdir: D:/edge/.git/worktrees/w1\n").as_deref(), Some("D:/edge/.git/worktrees/w1"));
    assert_eq!(gitdir_target_of("  gitdir: ../x").as_deref(), Some("../x"));
    assert_eq!(gitdir_target_of("ref: refs/heads/main"), None);
}
