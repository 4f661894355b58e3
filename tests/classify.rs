use edge_utilities::classify::{
    channel_from_lowercase, detect_channel, detect_instance_type, detect_process_type,
    extract_url, instance_type_from_lowercase,
};

fn args(v: &[&str]) -> Vec<String> {
    v.iter().map(|s| s.to_string()).collect()
}

#[test]
fn role_extension_renderer() {
    assert_eq!(detect_process_type(&args(&["--type=renderer", "--extension-process"])), "Extension");
}

#[test]
fn role_order_does_not_matter() {
    assert_eq!(detect_process_type(&args(&["--extension-process", "--type=renderer"])), "Extension");
    assert_eq!(
        detect_process_type(&args(&["--lang=en", "--type=gpu-process", "--foo"])),
        detect_process_type(&args(&["--foo", "--type=gpu-process", "--lang=en"]))
    );
}

#[test]
fn role_renderer_alone() {
    assert_eq!(detect_process_type(&args(&["--type=renderer"])), "Renderer");
}

#[test]
fn role_browser_without_type() {
    assert_eq!(detect_process_type(&args(&["--no-startup-window"])), "Browser");
    assert_eq!(detect_process_type(&args(&[])), "Browser");
}

#[test]
fn role_fixed_kinds() {
    assert_eq!(detect_process_type(&args(&["--type=gpu-process"])), "GPU");
    assert_eq!(detect_process_type(&args(&["--type=utility", "--utility-sub-type=x"])), "Utility");
    assert_eq!(detect_process_type(&args(&["--type=crashpad-handler"])), "Crashpad");
    assert_eq!(detect_process_type(&args(&["--type=ppapi"])), "Plugin");
    assert_eq!(detect_process_type(&args(&["--type=broker"])), "Broker");
}

#[test]
fn role_unknown_kind_passes_through() {
    assert_eq!(detect_process_type(&args(&["--type=zygote", "--x"])), "zygote");
    assert_eq!(detect_process_type(&args(&["--a", "--type=sandbox"])), "sandbox");
}

#[test]
fn instance_webview_with_assistant_is_copilot() {
    assert_eq!(
        detect_instance_type(&args(&["--embedded-browser-webview=1", "--app-id=m365"]), "C:\\x\\msedge.exe"),
        "Copilot"
    );
}

#[test]
fn instance_webview_exe_only() {
    assert_eq!(
        detect_instance_type(&args(&["--type=renderer"]), "C:\\Program Files\\Microsoft\\EdgeWebView2\\msedgewebview2.exe"),
        "WebView2"
    );
}

#[test]
fn instance_assistant_marker_only() {
    assert_eq!(detect_instance_type(&args(&["--app=https://copilot.microsoft.com"]), "msedge.exe"), "Copilot");
    assert_eq!(detect_instance_type(&args(&["--profile=M365"]), "msedge.exe"), "Copilot");
}

#[test]
fn instance_plain_browser() {
    assert_eq!(detect_instance_type(&args(&["--type=renderer"]), "C:\\Edge\\msedge.exe"), "Browser");
}

#[test]
fn instance_markers_ignore_case() {
    assert_eq!(detect_instance_type(&args(&["--WebView-Exe-Name=Teams.exe"]), "msedge.exe"), "WebView2");
    assert_eq!(instance_type_from_lowercase("--webview2", ""), "WebView2");
    assert_eq!(instance_type_from_lowercase("", ""), "Browser");
}

#[test]
fn url_first_http_argument() {
    assert_eq!(extract_url(&args(&["--type=renderer", "https://example.com/a", "--app=x"])), "https://example.com/a");
    assert_eq!(extract_url(&args(&["http://h"])), "http://h");
}

#[test]
fn url_app_argument() {
    assert_eq!(extract_url(&args(&["--app=https://pwa.example", "https://later"])), "https://pwa.example");
}

#[test]
fn url_absent() {
    assert_eq!(extract_url(&args(&["--type=renderer", "ftp://x"])), "");
}

#[test]
fn channel_by_path() {
    assert_eq!(detect_channel("C:\\Users\\u\\AppData\\Local\\Microsoft\\Edge SxS\\Application\\msedge.exe"), "Canary");
    assert_eq!(detect_channel("C:\\Program Files (x86)\\Microsoft\\Edge Dev\\Application\\msedge.exe"), "Dev");
    assert_eq!(detect_channel("C:\\Program Files (x86)\\Microsoft\\EDGE BETA\\Application\\msedge.exe"), "Beta");
    assert_eq!(detect_channel("D:\\edge\\src\\out\\release_x64\\msedge.exe"), "Local Build");
    assert_eq!(detect_channel("C:\\Program Files (x86)\\Microsoft\\Edge\\Application\\msedge.exe"), "Stable");
    assert_eq!(detect_channel(""), "Stable");
}

#[test]
fn channel_canary_wins() {
    assert_eq!(channel_from_lowercase("c:\\edge dev\\canary\\msedge.exe"), "Canary");
}
