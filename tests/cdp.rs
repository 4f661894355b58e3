use edge_utilities::http::http_body;
use edge_utilities::cdp::{
    attach_request, decode_event, detach_request, listing_request, listing_response, plan_target,
    ws_url_from_version_body, AttachSession, TargetInfo, TargetPlan,
};

fn target(id: Option<&str>, ttype: Option<&str>, title: Option<&str>, url: Option<&str>, pid: Option<u32>) -> TargetInfo {
    TargetInfo {
        target_id: id.map(|s| s.to_string()),
        target_type: ttype.map(|s| s.to_string()),
        title: title.map(|s| s.to_string()),
        url: url.map(|s| s.to_string()),
        pid,
    }
}

/// Runs the attach choreography over scripted messages, sending always succeeding.
fn run_session(targets: &[TargetInfo], incoming: &[&str]) -> (Vec<String>, AttachSession) {
    let mut sent = Vec::new();
    let mut session = AttachSession::new();
    for t in targets {
        match plan_target(t) {
            TargetPlan::Skip => {}
            TargetPlan::Known(page) => session.record_known(page),
            TargetPlan::Attach { target_id, page } => {
                sent.push(session.next_attach_request(&target_id));
                session.record_attach(target_id, page);
            }
        }
    }
    for m in incoming {
        if session.is_settled() {
            break;
        }
        session.on_message(m);
    }
    (sent, session)
}

#[test]
fn attach_event_fills_pid() {
    let targets = vec![target(Some("T1"), Some("page"), Some("Example"), Some("https://example.com/"), None)];
    let incoming = [
        r#"{"method":"Target.attachedToTarget","params":{"sessionId":"S1","targetInfo":{"targetId":"T1","pid":555,"type":"page"}}}"#,
        r#"{"id":10,"result":{"sessionId":"S1"}}"#,
    ];
    let (sent, session) = run_session(&targets, &incoming);
    assert_eq!(
        sent,
        vec![r#"{"id":10,"method":"Target.attachToTarget","params":{"targetId":"T1","flatten":true}}"#.to_string()]
    );
    assert!(session.is_settled());
    let pages = session.into_pages();
    assert_eq!(pages.len(), 1);
    assert_eq!(pages[0].process_id, Some(555));
    assert_eq!(pages[0].url, "Example \u{2014} https://example.com/");
    assert_eq!(pages[0].target_type, None);
    assert_eq!(
        session.detach_requests(),
        vec![r#"{"id":11,"method":"Target.detachFromTarget","params":{"sessionId":"S1"}}"#.to_string()]
    );
}

#[test]
fn attach_without_event_drops_target() {
    let targets = vec![target(Some("T1"), Some("page"), None, Some("https://example.com/"), None)];
    let (_, session) = run_session(&targets, &[]);
    assert!(!session.is_settled());
    assert!(session.into_pages().is_empty());
    assert!(session.detach_requests().is_empty());
}

#[test]
fn listed_pid_needs_no_attach() {
    let targets = vec![
        target(Some("A"), Some("service_worker"), Some("https://sw.test/"), Some("https://sw.test/"), Some(77)),
        target(Some("B"), Some("iframe"), Some(""), Some("https://frame.test/"), Some(0)),
    ];
    let incoming = [r#"{"method":"Target.attachedToTarget","params":{"sessionId":"S9","targetInfo":{"targetId":"B","pid":88}}}"#];
    let (sent, session) = run_session(&targets, &incoming);
    assert_eq!(sent.len(), 1);
    let pages = session.into_pages();
    assert_eq!(pages.len(), 2);
    assert_eq!(pages[0].process_id, Some(77));
    assert_eq!(pages[0].url, "https://sw.test/");
    assert_eq!(pages[0].target_type.as_deref(), Some("Service Worker"));
    assert_eq!(pages[1].process_id, Some(88));
    assert_eq!(pages[1].target_type.as_deref(), Some("iframe"));
}

#[test]
fn uninteresting_targets_are_skipped() {
    let skipped = [
        target(None, Some("page"), None, Some("https://a/"), Some(1)),
        target(Some("x"), Some("browser"), None, Some("https://a/"), Some(1)),
        target(Some("x"), Some("webview"), None, Some("https://a/"), Some(1)),
        target(Some("x"), Some("auction_worklet"), None, Some("https://a/"), Some(1)),
        target(Some("x"), Some("page"), None, None, Some(1)),
        target(Some("x"), Some("page"), None, Some(""), Some(1)),
        target(Some("x"), Some("page"), None, Some("about:blank"), Some(1)),
        target(Some("x"), Some("page"), None, Some("devtools://devtools/x"), Some(1)),
        target(Some("x"), Some("page"), None, Some("chrome-extension://abc/bg.html"), Some(1)),
        target(Some("x"), Some("page"), None, Some("edge://newtab/"), Some(1)),
    ];
    for t in &skipped {
        assert!(matches!(plan_target(t), TargetPlan::Skip));
    }
}

#[test]
fn type_labels() {
    let cases = [
        (None, None),
        (Some("page"), None),
        (Some("shared_worker"), Some("Shared Worker")),
        (Some("worker"), Some("Worker")),
        (Some("background_page"), Some("Background Page")),
        (Some("other_kind"), Some("other_kind")),
    ];
    for (ttype, label) in cases {
        match plan_target(&target(Some("t"), ttype, None, Some("https://a/"), Some(3))) {
            TargetPlan::Known(p) => assert_eq!(p.target_type.as_deref(), label),
            _ => panic!("expected a known page"),
        }
    }
}

#[test]
fn unrelated_answers_do_not_settle() {
    let targets = vec![target(Some("T1"), None, None, Some("https://a/"), None)];
    let (_, session) = run_session(&targets, &[r#"{"id":3,"result":{}}"#, "not json"]);
    assert!(!session.is_settled());
}

#[test]
fn listing_answer_is_recognised() {
    let text = r#"{"id":1,"result":{"targetInfos":[{"targetId":"A","type":"page","title":"t","url":"https://a/","attached":false},{"targetId":"B","type":"iframe","url":"https://b/","pid":42}]}}"#;
    let list = listing_response(text).expect("the listing answer");
    assert_eq!(list.len(), 2);
    assert_eq!(list[0].target_id.as_deref(), Some("A"));
    assert_eq!(list[0].pid, None);
    assert_eq!(list[1].pid, Some(42));
    assert!(listing_response(r#"{"id":2,"result":{}}"#).is_none());
    assert!(listing_response(r#"{"method":"Target.targetCreated"}"#).is_none());
    assert_eq!(listing_response(r#"{"id":1,"error":{}}"#).map(|v| v.len()), Some(0));
    assert_eq!(listing_response(r#"{"id":1,"result":{"targetInfos":[{"targetId":5}]}}"#).map(|v| v.len()), Some(0));
}

#[test]
fn events_are_decoded() {
    let ev = decode_event(r#"{"method":"Target.attachedToTarget","params":{"sessionId":"S","targetInfo":{"targetId":"T","pid":9}}}"#);
    assert_eq!(ev.id, None);
    let a = ev.attached.expect("an attached target");
    assert_eq!(a.pid, Some(9));
    assert_eq!(a.target_id.as_deref(), Some("T"));
    assert_eq!(a.session_id.as_deref(), Some("S"));
    let ev = decode_event(r#"{"id":12,"result":{}}"#);
    assert_eq!(ev.id, Some(12));
    assert!(ev.attached.is_none());
}

#[test]
fn version_body_names_socket() {
    let body = br#"{"Browser":"Edg/120","webSocketDebuggerUrl":"ws://127.0.0.1:9222/devtools/browser/abc"}"#;
    assert_eq!(
        ws_url_from_version_body(body).as_deref(),
        Some("ws://127.0.0.1:9222/devtools/browser/abc")
    );
    assert_eq!(ws_url_from_version_body(b"{}"), None);
    assert_eq!(ws_url_from_version_body(b"garbage"), None);
}

#[test]
fn request_texts() {
    assert_eq!(listing_request(), r#"{"id":1,"method":"Target.getTargets"}"#);
    assert_eq!(
        attach_request(123, "ABC"),
        r#"{"id":123,"method":"Target.attachToTarget","params":{"targetId":"ABC","flatten":true}}"#
    );
    assert_eq!(
        detach_request(7, "S"),
        r#"{"id":7,"method":"Target.detachFromTarget","params":{"sessionId":"S"}}"#
    );
}

#[test]
fn chunked_version_answer_names_socket() {
    let body = r#"{"Browser":"Edg/120","webSocketDebuggerUrl":"ws://127.0.0.1:9222/devtools/browser/x"}"#;
    let response = format!(
        "HTTP/1.1 200 OK\r\nTransfer-Encoding: chunked\r\n\r\n{:x}\r\n{}\r\n0\r\n\r\n",
        body.len(),
        body
    );
    let decoded = http_body(response.as_bytes()).expect("a body");
    assert_eq!(
        ws_url_from_version_body(&decoded).as_deref(),
        Some("ws://127.0.0.1:9222/devtools/browser/x")
    );
}

#[test]
fn malformed_listing_gives_no_targets() {
    assert_eq!(listing_response(r#"{"id":1,"result":{"targetInfos":{}}}"#).map(|v| v.len()), Some(0));
    assert_eq!(listing_response(r#"{"id":1,"result":{"targetInfos":[1]}}"#).map(|v| v.len()), Some(0));
    assert_eq!(listing_response(r#"{"id":1,"result":{"targetInfos":[]}}"#).map(|v| v.len()), Some(0));
    assert_eq!(
        listing_response(r#"{"id":1,"result":{"targetInfos":[{"targetId":"A","pid":4294967296}]}}"#).map(|v| v.len()),
        Some(0)
    );
    assert_eq!(
        listing_response(r#"{"id":1,"result":{"targetInfos":[{"targetId":"A","title":null,"pid":null}]}}"#)
            .map(|v| v.len()),
        Some(1)
    );
}
