//! The WebSocket side of the debugging endpoint: the messages sent, what is
//! read out of the messages received, which targets are reported, and the
//! attach session that recovers the process of each target.
use vstd::prelude::*;
use vstd::string::*;
use crate::http::{decimal_of, push_decimal};
use crate::text::{starts_with, str_starts_with};

verus! {

/// The text at `pointer` in the JSON document `doc`, when the document
/// parses and the value there is a string.
pub uninterp spec fn json_text_at(doc: Seq<u8>, pointer: Seq<char>) -> Option<Seq<char>>;

/// The number at `pointer` in the JSON document `doc`, when the document
/// parses and the value there is an integer that fits in 64 unsigned bits.
pub uninterp spec fn json_u64_at(doc: Seq<u8>, pointer: Seq<char>) -> Option<u64>;

/// The length of the array at `pointer` in the JSON document `doc`, when the
/// document parses and the value there is an array.
pub uninterp spec fn json_array_len_at(doc: Seq<u8>, pointer: Seq<char>) -> Option<nat>;

/// The JSON document `doc` parses and holds a value at `pointer`.
pub uninterp spec fn json_present_at(doc: Seq<u8>, pointer: Seq<char>) -> bool;

/// The JSON document `doc` parses and holds `null` at `pointer`.
pub uninterp spec fn json_null_at(doc: Seq<u8>, pointer: Seq<char>) -> bool;

/// The JSON document `doc` parses and holds an object at `pointer`.
pub uninterp spec fn json_object_at(doc: Seq<u8>, pointer: Seq<char>) -> bool;

/// Relies on `serde_json::from_slice`, `Value::pointer` and `Value::as_str`:
/// the string at a JSON pointer of a parsed document.
#[verifier::external_body]
fn text_at(doc: &[u8], pointer: &str) -> (r: Option<String>)
    ensures
        opt_text(r) == json_text_at(doc@, pointer@),
{
    match serde_json::from_slice::<serde_json::Value>(doc) {
        Ok(v) => match v.pointer(pointer) {
            Some(x) => x.as_str().map(|t| t.to_string()),
            None => None,
        },
        Err(_) => None,
    }
}

/// Relies on `serde_json::from_slice`, `Value::pointer` and `Value::as_u64`:
/// the unsigned number at a JSON pointer of a parsed document.
#[verifier::external_body]
fn u64_at(doc: &[u8], pointer: &str) -> (r: Option<u64>)
    ensures
        r == json_u64_at(doc@, pointer@),
{
    match serde_json::from_slice::<serde_json::Value>(doc) {
        Ok(v) => match v.pointer(pointer) {
            Some(x) => x.as_u64(),
            None => None,
        },
        Err(_) => None,
    }
}

/// Relies on `serde_json::from_slice`, `Value::pointer` and `Value::as_array`:
/// the length of the array at a JSON pointer of a parsed document.
#[verifier::external_body]
fn array_len_at(doc: &[u8], pointer: &str) -> (r: Option<usize>)
    ensures
        r matches Some(n) ==> json_array_len_at(doc@, pointer@) == Some(n as nat),
        r is None ==> json_array_len_at(doc@, pointer@) is None,
{
    match serde_json::from_slice::<serde_json::Value>(doc) {
        Ok(v) => match v.pointer(pointer) {
            Some(x) => x.as_array().map(|a| a.len()),
            None => None,
        },
        Err(_) => None,
    }
}

/// Relies on `serde_json::from_slice` and `Value::pointer`: whether a parsed
/// document holds a value at a JSON pointer.
#[verifier::external_body]
fn present_at(doc: &[u8], pointer: &str) -> (r: bool)
    ensures
        r == json_present_at(doc@, pointer@),
{
    match serde_json::from_slice::<serde_json::Value>(doc) {
        Ok(v) => v.pointer(pointer).is_some(),
        Err(_) => false,
    }
}

/// Relies on `serde_json::from_slice`, `Value::pointer` and `Value::is_null`:
/// whether a parsed document holds `null` at a JSON pointer.
#[verifier::external_body]
fn null_at(doc: &[u8], pointer: &str) -> (r: bool)
    ensures
        r == json_null_at(doc@, pointer@),
{
    match serde_json::from_slice::<serde_json::Value>(doc) {
        Ok(v) => match v.pointer(pointer) {
            Some(x) => x.is_null(),
            None => false,
        },
        Err(_) => false,
    }
}

/// Relies on `serde_json::from_slice`, `Value::pointer` and `Value::is_object`:
/// whether a parsed document holds an object at a JSON pointer.
#[verifier::external_body]
fn object_at(doc: &[u8], pointer: &str) -> (r: bool)
    ensures
        r == json_object_at(doc@, pointer@),
{
    match serde_json::from_slice::<serde_json::Value>(doc) {
        Ok(v) => match v.pointer(pointer) {
            Some(x) => x.is_object(),
            None => false,
        },
        Err(_) => false,
    }
}


/// A debuggable target as the endpoint lists it.
pub struct TargetInfo {
    pub target_id: Option<String>,
    pub target_type: Option<String>,
    pub title: Option<String>,
    pub url: Option<String>,
    pub pid: Option<u32>,
}

/// A page, worker or frame of a browser instance, with the process that runs it.
pub struct CdpPageInfo {
    pub process_id: Option<u32>,
    pub url: String,
    pub target_type: Option<String>,
}

/// What one received message says to the attach session.
pub struct SessionEvent {
    /// The id of the request this message answers.
    pub id: Option<u64>,
    /// Set when the message announces an attached target.
    pub attached: Option<AttachedTarget>,
}

/// The content of an attached-target announcement.
pub struct AttachedTarget {
    pub pid: Option<u32>,
    pub target_id: Option<String>,
    pub session_id: Option<String>,
}


pub struct AttachedView {
    pub pid: Option<u32>,
    pub target_id: Option<Seq<char>>,
    pub session_id: Option<Seq<char>>,
}

pub struct SessionEventView {
    pub id: Option<u64>,
    pub attached: Option<AttachedView>,
}

impl View for AttachedTarget {
    type V = AttachedView;

    open spec fn view(&self) -> AttachedView {
        AttachedView {
            pid: self.pid,
            target_id: opt_text(self.target_id),
            session_id: opt_text(self.session_id),
        }
    }
}

impl View for SessionEvent {
    type V = SessionEventView;

    open spec fn view(&self) -> SessionEventView {
        SessionEventView {
            id: self.id,
            attached: match self.attached {
                Some(a) => Some(a@),
                None => None,
            },
        }
    }
}

/// An optional string field: absent or null gives `Some(None)`, a string
/// `Some(Some(text))`, any other value `None`.
pub open spec fn text_field(doc: Seq<u8>, pointer: Seq<char>) -> Option<Option<Seq<char>>> {
    if !json_present_at(doc, pointer) || json_null_at(doc, pointer) {
        Some(None)
    } else {
        match json_text_at(doc, pointer) {
            Some(t) => Some(Some(t)),
            None => None,
        }
    }
}

/// An optional 32-bit unsigned field: absent or null gives `Some(None)`, a
/// number that fits `Some(Some(n))`, any other value `None`.
pub open spec fn u32_field(doc: Seq<u8>, pointer: Seq<char>) -> Option<Option<u32>> {
    if !json_present_at(doc, pointer) || json_null_at(doc, pointer) {
        Some(None)
    } else {
        match json_u64_at(doc, pointer) {
            Some(n) => if n <= 0xffff_ffff {
                Some(Some(n as u32))
            } else {
                None
            },
            None => None,
        }
    }
}

/// The pointer to the `i`-th listed target.
pub open spec fn target_pointer(i: nat) -> Seq<char> {
    "/result/targetInfos/"@ + decimal_of(i)
}

/// The `i`-th listed target; none when it is not an object or one of its
/// fields has the wrong kind.
pub open spec fn listed_target(doc: Seq<u8>, i: nat) -> Option<TargetInfoView> {
    let base = target_pointer(i);
    if !json_object_at(doc, base) {
        None
    } else {
        match (
            text_field(doc, base + "/targetId"@),
            text_field(doc, base + "/type"@),
            text_field(doc, base + "/title"@),
            text_field(doc, base + "/url"@),
            u32_field(doc, base + "/pid"@),
        ) {
            (Some(a), Some(b), Some(c), Some(d), Some(e)) => Some(
                TargetInfoView { target_id: a, target_type: b, title: c, url: d, pid: e },
            ),
            _ => None,
        }
    }
}

/// The first `n` listed targets; none when one of them is malformed.
pub open spec fn listed_targets(doc: Seq<u8>, n: nat) -> Option<Seq<TargetInfoView>>
    decreases n,
{
    if n == 0 {
        Some(Seq::empty())
    } else {
        match (listed_targets(doc, (n - 1) as nat), listed_target(doc, (n - 1) as nat)) {
            (Some(ts), Some(t)) => Some(ts.push(t)),
            _ => None,
        }
    }
}

/// What a message says as an answer to the target listing: nothing when it
/// answers something else; else the listed targets, or none at all when the
/// list is missing, not an array, or has a malformed entry.
pub open spec fn listing_of(doc: Seq<u8>) -> Option<Seq<TargetInfoView>> {
    if json_u64_at(doc, "/id"@) != Some(LISTING_REQUEST_ID) {
        None
    } else {
        match json_array_len_at(doc, "/result/targetInfos"@) {
            Some(n) => match listed_targets(doc, n) {
                Some(ts) => Some(ts),
                None => Some(Seq::empty()),
            },
            None => Some(Seq::empty()),
        }
    }
}

/// What a message says to the attach session: the request it answers, and,
/// for an announcement of an attached target that has parameters, the
/// target's process (taken modulo 2^32), its id and the session opened.
pub open spec fn event_of(doc: Seq<u8>) -> SessionEventView {
    SessionEventView {
        id: json_u64_at(doc, "/id"@),
        attached: if json_text_at(doc, "/method"@) == Some("Target.attachedToTarget"@)
            && json_present_at(doc, "/params"@) {
            Some(
                AttachedView {
                    pid: match json_u64_at(doc, "/params/targetInfo/pid"@) {
                        Some(n) => Some((n % 0x1_0000_0000) as u32),
                        None => None,
                    },
                    target_id: json_text_at(doc, "/params/targetInfo/targetId"@),
                    session_id: json_text_at(doc, "/params/sessionId"@),
                },
            )
        } else {
            None
        },
    }
}

/// The views of a list of targets.
pub open spec fn target_views(v: Seq<TargetInfo>) -> Seq<TargetInfoView> {
    v.map_values(|t: TargetInfo| t@)
}

/// A string field; see `text_field`.
fn optional_text(doc: &[u8], pointer: &str) -> (r: Result<Option<String>, ()>)
    ensures
        r matches Ok(o) ==> text_field(doc@, pointer@) == Some(opt_text(o)),
        r is Err ==> text_field(doc@, pointer@) is None,
{
    if !present_at(doc, pointer) || null_at(doc, pointer) {
        return Ok(None);
    }
    match text_at(doc, pointer) {
        Some(t) => Ok(Some(t)),
        None => Err(()),
    }
}

/// A 32-bit unsigned field; see `u32_field`.
fn optional_u32(doc: &[u8], pointer: &str) -> (r: Result<Option<u32>, ()>)
    ensures
        r matches Ok(o) ==> u32_field(doc@, pointer@) == Some(o),
        r is Err ==> u32_field(doc@, pointer@) is None,
{
    if !present_at(doc, pointer) || null_at(doc, pointer) {
        return Ok(None);
    }
    match u64_at(doc, pointer) {
        Some(n) => if n <= 0xffff_ffff {
            Ok(Some(n as u32))
        } else {
            Err(())
        },
        None => Err(()),
    }
}

/// `base` followed by `field`.
fn joined_pointer(base: &String, field: &str) -> (r: String)
    ensures
        r@ == base@ + field@,
{
    let mut p = base.clone();
    p.append(field);
    p
}

/// The `i`-th listed target; see `listed_target`.
fn target_from_json(doc: &[u8], i: usize) -> (r: Result<TargetInfo, ()>)
    ensures
        r matches Ok(t) ==> listed_target(doc@, i as nat) == Some(t@),
        r is Err ==> listed_target(doc@, i as nat) is None,
{
    let mut base = "/result/targetInfos/".to_string();
    push_decimal(&mut base, i as u64);
    assert(base@ == target_pointer(i as nat));
    if !object_at(doc, base.as_str()) {
        return Err(());
    }
    let target_id = match optional_text(doc, joined_pointer(&base, "/targetId").as_str()) {
        Ok(x) => x,
        Err(()) => {
            return Err(());
        },
    };
    let target_type = match optional_text(doc, joined_pointer(&base, "/type").as_str()) {
        Ok(x) => x,
        Err(()) => {
            return Err(());
        },
    };
    let title = match optional_text(doc, joined_pointer(&base, "/title").as_str()) {
        Ok(x) => x,
        Err(()) => {
            return Err(());
        },
    };
    let url = match optional_text(doc, joined_pointer(&base, "/url").as_str()) {
        Ok(x) => x,
        Err(()) => {
            return Err(());
        },
    };
    let pid = match optional_u32(doc, joined_pointer(&base, "/pid").as_str()) {
        Ok(x) => x,
        Err(()) => {
            return Err(());
        },
    };
    Ok(TargetInfo { target_id, target_type, title, url, pid })
}

/// The answer to the target listing, when `text` is that answer; see `listing_of`.
pub fn listing_response(text: &str) -> (r: Option<Vec<TargetInfo>>)
    ensures
        r matches Some(v) ==> listing_of(text.spec_bytes()) == Some(target_views(v@)),
        r is None ==> listing_of(text.spec_bytes()) is None,
{
    let doc = text.as_bytes();
    if u64_at(doc, "/id") != Some(LISTING_REQUEST_ID) {
        return None;
    }
    let mut targets: Vec<TargetInfo> = Vec::new();
    let n = match array_len_at(doc, "/result/targetInfos") {
        Some(n) => n,
        None => {
            assert(target_views(targets@) =~= Seq::<TargetInfoView>::empty());
            return Some(targets);
        },
    };
    let mut i: usize = 0;
    while i < n
        invariant
            i <= n,
            doc@ == text.spec_bytes(),
            json_array_len_at(doc@, "/result/targetInfos"@) == Some(n as nat),
            json_u64_at(doc@, "/id"@) == Some(LISTING_REQUEST_ID),
            listed_targets(doc@, i as nat) == Some(target_views(targets@)),
        decreases n - i,
    {
        match target_from_json(doc, i) {
            Ok(t) => {
                let ghost prev = target_views(targets@);
                let ghost tv = t@;
                targets.push(t);
                assert(target_views(targets@) =~= prev.push(tv));
            },
            Err(()) => {
                proof {
                    assert(listed_targets(doc@, (i + 1) as nat) is None);
                    lemma_listed_targets_fail(doc@, (i + 1) as nat, n as nat);
                }
                let empty: Vec<TargetInfo> = Vec::new();
                assert(target_views(empty@) =~= Seq::<TargetInfoView>::empty());
                return Some(empty);
            },
        }
        i = i + 1;
    }
    Some(targets)
}

/// Once a prefix of the list is malformed, every longer prefix is.
proof fn lemma_listed_targets_fail(doc: Seq<u8>, m: nat, n: nat)
    requires
        m <= n,
        listed_targets(doc, m) is None,
    ensures
        listed_targets(doc, n) is None,
    decreases n - m,
{
    if m < n {
        lemma_listed_targets_fail(doc, m + 1, n);
    }
}

/// What a received message says to the attach session; see `event_of`.
pub fn decode_event(text: &str) -> (r: SessionEvent)
    ensures
        r@ == event_of(text.spec_bytes()),
{
    let doc = text.as_bytes();
    let id = u64_at(doc, "/id");
    let method = text_at(doc, "/method");
    let is_attach = match &method {
        Some(m) => *m == "Target.attachedToTarget".to_string(),
        None => false,
    };
    let mut attached: Option<AttachedTarget> = None;
    if is_attach && present_at(doc, "/params") {
        let pid = match u64_at(doc, "/params/targetInfo/pid") {
            Some(n) => Some((n % 0x1_0000_0000) as u32),
            None => None,
        };
        let target_id = text_at(doc, "/params/targetInfo/targetId");
        let session_id = text_at(doc, "/params/sessionId");
        attached = Some(AttachedTarget { pid, target_id, session_id });
    }
    SessionEvent { id, attached }
}

/// The browser-level WebSocket address that a version body names: the text
/// of its `webSocketDebuggerUrl` field.
pub fn ws_url_from_version_body(body: &[u8]) -> (r: Option<String>)
    ensures
        opt_text(r) == json_text_at(body@, "/webSocketDebuggerUrl"@),
{
    text_at(body, "/webSocketDebuggerUrl")
}


/// The request id of the target listing.
pub const LISTING_REQUEST_ID: u64 = 1;

/// The first request id of the attach requests.
pub const FIRST_ATTACH_ID: u64 = 10;

pub struct TargetInfoView {
    pub target_id: Option<Seq<char>>,
    pub target_type: Option<Seq<char>>,
    pub title: Option<Seq<char>>,
    pub url: Option<Seq<char>>,
    pub pid: Option<u32>,
}

pub struct PageView {
    pub process_id: Option<u32>,
    pub url: Seq<char>,
    pub target_type: Option<Seq<char>>,
}

/// The view of an optional string.
pub open spec fn opt_text(o: Option<String>) -> Option<Seq<char>> {
    match o {
        Some(s) => Some(s@),
        None => None,
    }
}

impl View for TargetInfo {
    type V = TargetInfoView;

    open spec fn view(&self) -> TargetInfoView {
        TargetInfoView {
            target_id: opt_text(self.target_id),
            target_type: opt_text(self.target_type),
            title: opt_text(self.title),
            url: opt_text(self.url),
            pid: self.pid,
        }
    }
}

impl View for CdpPageInfo {
    type V = PageView;

    open spec fn view(&self) -> PageView {
        PageView { process_id: self.process_id, url: self.url@, target_type: opt_text(self.target_type) }
    }
}

/// The views of a list of pages.
pub open spec fn page_views(v: Seq<CdpPageInfo>) -> Seq<PageView> {
    v.map_values(|p: CdpPageInfo| p@)
}

/// What becomes of one listed target.
pub enum TargetPlan {
    /// The target is not reported.
    Skip,
    /// The target is reported with the process the listing gave.
    Known(CdpPageInfo),
    /// The target is reported once an attach names its process.
    Attach { target_id: String, page: CdpPageInfo },
}

pub enum PlanView {
    Skip,
    Known(PageView),
    Attach(Seq<char>, PageView),
}

impl View for TargetPlan {
    type V = PlanView;

    open spec fn view(&self) -> PlanView {
        match self {
            TargetPlan::Skip => PlanView::Skip,
            TargetPlan::Known(p) => PlanView::Known(p@),
            TargetPlan::Attach { target_id, page } => PlanView::Attach(target_id@, page@),
        }
    }
}

/// Target types that are never reported.
pub open spec fn is_uninteresting_type(t: Seq<char>) -> bool {
    t == "browser"@ || t == "webview"@ || t == "auction_worklet"@
}

/// Addresses that are reported: not empty, not the blank page, and not of an
/// internal scheme.
pub open spec fn is_reported_url(u: Seq<char>) -> bool {
    u.len() > 0 && u != "about:blank"@ && !starts_with(u, "devtools://"@) && !starts_with(
        u,
        "chrome-extension://"@,
    ) && !starts_with(u, "edge://"@)
}

/// The label shown for a target type; a plain page has none.
pub open spec fn type_label(t: Seq<char>) -> Option<Seq<char>> {
    if t == "page"@ {
        None
    } else if t == "service_worker"@ {
        Some("Service Worker"@)
    } else if t == "shared_worker"@ {
        Some("Shared Worker"@)
    } else if t == "worker"@ {
        Some("Worker"@)
    } else if t == "iframe"@ {
        Some("iframe"@)
    } else if t == "background_page"@ {
        Some("Background Page"@)
    } else {
        Some(t)
    }
}

/// The text shown for a target: its title and address, or the address alone
/// when the title is empty or repeats it.
pub open spec fn display_text(title: Seq<char>, url: Seq<char>) -> Seq<char> {
    if title.len() > 0 && title != url {
        title + " \u{2014} "@ + url
    } else {
        url
    }
}

/// What becomes of a listed target.
pub open spec fn plan_of(t: TargetInfoView) -> PlanView {
    match t.target_id {
        None => PlanView::Skip,
        Some(tid) => {
            let ttype = match t.target_type {
                Some(x) => x,
                None => "page"@,
            };
            if is_uninteresting_type(ttype) {
                PlanView::Skip
            } else {
                match t.url {
                    Some(u) => if is_reported_url(u) {
                        let title = match t.title {
                            Some(x) => x,
                            None => Seq::empty(),
                        };
                        let page = PageView {
                            process_id: None,
                            url: display_text(title, u),
                            target_type: type_label(ttype),
                        };
                        match t.pid {
                            Some(p) => if p > 0 {
                                PlanView::Known(PageView { process_id: Some(p), ..page })
                            } else {
                                PlanView::Attach(tid, page)
                            },
                            None => PlanView::Attach(tid, page),
                        }
                    } else {
                        PlanView::Skip
                    },
                    None => PlanView::Skip,
                }
            }
        },
    }
}

fn same_text(a: &String, b: &str) -> (r: bool)
    ensures
        r == (a@ == b@),
{
    *a == b.to_string()
}

fn type_label_of(t: &String) -> (r: Option<String>)
    ensures
        opt_text(r) == type_label(t@),
{
    if same_text(t, "page") {
        None
    } else if same_text(t, "service_worker") {
        Some("Service Worker".to_string())
    } else if same_text(t, "shared_worker") {
        Some("Shared Worker".to_string())
    } else if same_text(t, "worker") {
        Some("Worker".to_string())
    } else if same_text(t, "iframe") {
        Some("iframe".to_string())
    } else if same_text(t, "background_page") {
        Some("Background Page".to_string())
    } else {
        Some(t.clone())
    }
}

/// What becomes of a listed target: skipped, reported with its listed
/// process, or reported once an attach names its process.
pub fn plan_target(t: &TargetInfo) -> (r: TargetPlan)
    ensures
        r@ == plan_of(t@),
{
    let tid = match &t.target_id {
        None => {
            return TargetPlan::Skip;
        },
        Some(id) => id.clone(),
    };
    let ttype = match &t.target_type {
        Some(x) => x.clone(),
        None => "page".to_string(),
    };
    if same_text(&ttype, "browser") || same_text(&ttype, "webview") || same_text(&ttype, "auction_worklet") {
        return TargetPlan::Skip;
    }
    let url = match &t.url {
        Some(u) => u.clone(),
        None => {
            return TargetPlan::Skip;
        },
    };
    let reported = url.unicode_len() > 0 && !same_text(&url, "about:blank") && !str_starts_with(
        url.as_str(),
        "devtools://",
    ) && !str_starts_with(url.as_str(), "chrome-extension://") && !str_starts_with(
        url.as_str(),
        "edge://",
    );
    if !reported {
        return TargetPlan::Skip;
    }
    let title = match &t.title {
        Some(x) => x.clone(),
        None => String::new(),
    };
    let display = if title.unicode_len() > 0 && !(title == url) {
        let mut d = title.clone();
        d.append(" \u{2014} ");
        d.append(url.as_str());
        d
    } else {
        url.clone()
    };
    let target_type = type_label_of(&ttype);
    match t.pid {
        Some(p) => {
            if p > 0 {
                return TargetPlan::Known(CdpPageInfo { process_id: Some(p), url: display, target_type });
            }
        },
        None => {},
    }
    TargetPlan::Attach { target_id: tid, page: CdpPageInfo { process_id: None, url: display, target_type } }
}

/// The request that lists the targets.
pub open spec fn listing_request_text() -> Seq<char> {
    "{\"id\":1,\"method\":\"Target.getTargets\"}"@
}

/// The request that attaches, in flattened mode, to the target `tid`.
pub open spec fn attach_request_text(id: u64, tid: Seq<char>) -> Seq<char> {
    "{\"id\":"@ + decimal_of(id as nat) + ",\"method\":\"Target.attachToTarget\",\"params\":{\"targetId\":\""@
        + tid + "\",\"flatten\":true}}"@
}

/// The request that detaches the session `sid`.
pub open spec fn detach_request_text(id: u64, sid: Seq<char>) -> Seq<char> {
    "{\"id\":"@ + decimal_of(id as nat) + ",\"method\":\"Target.detachFromTarget\",\"params\":{\"sessionId\":\""@
        + sid + "\"}}"@
}

/// The request that lists the targets.
pub fn listing_request() -> (r: String)
    ensures
        r@ == listing_request_text(),
{
    "{\"id\":1,\"method\":\"Target.getTargets\"}".to_string()
}

/// The attach request for `target_id` under request id `id`.
pub fn attach_request(id: u64, target_id: &str) -> (r: String)
    ensures
        r@ == attach_request_text(id, target_id@),
{
    let mut s = String::new();
    s.append("{\"id\":");
    push_decimal(&mut s, id);
    s.append(",\"method\":\"Target.attachToTarget\",\"params\":{\"targetId\":\"");
    s.append(target_id);
    s.append("\",\"flatten\":true}}");
    assert(s@ =~= attach_request_text(id, target_id@));
    s
}

/// The detach request for `session_id` under request id `id`.
pub fn detach_request(id: u64, session_id: &str) -> (r: String)
    ensures
        r@ == detach_request_text(id, session_id@),
{
    let mut s = String::new();
    s.append("{\"id\":");
    push_decimal(&mut s, id);
    s.append(",\"method\":\"Target.detachFromTarget\",\"params\":{\"sessionId\":\"");
    s.append(session_id);
    s.append("\"}}");
    assert(s@ =~= detach_request_text(id, session_id@));
    s
}

/// The state of one attach session: the reported pages in listing order, the
/// target each reserved slot waits for, the attach requests sent, the
/// processes announced, the sessions opened, and how many attach answers are
/// still awaited.
pub struct AttachSession {
    pub pages: Vec<CdpPageInfo>,
    pub slot_targets: Vec<Option<String>>,
    pub requests: Vec<(u64, String)>,
    pub announced: Vec<(String, u32)>,
    pub sessions: Vec<String>,
    pub awaiting: usize,
    pub next_id: u64,
}

pub struct AttachSessionView {
    pub pages: Seq<PageView>,
    pub slot_targets: Seq<Option<Seq<char>>>,
    pub requests: Seq<(u64, Seq<char>)>,
    pub announced: Seq<(Seq<char>, u32)>,
    pub sessions: Seq<Seq<char>>,
    pub awaiting: nat,
    pub next_id: u64,
}

impl View for AttachSession {
    type V = AttachSessionView;

    open spec fn view(&self) -> AttachSessionView {
        AttachSessionView {
            pages: page_views(self.pages@),
            slot_targets: self.slot_targets@.map_values(|o: Option<String>| opt_text(o)),
            requests: self.requests@.map_values(|r: (u64, String)| (r.0, r.1@)),
            announced: self.announced@.map_values(|a: (String, u32)| (a.0@, a.1)),
            sessions: self.sessions@.map_values(|x: String| x@),
            awaiting: self.awaiting as nat,
            next_id: self.next_id,
        }
    }
}

/// The last slot that waits for the target `tid`.
pub open spec fn last_slot_of(slots: Seq<Option<Seq<char>>>, tid: Seq<char>) -> Option<int>
    decreases slots.len(),
{
    if slots.len() == 0 {
        None
    } else if slots.last() == Some(tid) {
        Some(slots.len() - 1)
    } else {
        last_slot_of(slots.drop_last(), tid)
    }
}

/// The process last announced for the target `tid`.
pub open spec fn last_pid_for(announced: Seq<(Seq<char>, u32)>, tid: Seq<char>) -> Option<u32>
    decreases announced.len(),
{
    if announced.len() == 0 {
        None
    } else if announced.last().0 == tid {
        Some(announced.last().1)
    } else {
        last_pid_for(announced.drop_last(), tid)
    }
}

/// The process of the page in slot `i`: the listed one, or the one announced
/// for the target the slot waits for, when it is that target's last slot.
pub open spec fn resolved_pid(s: AttachSessionView, i: int) -> Option<u32> {
    match s.pages[i].process_id {
        Some(p) => Some(p),
        None => match s.slot_targets[i] {
            Some(tid) => if last_slot_of(s.slot_targets, tid) == Some(i) {
                last_pid_for(s.announced, tid)
            } else {
                None
            },
            None => None,
        },
    }
}

/// The pages of the first `n` slots whose process is known, with that process.
pub open spec fn reported_pages(s: AttachSessionView, n: int) -> Seq<PageView>
    decreases n,
{
    if n <= 0 {
        Seq::empty()
    } else {
        reported_pages(s, n - 1) + match resolved_pid(s, n - 1) {
            Some(p) => seq![PageView { process_id: Some(p), ..s.pages[n - 1] }],
            None => Seq::empty(),
        }
    }
}

/// Some attach request was sent under `id`.
pub open spec fn is_request_id(requests: Seq<(u64, Seq<char>)>, id: u64) -> bool {
    exists|j: int| 0 <= j < requests.len() && requests[j].0 == id
}

/// The session after taking in a received message: an announced target
/// records its process (when it has a non-zero one and names the target) and
/// its session; an answer to one of the attach requests lowers the count of
/// awaited answers; nothing else changes.
pub open spec fn applied(s: AttachSessionView, ev: SessionEventView) -> AttachSessionView {
    AttachSessionView {
        announced: match ev.attached {
            Some(a) => match (a.pid, a.target_id) {
                (Some(p), Some(t)) => if p > 0 {
                    s.announced.push((t, p))
                } else {
                    s.announced
                },
                _ => s.announced,
            },
            None => s.announced,
        },
        sessions: match ev.attached {
            Some(a) => match a.session_id {
                Some(sid) => s.sessions.push(sid),
                None => s.sessions,
            },
            None => s.sessions,
        },
        awaiting: match ev.id {
            Some(id) => if is_request_id(s.requests, id) && s.awaiting > 0 {
                (s.awaiting - 1) as nat
            } else {
                s.awaiting
            },
            None => s.awaiting,
        },
        ..s
    }
}

impl AttachSession {
    pub open spec fn wf(&self) -> bool {
        &&& self.pages@.len() == self.slot_targets@.len()
        &&& self.awaiting <= self.requests@.len()
    }

    /// A session with nothing reported or sent yet.
    pub fn new() -> (r: AttachSession)
        ensures
            r.wf(),
            r@.pages.len() == 0,
            r@.requests.len() == 0,
            r@.announced.len() == 0,
            r@.sessions.len() == 0,
            r@.awaiting == 0,
            r@.next_id == FIRST_ATTACH_ID,
    {
        AttachSession {
            pages: Vec::new(),
            slot_targets: Vec::new(),
            requests: Vec::new(),
            announced: Vec::new(),
            sessions: Vec::new(),
            awaiting: 0,
            next_id: FIRST_ATTACH_ID,
        }
    }

    /// The attach request to send for `target_id` next.
    pub fn next_attach_request(&self, target_id: &str) -> (r: String)
        ensures
            r@ == attach_request_text(self.next_id, target_id@),
    {
        attach_request(self.next_id, target_id)
    }

    /// Reports a page whose process the listing gave.
    pub fn record_known(&mut self, page: CdpPageInfo)
        requires
            old(self).wf(),
        ensures
            final(self).wf(),
            final(self)@ == (AttachSessionView {
                pages: old(self)@.pages.push(page@),
                slot_targets: old(self)@.slot_targets.push(None),
                ..old(self)@
            }),
    {
        let ghost s0 = self@;
        self.pages.push(page);
        self.slot_targets.push(None);
        assert(self@.pages =~= s0.pages.push(page@));
        assert(self@.slot_targets =~= s0.slot_targets.push(None));
        assert(self@.requests =~= s0.requests);
        assert(self@.announced =~= s0.announced);
        assert(self@.sessions =~= s0.sessions);
    }

    /// Records that the attach request for `target_id` went out under the
    /// current request id, and reserves a slot for its page.
    pub fn record_attach(&mut self, target_id: String, page: CdpPageInfo)
        requires
            old(self).wf(),
            old(self).next_id < u64::MAX,
        ensures
            final(self).wf(),
            final(self)@ == (AttachSessionView {
                pages: old(self)@.pages.push(page@),
                slot_targets: old(self)@.slot_targets.push(Some(target_id@)),
                requests: old(self)@.requests.push((old(self).next_id, target_id@)),
                awaiting: old(self)@.awaiting + 1,
                next_id: (old(self).next_id + 1) as u64,
                ..old(self)@
            }),
    {
        let ghost s0 = self@;
        self.requests.push((self.next_id, target_id.clone()));
        self.slot_targets.push(Some(target_id));
        self.pages.push(page);
        let sent = self.requests.len();
        assert(self.awaiting < sent);
        self.awaiting = self.awaiting + 1;
        self.next_id = self.next_id + 1;
        assert(self@.pages =~= s0.pages.push(page@));
        assert(self@.slot_targets =~= s0.slot_targets.push(Some(target_id@)));
        assert(self@.requests =~= s0.requests.push((s0.next_id, target_id@)));
        assert(self@.announced =~= s0.announced);
        assert(self@.sessions =~= s0.sessions);
    }

    /// Takes in one received message: an announced target records its process
    /// (when it has a non-zero one and names the target) and its session; an
    /// answer to one of the attach requests lowers the count of awaited answers.
    pub fn apply_event(&mut self, ev: &SessionEvent)
        requires
            old(self).wf(),
        ensures
            final(self).wf(),
            final(self)@ == applied(old(self)@, ev@),
    {
        let ghost s0 = self@;
        match &ev.attached {
            Some(a) => {
                match (&a.pid, &a.target_id) {
                    (Some(p), Some(t)) => {
                        if *p > 0 {
                            self.announced.push((t.clone(), *p));
                            assert(self@.announced =~= s0.announced.push((t@, *p)));
                        }
                    },
                    _ => {},
                }
                match &a.session_id {
                    Some(sid) => {
                        self.sessions.push(sid.clone());
                        assert(self@.sessions =~= s0.sessions.push(sid@));
                    },
                    None => {},
                }
            },
            None => {},
        }
        match ev.id {
            Some(id) => {
                let mut j: usize = 0;
                let mut found = false;
                while j < self.requests.len()
                    invariant
                        j <= self.requests@.len(),
                        self.requests@ == old(self).requests@,
                        found == exists|k: int| 0 <= k < j && self.requests@[k].0 == id,
                    decreases self.requests.len() - j,
                {
                    if self.requests[j].0 == id {
                        found = true;
                    }
                    j = j + 1;
                }
                assert(found == is_request_id(s0.requests, id)) by {
                    if found {
                        let k = choose|k: int| 0 <= k < j && self.requests@[k].0 == id;
                        assert(s0.requests[k].0 == id);
                    }
                    if is_request_id(s0.requests, id) {
                        let k = choose|k: int| 0 <= k < s0.requests.len() && s0.requests[k].0 == id;
                        assert(self.requests@[k].0 == id);
                    }
                }
                if found && self.awaiting > 0 {
                    self.awaiting = self.awaiting - 1;
                }
            },
            None => {},
        }
        assert(self@.pages =~= s0.pages);
        assert(self@.slot_targets =~= s0.slot_targets);
        assert(self@.requests =~= s0.requests);
        assert(self@.announced =~= applied(s0, ev@).announced);
        assert(self@.sessions =~= applied(s0, ev@).sessions);
    }

    /// Takes in one received message as text; see `apply_event`.
    pub fn on_message(&mut self, text: &str)
        requires
            old(self).wf(),
        ensures
            final(self).wf(),
            final(self)@ == applied(old(self)@, event_of(text.spec_bytes())),
    {
        let ev = decode_event(text);
        self.apply_event(&ev);
    }

    /// Every attach request has been answered.
    pub fn is_settled(&self) -> (r: bool)
        ensures
            r == (self@.awaiting == 0),
    {
        self.awaiting == 0
    }

    /// The detach requests for every session opened, under request ids that
    /// continue after the attach requests.
    pub fn detach_requests(&self) -> (r: Vec<String>)
        requires
            self.next_id + self@.sessions.len() <= u64::MAX,
        ensures
            r@.len() == self@.sessions.len(),
            forall|i: int|
                0 <= i < r@.len() ==> #[trigger] r@[i]@ == detach_request_text(
                    (self.next_id + i) as u64,
                    self@.sessions[i],
                ),
    {
        let mut out: Vec<String> = Vec::new();
        let mut i: usize = 0;
        while i < self.sessions.len()
            invariant
                i <= self.sessions@.len(),
                self.next_id + self@.sessions.len() <= u64::MAX,
                out@.len() == i,
                forall|k: int|
                    0 <= k < i ==> #[trigger] out@[k]@ == detach_request_text(
                        (self.next_id + k) as u64,
                        self@.sessions[k],
                    ),
            decreases self.sessions.len() - i,
        {
            let id = self.next_id + i as u64;
            out.push(detach_request(id, self.sessions[i].as_str()));
            i = i + 1;
        }
        out
    }

    /// The pages whose process is known, in listing order, each with its process.
    pub fn into_pages(&self) -> (r: Vec<CdpPageInfo>)
        requires
            self.wf(),
        ensures
            page_views(r@) == reported_pages(self@, self@.pages.len() as int),
    {
        let ghost s = self@;
        let mut out: Vec<CdpPageInfo> = Vec::new();
        let mut i: usize = 0;
        while i < self.pages.len()
            invariant
                i <= self.pages@.len(),
                self.wf(),
                s == self@,
                page_views(out@) == reported_pages(s, i as int),
            decreases self.pages.len() - i,
        {
            let pid = self.resolve(i);
            let ghost prev = page_views(out@);
            match pid {
                Some(p) => {
                    let page = CdpPageInfo {
                        process_id: Some(p),
                        url: self.pages[i].url.clone(),
                        target_type: match &self.pages[i].target_type {
                            Some(t) => Some(t.clone()),
                            None => None,
                        },
                    };
                    out.push(page);
                    assert(page_views(out@) =~= prev.push(page@));
                    assert(page@ == PageView { process_id: Some(p), ..s.pages[i as int] });
                    assert(reported_pages(s, i + 1) =~= prev + seq![page@]);
                },
                None => {
                    assert(reported_pages(s, i + 1) =~= prev);
                },
            }
            i = i + 1;
        }
        out
    }

    /// The process of the page in slot `i`; see `resolved_pid`.
    fn resolve(&self, i: usize) -> (r: Option<u32>)
        requires
            self.wf(),
            i < self@.pages.len(),
        ensures
            r == resolved_pid(self@, i as int),
    {
        let ghost s = self@;
        match self.pages[i].process_id {
            Some(p) => Some(p),
            None => {
                assert(s.pages[i as int].process_id is None);
                match &self.slot_targets[i] {
                    None => None,
                    Some(tid) => {
                        assert(s.slot_targets[i as int] == Some(tid@));
                        let mut j: usize = self.slot_targets.len();
                        assert(s.slot_targets.subrange(0, j as int) =~= s.slot_targets);
                        while j > i + 1
                            invariant
                                i + 1 <= j <= self.slot_targets@.len(),
                                s == self@,
                                self.wf(),
                                s.slot_targets[i as int] == Some(tid@),
                                i < s.pages.len(),
                                s.pages[i as int].process_id is None,
                                last_slot_of(s.slot_targets, tid@) == last_slot_of(
                                    s.slot_targets.subrange(0, j as int),
                                    tid@,
                                ),
                            decreases j,
                        {
                            let ghost sub = s.slot_targets.subrange(0, j as int);
                            assert(sub.drop_last() =~= s.slot_targets.subrange(0, j - 1));
                            let later = match &self.slot_targets[j - 1] {
                                Some(t) => *t == *tid,
                                None => false,
                            };
                            assert(later == (sub.last() == Some(tid@)));
                            if later {
                                assert(last_slot_of(s.slot_targets, tid@) == Some(j - 1));
                                assert(resolved_pid(s, i as int) is None);
                                return None;
                            }
                            j = j - 1;
                        }
                        let ghost sub = s.slot_targets.subrange(0, j as int);
                        assert(sub.last() == Some(tid@));
                        assert(last_slot_of(s.slot_targets, tid@) == Some(i as int));
                        let mut k: usize = self.announced.len();
                        assert(s.announced.subrange(0, k as int) =~= s.announced);
                        while k > 0
                            invariant
                                k <= self.announced@.len(),
                                s == self@,
                                i < s.pages.len(),
                                s.pages[i as int].process_id is None,
                                s.slot_targets[i as int] == Some(tid@),
                                last_slot_of(s.slot_targets, tid@) == Some(i as int),
                                last_pid_for(s.announced, tid@) == last_pid_for(
                                    s.announced.subrange(0, k as int),
                                    tid@,
                                ),
                            decreases k,
                        {
                            let ghost sub = s.announced.subrange(0, k as int);
                            assert(sub.drop_last() =~= s.announced.subrange(0, k - 1));
                            assert(sub.last() == (self.announced@[k - 1].0@, self.announced@[k - 1].1));
                            if self.announced[k - 1].0 == *tid {
                                assert(last_pid_for(sub, tid@) == Some(self.announced@[k - 1].1));
                                assert(resolved_pid(s, i as int) == Some(self.announced@[k - 1].1));
                                return Some(self.announced[k - 1].1);
                            }
                            k = k - 1;
                        }
                        None
                    },
                }
            },
        }
    }
}

} // verus!
