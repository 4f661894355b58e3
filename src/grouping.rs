//! Reconstruction of browser instances from a snapshot of the host's processes:
//! which processes belong to the browser family, which of them own the others,
//! and the grouped, ordered listing built from that.
use vstd::prelude::*;
use vstd::multiset::Multiset;
use crate::classify::{
    arg_views, channel_label, detect_channel, detect_instance_type, detect_process_type,
    extract_url, instance_label, join_args, role_label, url_of,
};
use crate::text::{contains, lower_of, starts_with, str_contains, strip_prefix, to_lower};

verus! {

broadcast use vstd::seq_lib::group_seq_properties, vstd::multiset::group_multiset_axioms;

/// How many parent links a walk toward the owning process follows at most.
pub const MAX_ANCESTOR_HOPS: usize = 20;

/// One process of the host as the snapshot provider reports it.
pub struct HostProcess {
    pub pid: u32,
    pub parent_pid: Option<u32>,
    pub name: String,
    pub exe_path: String,
    pub cmd_args: Vec<String>,
    pub memory_bytes: u64,
    /// CPU usage in hundredths of a percent.
    pub cpu_centipercent: u32,
}

/// A process of the browser family, with its classification.
pub struct ProcessInfo {
    pub pid: u32,
    pub parent_pid: Option<u32>,
    pub name: String,
    pub exe_path: String,
    pub cmd_args: Vec<String>,
    pub process_type: String,
    pub memory_bytes: u64,
    /// CPU usage in hundredths of a percent.
    pub cpu_centipercent: u32,
    pub url: String,
    pub instance_type: String,
}

/// One logical browser instance: the owning process and every family process under it.
pub struct ProcessGroup {
    pub browser_pid: u32,
    pub browser_exe: String,
    pub channel: String,
    pub instance_type: String,
    pub host_app: String,
    pub processes: Vec<ProcessInfo>,
}

pub struct HostProcessView {
    pub pid: u32,
    pub parent_pid: Option<u32>,
    pub name: Seq<char>,
    pub exe_path: Seq<char>,
    pub cmd_args: Seq<Seq<char>>,
    pub memory_bytes: u64,
    pub cpu_centipercent: u32,
}

pub struct ProcessInfoView {
    pub pid: u32,
    pub parent_pid: Option<u32>,
    pub name: Seq<char>,
    pub exe_path: Seq<char>,
    pub cmd_args: Seq<Seq<char>>,
    pub process_type: Seq<char>,
    pub memory_bytes: u64,
    pub cpu_centipercent: u32,
    pub url: Seq<char>,
    pub instance_type: Seq<char>,
}

pub struct ProcessGroupView {
    pub browser_pid: u32,
    pub browser_exe: Seq<char>,
    pub channel: Seq<char>,
    pub instance_type: Seq<char>,
    pub host_app: Seq<char>,
    pub processes: Seq<ProcessInfoView>,
}

impl View for HostProcess {
    type V = HostProcessView;

    open spec fn view(&self) -> HostProcessView {
        HostProcessView {
            pid: self.pid,
            parent_pid: self.parent_pid,
            name: self.name@,
            exe_path: self.exe_path@,
            cmd_args: arg_views(self.cmd_args@),
            memory_bytes: self.memory_bytes,
            cpu_centipercent: self.cpu_centipercent,
        }
    }
}

impl View for ProcessInfo {
    type V = ProcessInfoView;

    open spec fn view(&self) -> ProcessInfoView {
        ProcessInfoView {
            pid: self.pid,
            parent_pid: self.parent_pid,
            name: self.name@,
            exe_path: self.exe_path@,
            cmd_args: arg_views(self.cmd_args@),
            process_type: self.process_type@,
            memory_bytes: self.memory_bytes,
            cpu_centipercent: self.cpu_centipercent,
            url: self.url@,
            instance_type: self.instance_type@,
        }
    }
}

/// The views of a list of family processes.
pub open spec fn info_views(v: Seq<ProcessInfo>) -> Seq<ProcessInfoView> {
    v.map_values(|p: ProcessInfo| p@)
}

/// The views of a list of host processes.
pub open spec fn host_views(v: Seq<HostProcess>) -> Seq<HostProcessView> {
    v.map_values(|p: HostProcess| p@)
}

impl View for ProcessGroup {
    type V = ProcessGroupView;

    open spec fn view(&self) -> ProcessGroupView {
        ProcessGroupView {
            browser_pid: self.browser_pid,
            browser_exe: self.browser_exe@,
            channel: self.channel@,
            instance_type: self.instance_type@,
            host_app: self.host_app@,
            processes: info_views(self.processes@),
        }
    }
}

/// A host process belongs to the browser family when its name or executable
/// path mentions the browser's executable, in any case.
pub open spec fn is_family(h: HostProcessView) -> bool {
    contains(lower_of(h.name), "msedge"@) || contains(lower_of(h.exe_path), "msedge"@)
}

/// The classified record of a family process.
pub open spec fn classified(h: HostProcessView) -> ProcessInfoView {
    ProcessInfoView {
        pid: h.pid,
        parent_pid: h.parent_pid,
        name: h.name,
        exe_path: h.exe_path,
        cmd_args: h.cmd_args,
        process_type: role_label(join_args(h.cmd_args)),
        memory_bytes: h.memory_bytes,
        cpu_centipercent: h.cpu_centipercent,
        url: url_of(h.cmd_args),
        instance_type: instance_label(lower_of(join_args(h.cmd_args)), lower_of(h.exe_path)),
    }
}

/// The family processes of a snapshot, classified, in snapshot order.
pub open spec fn family_of(hosts: Seq<HostProcessView>) -> Seq<ProcessInfoView> {
    hosts.filter(|h: HostProcessView| is_family(h)).map_values(|h: HostProcessView| classified(h))
}

/// Some family process has this pid.
pub open spec fn in_family(f: Seq<ProcessInfoView>, pid: u32) -> bool {
    exists|i: int| 0 <= i < f.len() && f[i].pid == pid
}

/// The process has a parent, and that parent is a family process.
pub open spec fn parent_in_family(f: Seq<ProcessInfoView>, p: ProcessInfoView) -> bool {
    p.parent_pid matches Some(pp) && in_family(f, pp)
}

/// Some family process with this pid has no parent inside the family.
pub open spec fn is_root(f: Seq<ProcessInfoView>, pid: u32) -> bool {
    exists|i: int| 0 <= i < f.len() && f[i].pid == pid && !parent_in_family(f, f[i])
}

/// The first position at or after `from` of a record with this pid.
pub open spec fn pid_index_from(f: Seq<ProcessInfoView>, pid: u32, from: int) -> Option<int>
    decreases f.len() - from,
{
    if from < 0 || from >= f.len() {
        None
    } else if f[from].pid == pid {
        Some(from)
    } else {
        pid_index_from(f, pid, from + 1)
    }
}

/// The first position of a record with this pid.
pub open spec fn pid_index(f: Seq<ProcessInfoView>, pid: u32) -> Option<int> {
    pid_index_from(f, pid, 0)
}

/// The walk from `pid` toward its owner, following at most `hops` parent links:
/// it stops at a root, at a process whose parent lies outside the family, or
/// when the links are used up.
pub open spec fn walk(f: Seq<ProcessInfoView>, pid: u32, hops: nat) -> u32
    decreases hops,
{
    if hops == 0 || is_root(f, pid) {
        pid
    } else {
        match pid_index(f, pid) {
            Some(i) => match f[i].parent_pid {
                Some(pp) => if in_family(f, pp) {
                    walk(f, pp, (hops - 1) as nat)
                } else {
                    pid
                },
                None => pid,
            },
            None => pid,
        }
    }
}

/// The pid of the group that the process with this pid belongs to.
pub open spec fn group_key(f: Seq<ProcessInfoView>, pid: u32) -> u32 {
    walk(f, pid, MAX_ANCESTOR_HOPS as nat)
}

pub proof fn lemma_pid_index_from(f: Seq<ProcessInfoView>, pid: u32, from: int)
    requires
        0 <= from,
    ensures
        pid_index_from(f, pid, from) matches Some(i) ==> from <= i < f.len() && f[i].pid == pid && (
        forall|j: int| from <= j < i ==> f[j].pid != pid),
        pid_index_from(f, pid, from) is None ==> forall|j: int| from <= j < f.len() ==> f[j].pid
            != pid,
    decreases f.len() - from,
{
    if from < f.len() && f[from].pid != pid {
        lemma_pid_index_from(f, pid, from + 1);
    }
}

/// Whether `v` holds `x`.
fn holds_pid(v: &[u32], x: u32) -> (r: bool)
    ensures
        r == v@.contains(x),
{
    let mut i: usize = 0;
    while i < v.len()
        invariant
            i <= v.len(),
            forall|j: int| 0 <= j < i ==> v@[j] != x,
        decreases v.len() - i,
    {
        if v[i] == x {
            return true;
        }
        i = i + 1;
    }
    false
}

/// The first position of a record with this pid.
fn position_of_pid(processes: &[ProcessInfo], pid: u32) -> (r: Option<usize>)
    ensures
        r matches Some(i) ==> i < processes.len() && processes@[i as int].pid == pid && pid_index(
            info_views(processes@),
            pid,
        ) == Some(i as int),
        r is None ==> pid_index(info_views(processes@), pid) is None,
{
    let ghost f = info_views(processes@);
    let mut i: usize = 0;
    while i < processes.len()
        invariant
            i <= processes.len(),
            f == info_views(processes@),
            pid_index_from(f, pid, 0) == pid_index_from(f, pid, i as int),
        decreases processes.len() - i,
    {
        if processes[i].pid == pid {
            return Some(i);
        }
        i = i + 1;
    }
    None
}

/// A pid that some family process is grouped under.
pub open spec fn is_group_key(f: Seq<ProcessInfoView>, k: u32) -> bool {
    exists|i: int| 0 <= i < f.len() && group_key(f, f[i].pid) == k
}

/// The test that a family process is grouped under `k`.
pub open spec fn in_group(f: Seq<ProcessInfoView>, k: u32) -> spec_fn(ProcessInfoView) -> bool {
    |p: ProcessInfoView| group_key(f, p.pid) == k
}

/// The family processes grouped under `k`, in snapshot order.
pub open spec fn members(f: Seq<ProcessInfoView>, k: u32) -> Seq<ProcessInfoView> {
    f.filter(in_group(f, k))
}

/// Some process grouped under `k` has instance type `t`.
pub open spec fn has_member_typed(f: Seq<ProcessInfoView>, k: u32, t: Seq<char>) -> bool {
    exists|i: int| 0 <= i < f.len() && group_key(f, f[i].pid) == k && f[i].instance_type == t
}

/// The instance type of the group under `k`: the assistant wins over a plain
/// webview, which wins over an ordinary browser.
pub open spec fn group_type(f: Seq<ProcessInfoView>, k: u32) -> Seq<char> {
    if has_member_typed(f, k, "Copilot"@) {
        "Copilot"@
    } else if has_member_typed(f, k, "WebView2"@) {
        "WebView2"@
    } else {
        "Browser"@
    }
}

/// Where groups of an instance type stand in the listing.
pub open spec fn type_rank(t: Seq<char>) -> int {
    if t == "Browser"@ {
        0
    } else if t == "WebView2"@ {
        1
    } else if t == "Copilot"@ {
        2
    } else {
        3
    }
}

/// The executable of the owning process, when it is a member of its own group.
pub open spec fn root_exe(f: Seq<ProcessInfoView>, k: u32) -> Seq<char> {
    match pid_index(f, k) {
        Some(i) => if group_key(f, k) == k {
            f[i].exe_path
        } else {
            Seq::empty()
        },
        None => Seq::empty(),
    }
}

/// The value of the first `--webview-exe-name=` argument.
pub open spec fn webview_host_arg(args: Seq<Seq<char>>) -> Option<Seq<char>>
    decreases args.len(),
{
    if args.len() == 0 {
        None
    } else if starts_with(args[0], "--webview-exe-name="@) {
        Some(args[0].subrange("--webview-exe-name="@.len() as int, args[0].len() as int))
    } else {
        webview_host_arg(args.drop_first())
    }
}

/// The first position at or after `from` of a host process with this pid.
pub open spec fn host_index_from(hosts: Seq<HostProcessView>, pid: u32, from: int) -> Option<int>
    decreases hosts.len() - from,
{
    if from < 0 || from >= hosts.len() {
        None
    } else if hosts[from].pid == pid {
        Some(from)
    } else {
        host_index_from(hosts, pid, from + 1)
    }
}

/// The application hosting the instance under `k`: the name given on the
/// owner's command line, else the name of the owner's parent process unless
/// that parent is itself part of the browser family.
pub open spec fn host_app_label(
    f: Seq<ProcessInfoView>,
    hosts: Seq<HostProcessView>,
    k: u32,
) -> Seq<char> {
    match pid_index(f, k) {
        None => Seq::empty(),
        Some(i) => match webview_host_arg(f[i].cmd_args) {
            Some(n) => n,
            None => match f[i].parent_pid {
                Some(pp) => match host_index_from(hosts, pp, 0) {
                    Some(h) => if contains(lower_of(hosts[h].name), "msedge"@) {
                        Seq::empty()
                    } else {
                        hosts[h].name
                    },
                    None => Seq::empty(),
                },
                None => Seq::empty(),
            },
        },
    }
}

/// An instance type whose groups report a hosting application.
pub open spec fn is_hosted(t: Seq<char>) -> bool {
    t == "WebView2"@ || t == "Copilot"@
}

pub open spec fn sorted_by_pid(s: Seq<ProcessInfoView>) -> bool {
    forall|a: int, b: int| 0 <= a < b < s.len() ==> s[a].pid <= s[b].pid
}

/// `g` is the group under its `browser_pid`, as built from the family `f`.
pub open spec fn is_group_of(
    f: Seq<ProcessInfoView>,
    hosts: Seq<HostProcessView>,
    g: ProcessGroupView,
) -> bool {
    let k = g.browser_pid;
    &&& is_group_key(f, k)
    &&& g.processes.to_multiset() == members(f, k).to_multiset()
    &&& sorted_by_pid(g.processes)
    &&& g.instance_type == group_type(f, k)
    &&& g.browser_exe == root_exe(f, k)
    &&& g.channel == channel_label(lower_of(g.browser_exe))
    &&& g.host_app == if is_hosted(g.instance_type) {
        host_app_label(f, hosts, k)
    } else {
        Seq::<char>::empty()
    }
}

/// Some group of the listing is owned by `k`.
pub open spec fn lists_owner(gs: Seq<ProcessGroupView>, k: u32) -> bool {
    exists|g: int| 0 <= g < gs.len() && gs[g].browser_pid == k
}

/// The views of a listing of groups.
pub open spec fn group_views(gs: Seq<ProcessGroup>) -> Seq<ProcessGroupView> {
    gs.map_values(|g: ProcessGroup| g@)
}

/// `a` is listed before `b`: by instance type, then by owner pid.
pub open spec fn listed_before(a: ProcessGroupView, b: ProcessGroupView) -> bool {
    type_rank(a.instance_type) < type_rank(b.instance_type) || (type_rank(a.instance_type)
        == type_rank(b.instance_type) && a.browser_pid < b.browser_pid)
}

fn clone_strings(v: &Vec<String>) -> (r: Vec<String>)
    ensures
        r@ == v@,
{
    let mut out: Vec<String> = Vec::new();
    let mut i: usize = 0;
    while i < v.len()
        invariant
            i <= v.len(),
            out@ == v@.subrange(0, i as int),
        decreases v.len() - i,
    {
        out.push(v[i].clone());
        assert(out@ =~= v@.subrange(0, i + 1));
        i = i + 1;
    }
    assert(v@.subrange(0, v.len() as int) =~= v@);
    out
}

impl ProcessInfo {
    /// A copy of this record.
    pub fn duplicate(&self) -> (r: ProcessInfo)
        ensures
            r@ == self@,
    {
        let cmd_args = clone_strings(&self.cmd_args);
        ProcessInfo {
            pid: self.pid,
            parent_pid: self.parent_pid,
            name: self.name.clone(),
            exe_path: self.exe_path.clone(),
            cmd_args,
            process_type: self.process_type.clone(),
            memory_bytes: self.memory_bytes,
            cpu_centipercent: self.cpu_centipercent,
            url: self.url.clone(),
            instance_type: self.instance_type.clone(),
        }
    }
}

/// The classified records of the family processes of a snapshot, in snapshot order.
pub fn family_processes(hosts: &Vec<HostProcess>) -> (r: Vec<ProcessInfo>)
    ensures
        info_views(r@) == family_of(host_views(hosts@)),
{
    let ghost hv = host_views(hosts@);
    let ghost pred = |h: HostProcessView| is_family(h);
    let ghost cls = |h: HostProcessView| classified(h);
    let mut out: Vec<ProcessInfo> = Vec::new();
    let mut i: usize = 0;
    while i < hosts.len()
        invariant
            i <= hosts.len(),
            hv == host_views(hosts@),
            pred == (|h: HostProcessView| is_family(h)),
            cls == (|h: HostProcessView| classified(h)),
            info_views(out@) == hv.subrange(0, i as int).filter(pred).map_values(cls),
        decreases hosts.len() - i,
    {
        let h = &hosts[i];
        assert(hv.subrange(0, i + 1) =~= hv.subrange(0, i as int).push(h@));
        proof {
            hv.subrange(0, i as int).lemma_filter_push(h@, pred);
        }
        let name_lower = to_lower(h.name.as_str());
        let exe_lower = to_lower(h.exe_path.as_str());
        if str_contains(name_lower.as_str(), "msedge") || str_contains(exe_lower.as_str(), "msedge") {
            let process_type = detect_process_type(h.cmd_args.as_slice());
            let url = extract_url(h.cmd_args.as_slice());
            let instance_type = detect_instance_type(h.cmd_args.as_slice(), h.exe_path.as_str());
            let info = ProcessInfo {
                pid: h.pid,
                parent_pid: h.parent_pid,
                name: h.name.clone(),
                exe_path: h.exe_path.clone(),
                cmd_args: clone_strings(&h.cmd_args),
                process_type,
                memory_bytes: h.memory_bytes,
                cpu_centipercent: h.cpu_centipercent,
                url,
                instance_type,
            };
            assert(info@ == classified(h@));
            let ghost prev = out@;
            out.push(info);
            assert(info_views(out@) =~= info_views(prev).push(info@));
            assert(hv.subrange(0, i as int).filter(pred).push(h@).map_values(cls) =~= hv.subrange(
                0,
                i as int,
            ).filter(pred).map_values(cls).push(cls(h@)));
        }
        i = i + 1;
    }
    assert(hv.subrange(0, hosts.len() as int) =~= hv);
    out
}

/// Whether some family process has this pid.
fn pid_in_family(procs: &[ProcessInfo], pid: u32) -> (r: bool)
    ensures
        r == in_family(info_views(procs@), pid),
{
    let ghost f = info_views(procs@);
    let mut i: usize = 0;
    while i < procs.len()
        invariant
            i <= procs.len(),
            f == info_views(procs@),
            forall|j: int| 0 <= j < i ==> f[j].pid != pid,
        decreases procs.len() - i,
    {
        if procs[i].pid == pid {
            assert(f[i as int].pid == pid);
            return true;
        }
        i = i + 1;
    }
    false
}

/// For each family process, whether its parent lies outside the family.
pub fn root_flags(procs: &[ProcessInfo]) -> (r: Vec<bool>)
    ensures
        r@.len() == procs@.len(),
        forall|j: int| 0 <= j < r@.len() ==> r@[j] == !parent_in_family(info_views(procs@), info_views(procs@)[j]),
{
    let ghost f = info_views(procs@);
    let mut flags: Vec<bool> = Vec::new();
    let mut i: usize = 0;
    while i < procs.len()
        invariant
            i <= procs.len(),
            f == info_views(procs@),
            flags@.len() == i,
            forall|j: int| 0 <= j < i ==> flags@[j] == !parent_in_family(f, f[j]),
        decreases procs.len() - i,
    {
        let flag = match procs[i].parent_pid {
            Some(pp) => !pid_in_family(procs, pp),
            None => true,
        };
        flags.push(flag);
        i = i + 1;
    }
    flags
}

/// Whether some family process with this pid has no parent inside the family.
fn pid_is_root(procs: &[ProcessInfo], flags: &[bool], pid: u32) -> (r: bool)
    requires
        flags@.len() == procs@.len(),
        forall|j: int| 0 <= j < flags@.len() ==> flags@[j] == !parent_in_family(info_views(procs@), info_views(procs@)[j]),
    ensures
        r == is_root(info_views(procs@), pid),
{
    let ghost f = info_views(procs@);
    let mut i: usize = 0;
    while i < procs.len()
        invariant
            i <= procs.len(),
            f == info_views(procs@),
            flags@.len() == procs@.len(),
            forall|j: int| 0 <= j < flags@.len() ==> flags@[j] == !parent_in_family(f, f[j]),
            forall|j: int| 0 <= j < i ==> !(f[j].pid == pid && !parent_in_family(f, f[j])),
        decreases procs.len() - i,
    {
        if procs[i].pid == pid && flags[i] {
            assert(f[i as int].pid == pid);
            return true;
        }
        i = i + 1;
    }
    false
}

/// The pid of the group that the process `pid` belongs to: its nearest
/// ancestor that owns the others, found within a bounded number of hops.
/// `root_flags` tells, for each record, whether its parent lies outside the family.
pub fn find_root_ancestor(processes: &[ProcessInfo], pid: u32, root_flags: &[bool]) -> (r: u32)
    requires
        root_flags@.len() == processes@.len(),
        forall|j: int|
            0 <= j < root_flags@.len() ==> root_flags@[j] == !parent_in_family(
                info_views(processes@),
                info_views(processes@)[j],
            ),
    ensures
        r == group_key(info_views(processes@), pid),
{
    let ghost f = info_views(processes@);
    if pid_is_root(processes, root_flags, pid) {
        return pid;
    }
    let mut current = pid;
    let mut hops: usize = 0;
    while hops < MAX_ANCESTOR_HOPS
        invariant
            hops <= MAX_ANCESTOR_HOPS,
            f == info_views(processes@),
            root_flags@.len() == processes@.len(),
            forall|j: int| 0 <= j < root_flags@.len() ==> root_flags@[j] == !parent_in_family(f, f[j]),
            walk(f, pid, MAX_ANCESTOR_HOPS as nat) == walk(f, current, (MAX_ANCESTOR_HOPS - hops) as nat),
        decreases MAX_ANCESTOR_HOPS - hops,
    {
        if pid_is_root(processes, root_flags, current) {
            return current;
        }
        match position_of_pid(processes, current) {
            Some(i) => {
                assert(f[i as int].parent_pid == processes@[i as int].parent_pid);
                match processes[i].parent_pid {
                    Some(pp) => {
                        if pid_in_family(processes, pp) {
                            current = pp;
                        } else {
                            return current;
                        }
                    },
                    None => {
                        return current;
                    },
                }
            },
            None => {
                return current;
            },
        }
        hops = hops + 1;
    }
    current
}

/// For each family process, the pid of the group it belongs to.
fn group_keys(procs: &Vec<ProcessInfo>) -> (r: Vec<u32>)
    ensures
        r@.len() == procs@.len(),
        forall|j: int| 0 <= j < r@.len() ==> r@[j] == group_key(info_views(procs@), procs@[j].pid),
{
    let flags = root_flags(procs.as_slice());
    let mut keys: Vec<u32> = Vec::new();
    let mut i: usize = 0;
    while i < procs.len()
        invariant
            i <= procs.len(),
            keys@.len() == i,
            flags@.len() == procs@.len(),
            forall|j: int| 0 <= j < flags@.len() ==> flags@[j] == !parent_in_family(info_views(procs@), info_views(procs@)[j]),
            forall|j: int| 0 <= j < i ==> keys@[j] == group_key(info_views(procs@), procs@[j].pid),
        decreases procs.len() - i,
    {
        let k = find_root_ancestor(procs.as_slice(), procs[i].pid, flags.as_slice());
        keys.push(k);
        i = i + 1;
    }
    keys
}

proof fn lemma_push_contains(s: Seq<u32>, a: u32)
    ensures
        forall|y: u32| s.push(a).contains(y) <==> s.contains(y) || y == a,
{
    assert forall|y: u32| s.push(a).contains(y) <==> s.contains(y) || y == a by {
        if s.push(a).contains(y) {
            let t = choose|t: int| 0 <= t < s.push(a).len() && s.push(a)[t] == y;
            if t < s.len() {
                assert(s[t] == y);
            }
        }
        if s.contains(y) {
            let t = choose|t: int| 0 <= t < s.len() && s[t] == y;
            assert(s.push(a)[t] == y);
        }
        if y == a {
            assert(s.push(a)[s.len() as int] == y);
        }
    }
}

/// The distinct values of `keys`, in ascending order.
fn distinct_ascending(keys: &Vec<u32>) -> (r: Vec<u32>)
    ensures
        forall|a: int, b: int| 0 <= a < b < r@.len() ==> r@[a] < r@[b],
        forall|x: u32| r@.contains(x) <==> keys@.contains(x),
{
    let mut out: Vec<u32> = Vec::new();
    let mut i: usize = 0;
    while i < keys.len()
        invariant
            i <= keys.len(),
            forall|a: int, b: int| 0 <= a < b < out@.len() ==> out@[a] < out@[b],
            forall|x: u32| out@.contains(x) <==> keys@.subrange(0, i as int).contains(x),
        decreases keys.len() - i,
    {
        let x = keys[i];
        assert(keys@.subrange(0, i + 1) =~= keys@.subrange(0, i as int).push(x));
        proof {
            lemma_push_contains(keys@.subrange(0, i as int), x);
        }
        let ghost before = out@;
        let present = holds_pid(out.as_slice(), x);
        if !present {
            let mut pos: usize = 0;
            while pos < out.len() && out[pos] < x
                invariant
                    pos <= out.len(),
                    forall|a: int| 0 <= a < pos ==> out@[a] < x,
                decreases out.len() - pos,
            {
                pos = pos + 1;
            }
            let ghost prev = out@;
            out.insert(pos, x);
            assert(out@ == prev.insert(pos as int, x));
            proof {
                prev.insert_ensures(pos as int, x);
                assert forall|a: int, b: int| 0 <= a < b < out@.len() implies out@[a] < out@[b] by {
                    if pos < prev.len() {
                        assert(prev[pos as int] != x);
                        assert(prev[pos as int] > x);
                    }
                    if b < pos {
                    } else if b == pos {
                    } else if a < pos {
                        assert(out@[b] == prev[b - 1]);
                        if pos < prev.len() {
                            assert(prev[pos as int] <= prev[b - 1]);
                        }
                    } else if a == pos {
                        assert(out@[b] == prev[b - 1]);
                        if pos < b - 1 {
                            assert(prev[pos as int] < prev[b - 1]);
                        }
                    } else {
                        assert(out@[a] == prev[a - 1]);
                        assert(out@[b] == prev[b - 1]);
                    }
                }
                assert forall|y: u32| out@.contains(y) <==> prev.contains(y) || y == x by {
                    if out@.contains(y) {
                        let t = choose|t: int| 0 <= t < out@.len() && out@[t] == y;
                        if t < pos {
                            assert(prev[t] == y);
                        } else if t > pos {
                            assert(prev[t - 1] == y);
                        }
                    }
                    if prev.contains(y) {
                        let t = choose|t: int| 0 <= t < prev.len() && prev[t] == y;
                        if t < pos {
                            assert(out@[t] == y);
                        } else {
                            assert(out@[t + 1] == y);
                        }
                    }
                    if y == x {
                        assert(out@[pos as int] == y);
                    }
                }
            }
        }
        assert forall|y: u32| out@.contains(y) <==> keys@.subrange(0, i + 1).contains(y) by {
            assert(keys@.subrange(0, i + 1).contains(y) <==> keys@.subrange(0, i as int).contains(y)
                || y == x);
            assert(before.contains(y) <==> keys@.subrange(0, i as int).contains(y));
            if present {
                assert(out@ == before);
            } else {
                assert(out@.contains(y) <==> before.contains(y) || y == x);
            }
        }
        i = i + 1;
    }
    assert(keys@.subrange(0, keys.len() as int) =~= keys@);
    out
}

/// `gs` is the grouped listing of the family `f`: every group is the group of
/// its owner, groups are listed by instance type and then owner pid, and every
/// family process's owner has a group.
pub open spec fn is_listing_of(
    f: Seq<ProcessInfoView>,
    hosts: Seq<HostProcessView>,
    gs: Seq<ProcessGroupView>,
) -> bool {
    &&& forall|g: int| 0 <= g < gs.len() ==> is_group_of(f, hosts, #[trigger] gs[g])
    &&& forall|g1: int, g2: int| 0 <= g1 < g2 < gs.len() ==> listed_before(gs[g1], gs[g2])
    &&& forall|i: int| 0 <= i < f.len() ==> lists_owner(gs, group_key(f, #[trigger] f[i].pid))
}

/// The processes grouped under `k`, ordered by pid.
fn group_members(procs: &Vec<ProcessInfo>, keys: &Vec<u32>, k: u32) -> (r: Vec<ProcessInfo>)
    requires
        keys@.len() == procs@.len(),
        forall|j: int| 0 <= j < keys@.len() ==> keys@[j] == group_key(info_views(procs@), procs@[j].pid),
    ensures
        info_views(r@).to_multiset() == members(info_views(procs@), k).to_multiset(),
        sorted_by_pid(info_views(r@)),
{
    let ghost f = info_views(procs@);
    let ghost pred = in_group(f, k);
    let mut out: Vec<ProcessInfo> = Vec::new();
    let mut i: usize = 0;
    assert(info_views(out@) =~= Seq::<ProcessInfoView>::empty());
    assert(f.subrange(0, 0).filter(pred) =~= Seq::<ProcessInfoView>::empty()) by {
        reveal(Seq::filter);
    }
    while i < procs.len()
        invariant
            i <= procs.len(),
            f == info_views(procs@),
            pred == in_group(f, k),
            keys@.len() == procs@.len(),
            forall|j: int| 0 <= j < keys@.len() ==> keys@[j] == group_key(f, procs@[j].pid),
            info_views(out@).to_multiset() == f.subrange(0, i as int).filter(pred).to_multiset(),
            sorted_by_pid(info_views(out@)),
        decreases procs.len() - i,
    {
        assert(f.subrange(0, i + 1) =~= f.subrange(0, i as int).push(f[i as int]));
        proof {
            f.subrange(0, i as int).lemma_filter_push(f[i as int], pred);
        }
        if keys[i] == k {
            let p = procs[i].duplicate();
            let mut pos: usize = 0;
            while pos < out.len() && out[pos].pid <= p.pid
                invariant
                    pos <= out.len(),
                    forall|a: int| 0 <= a < pos ==> out@[a].pid <= p.pid,
                decreases out.len() - pos,
            {
                pos = pos + 1;
            }
            let ghost prev = info_views(out@);
            out.insert(pos, p);
            proof {
                assert(info_views(out@) =~= prev.insert(pos as int, p@));
                vstd::seq_lib::to_multiset_insert(prev, pos as int, p@);
                vstd::seq_lib::to_multiset_build(f.subrange(0, i as int).filter(pred), f[i as int]);
                prev.insert_ensures(pos as int, p@);
                let nv = info_views(out@);
                assert forall|a: int, b: int| 0 <= a < b < nv.len() implies nv[a].pid <= nv[b].pid by {
                    if pos < prev.len() {
                        assert(prev[pos as int].pid == out@[pos + 1].pid);
                    }
                    if b < pos {
                        assert(nv[a] == prev[a] && nv[b] == prev[b]);
                    } else if b == pos {
                        assert(nv[a] == prev[a]);
                        assert(out@[a].pid <= p.pid);
                    } else if a < pos {
                        assert(nv[a] == prev[a] && nv[b] == prev[b - 1]);
                        assert(prev[pos as int].pid > p.pid);
                        assert(out@[a].pid <= p.pid);
                    } else if a == pos {
                        assert(nv[b] == prev[b - 1]);
                        assert(prev[pos as int].pid > p.pid);
                    } else {
                        assert(nv[a] == prev[a - 1] && nv[b] == prev[b - 1]);
                    }
                }
            }
        }
        i = i + 1;
    }
    assert(f.subrange(0, procs.len() as int) =~= f);
    out
}

/// The instance type of the group under `k`.
fn group_type_of(procs: &Vec<ProcessInfo>, keys: &Vec<u32>, k: u32) -> (r: String)
    requires
        keys@.len() == procs@.len(),
        forall|j: int| 0 <= j < keys@.len() ==> keys@[j] == group_key(info_views(procs@), procs@[j].pid),
    ensures
        r@ == group_type(info_views(procs@), k),
{
    let ghost f = info_views(procs@);
    let copilot_label = "Copilot".to_string();
    let webview_label = "WebView2".to_string();
    let mut copilot = false;
    let mut webview = false;
    let mut i: usize = 0;
    while i < procs.len()
        invariant
            i <= procs.len(),
            f == info_views(procs@),
            copilot_label@ == "Copilot"@,
            webview_label@ == "WebView2"@,
            keys@.len() == procs@.len(),
            forall|j: int| 0 <= j < keys@.len() ==> keys@[j] == group_key(f, procs@[j].pid),
            copilot == exists|j: int|
                0 <= j < i && group_key(f, f[j].pid) == k && f[j].instance_type == "Copilot"@,
            webview == exists|j: int|
                0 <= j < i && group_key(f, f[j].pid) == k && f[j].instance_type == "WebView2"@,
        decreases procs.len() - i,
    {
        if keys[i] == k {
            if procs[i].instance_type == copilot_label {
                copilot = true;
            }
            if procs[i].instance_type == webview_label {
                webview = true;
            }
        }
        assert(f[i as int].instance_type == procs@[i as int].instance_type@);
        i = i + 1;
    }
    if copilot {
        copilot_label
    } else if webview {
        webview_label
    } else {
        "Browser".to_string()
    }
}

/// Where groups of this instance type stand in the listing.
fn rank_of(t: &String) -> (r: u8)
    ensures
        r as int == type_rank(t@),
{
    if *t == "Browser".to_string() {
        0
    } else if *t == "WebView2".to_string() {
        1
    } else if *t == "Copilot".to_string() {
        2
    } else {
        3
    }
}

/// The executable of the owning process `k`, when it is a member of its own group.
fn root_exe_of(procs: &Vec<ProcessInfo>, keys: &Vec<u32>, k: u32) -> (r: String)
    requires
        keys@.len() == procs@.len(),
        forall|j: int| 0 <= j < keys@.len() ==> keys@[j] == group_key(info_views(procs@), procs@[j].pid),
    ensures
        r@ == root_exe(info_views(procs@), k),
{
    match position_of_pid(procs.as_slice(), k) {
        Some(i) => {
            if keys[i] == k {
                procs[i].exe_path.clone()
            } else {
                String::new()
            }
        },
        None => String::new(),
    }
}

/// The value of the first `--webview-exe-name=` argument.
fn webview_host_arg_of(args: &Vec<String>) -> (r: Option<String>)
    ensures
        r matches Some(n) ==> webview_host_arg(arg_views(args@)) == Some(n@),
        r is None ==> webview_host_arg(arg_views(args@)) is None,
{
    let mut i: usize = 0;
    assert(arg_views(args@).subrange(0, args@.len() as int) =~= arg_views(args@));
    while i < args.len()
        invariant
            i <= args.len(),
            webview_host_arg(arg_views(args@)) == webview_host_arg(
                arg_views(args@).subrange(i as int, args@.len() as int),
            ),
        decreases args.len() - i,
    {
        let ghost rest = arg_views(args@).subrange(i as int, args@.len() as int);
        assert(rest.drop_first() =~= arg_views(args@).subrange(i + 1, args@.len() as int));
        assert(rest[0] == args@[i as int]@);
        match strip_prefix(args[i].as_str(), "--webview-exe-name=") {
            Some(n) => {
                return Some(n);
            },
            None => {},
        }
        i = i + 1;
    }
    None
}

/// The first position of a host process with this pid.
fn host_position(hosts: &Vec<HostProcess>, pid: u32) -> (r: Option<usize>)
    ensures
        r matches Some(i) ==> i < hosts@.len() && host_index_from(host_views(hosts@), pid, 0) == Some(i as int),
        r is None ==> host_index_from(host_views(hosts@), pid, 0) is None,
{
    let ghost hv = host_views(hosts@);
    let mut i: usize = 0;
    while i < hosts.len()
        invariant
            i <= hosts.len(),
            hv == host_views(hosts@),
            host_index_from(hv, pid, 0) == host_index_from(hv, pid, i as int),
        decreases hosts.len() - i,
    {
        if hosts[i].pid == pid {
            return Some(i);
        }
        i = i + 1;
    }
    None
}

/// The application hosting the instance owned by `k`.
fn host_app_of(procs: &Vec<ProcessInfo>, hosts: &Vec<HostProcess>, k: u32) -> (r: String)
    ensures
        r@ == host_app_label(info_views(procs@), host_views(hosts@), k),
{
    let ghost f = info_views(procs@);
    let ghost hv = host_views(hosts@);
    match position_of_pid(procs.as_slice(), k) {
        None => String::new(),
        Some(i) => {
            assert(f[i as int].cmd_args == arg_views(procs@[i as int].cmd_args@));
            match webview_host_arg_of(&procs[i].cmd_args) {
                Some(n) => n,
                None => match procs[i].parent_pid {
                    Some(pp) => match host_position(hosts, pp) {
                        Some(h) => {
                            assert(hv[h as int].name == hosts@[h as int].name@);
                            let lower = to_lower(hosts[h].name.as_str());
                            if str_contains(lower.as_str(), "msedge") {
                                String::new()
                            } else {
                                hosts[h].name.clone()
                            }
                        },
                        None => String::new(),
                    },
                    None => String::new(),
                },
            }
        },
    }
}

/// The group owned by `k`.
fn build_group(procs: &Vec<ProcessInfo>, keys: &Vec<u32>, hosts: &Vec<HostProcess>, k: u32) -> (r: ProcessGroup)
    requires
        keys@.len() == procs@.len(),
        forall|j: int| 0 <= j < keys@.len() ==> keys@[j] == group_key(info_views(procs@), procs@[j].pid),
        is_group_key(info_views(procs@), k),
    ensures
        r.browser_pid == k,
        is_group_of(info_views(procs@), host_views(hosts@), r@),
{
    let processes = group_members(procs, keys, k);
    let instance_type = group_type_of(procs, keys, k);
    let browser_exe = root_exe_of(procs, keys, k);
    let channel = detect_channel(browser_exe.as_str());
    let hosted = instance_type == "WebView2".to_string() || instance_type == "Copilot".to_string();
    let host_app = if hosted {
        host_app_of(procs, hosts, k)
    } else {
        String::new()
    };
    ProcessGroup { browser_pid: k, browser_exe, channel, instance_type, host_app, processes }
}

/// The family grouped by owning process: one group per owner, listed by
/// instance type (browsers, then webviews, then the assistant) and then by
/// owner pid.
pub fn group_processes(procs: &Vec<ProcessInfo>, hosts: &Vec<HostProcess>) -> (r: Vec<ProcessGroup>)
    ensures
        is_listing_of(info_views(procs@), host_views(hosts@), group_views(r@)),
{
    let ghost f = info_views(procs@);
    let ghost hv = host_views(hosts@);
    let keys = group_keys(procs);
    let owners = distinct_ascending(&keys);
    assert forall|u: int| 0 <= u < owners@.len() implies is_group_key(f, #[trigger] owners@[u]) by {
        assert(owners@.contains(owners@[u]));
        assert(keys@.contains(owners@[u]));
        let j = choose|j: int| 0 <= j < keys@.len() && keys@[j] == owners@[u];
        assert(f[j].pid == procs@[j].pid);
    }
    let mut ranks: Vec<u8> = Vec::new();
    let mut u: usize = 0;
    while u < owners.len()
        invariant
            u <= owners.len(),
            ranks@.len() == u,
            keys@.len() == procs@.len(),
            forall|j: int| 0 <= j < keys@.len() ==> keys@[j] == group_key(info_views(procs@), procs@[j].pid),
            forall|w: int| 0 <= w < u ==> ranks@[w] as int == type_rank(group_type(info_views(procs@), owners@[w])),
        decreases owners.len() - u,
    {
        let t = group_type_of(procs, &keys, owners[u]);
        ranks.push(rank_of(&t));
        u = u + 1;
    }
    let mut out: Vec<ProcessGroup> = Vec::new();
    let mut rank: u8 = 0;
    while rank < 4
        invariant
            rank <= 4,
            f == info_views(procs@),
            hv == host_views(hosts@),
            keys@.len() == procs@.len(),
            forall|j: int| 0 <= j < keys@.len() ==> keys@[j] == group_key(f, procs@[j].pid),
            forall|a: int, b: int| 0 <= a < b < owners@.len() ==> owners@[a] < owners@[b],
            forall|u: int| 0 <= u < owners@.len() ==> is_group_key(f, #[trigger] owners@[u]),
            ranks@.len() == owners@.len(),
            forall|w: int| 0 <= w < owners@.len() ==> ranks@[w] as int == type_rank(group_type(f, owners@[w])),
            forall|g: int| 0 <= g < out@.len() ==> is_group_of(f, hv, #[trigger] out@[g]@),
            forall|g1: int, g2: int| 0 <= g1 < g2 < out@.len() ==> listed_before(out@[g1]@, out@[g2]@),
            forall|g: int| 0 <= g < out@.len() ==> type_rank(#[trigger] out@[g].instance_type@) < rank,
            forall|w: int|
                0 <= w < owners@.len() && ranks@[w] < rank ==> exists|g: int|
                    0 <= g < out@.len() && #[trigger] out@[g].browser_pid == owners@[w],
        decreases 4 - rank,
    {
        let mut u: usize = 0;
        while u < owners.len()
            invariant
                rank < 4,
                u <= owners.len(),
                f == info_views(procs@),
                hv == host_views(hosts@),
                keys@.len() == procs@.len(),
                forall|j: int| 0 <= j < keys@.len() ==> keys@[j] == group_key(f, procs@[j].pid),
                forall|a: int, b: int| 0 <= a < b < owners@.len() ==> owners@[a] < owners@[b],
                forall|u: int| 0 <= u < owners@.len() ==> is_group_key(f, #[trigger] owners@[u]),
                ranks@.len() == owners@.len(),
                forall|w: int| 0 <= w < owners@.len() ==> ranks@[w] as int == type_rank(group_type(f, owners@[w])),
                forall|g: int| 0 <= g < out@.len() ==> is_group_of(f, hv, #[trigger] out@[g]@),
                forall|g1: int, g2: int| 0 <= g1 < g2 < out@.len() ==> listed_before(out@[g1]@, out@[g2]@),
                forall|g: int|
                    0 <= g < out@.len() ==> type_rank(#[trigger] out@[g].instance_type@) < rank || (
                    type_rank(out@[g].instance_type@) == rank && (exists|w: int|
                        0 <= w < u && owners@[w] == out@[g].browser_pid)),
                forall|w: int|
                    0 <= w < owners@.len() && (ranks@[w] < rank || (ranks@[w] == rank && w < u)) ==> exists|g: int|
                        0 <= g < out@.len() && #[trigger] out@[g].browser_pid == owners@[w],
            decreases owners.len() - u,
        {
            if ranks[u] == rank {
                let g = build_group(procs, &keys, hosts, owners[u]);
                let ghost prev = out@;
                assert forall|x: int| 0 <= x < prev.len() implies listed_before(prev[x]@, g@) by {
                    assert(type_rank(prev[x].instance_type@) < rank || (type_rank(prev[x].instance_type@) == rank && (exists|w: int|
                        0 <= w < u && owners@[w] == prev[x].browser_pid)));
                    if type_rank(prev[x].instance_type@) == rank {
                        let w = choose|w: int| 0 <= w < u && owners@[w] == prev[x].browser_pid;
                        assert(owners@[w] < owners@[u as int]);
                    }
                }
                out.push(g);
                assert forall|w: int|
                    0 <= w < owners@.len() && (ranks@[w] < rank || (ranks@[w] == rank && w < u + 1)) implies exists|g: int|
                        0 <= g < out@.len() && #[trigger] out@[g].browser_pid == owners@[w] by {
                    if w == u {
                        assert(out@[prev.len() as int].browser_pid == owners@[w]);
                    } else {
                        let g0 = choose|g: int| 0 <= g < prev.len() && #[trigger] prev[g].browser_pid == owners@[w];
                        assert(out@[g0].browser_pid == owners@[w]);
                    }
                }
                assert forall|x: int|
                    0 <= x < out@.len() implies type_rank(#[trigger] out@[x].instance_type@) < rank || (
                    type_rank(out@[x].instance_type@) == rank && (exists|w: int|
                        0 <= w < u + 1 && owners@[w] == out@[x].browser_pid)) by {
                    if x < prev.len() {
                        assert(out@[x] == prev[x]);
                    } else {
                        assert(owners@[u as int] == out@[x].browser_pid);
                    }
                }
            }
            u = u + 1;
        }
        rank = rank + 1;
    }
    let ghost gv = group_views(out@);
    assert forall|i: int| 0 <= i < f.len() implies lists_owner(gv, group_key(f, #[trigger] f[i].pid)) by {
        assert(keys@.contains(keys@[i]));
        assert(owners@.contains(keys@[i]));
        let w = choose|w: int| 0 <= w < owners@.len() && owners@[w] == keys@[i];
        assert(ranks@[w] < 4);
        let g = choose|g: int| 0 <= g < out@.len() && #[trigger] out@[g].browser_pid == owners@[w];
        assert(gv[g].browser_pid == owners@[w]);
    }
    assert forall|g1: int, g2: int| 0 <= g1 < g2 < gv.len() implies listed_before(gv[g1], gv[g2]) by {
        assert(gv[g1] == out@[g1]@ && gv[g2] == out@[g2]@);
    }
    assert forall|g: int| 0 <= g < gv.len() implies is_group_of(f, hv, #[trigger] gv[g]) by {
        assert(gv[g] == out@[g]@);
    }
    out
}

/// The processes of a host snapshot that belong to the browser family,
/// classified and grouped by owning process.
pub fn edge_process_groups(hosts: &Vec<HostProcess>) -> (r: Vec<ProcessGroup>)
    ensures
        is_listing_of(family_of(host_views(hosts@)), host_views(hosts@), group_views(r@)),
{
    let family = family_processes(hosts);
    group_processes(&family, hosts)
}

/// The walk from `pid` meets a root within `hops` parent links.
pub open spec fn reaches_root_within(f: Seq<ProcessInfoView>, pid: u32, hops: nat) -> bool
    decreases hops,
{
    is_root(f, pid) || (hops > 0 && match pid_index(f, pid) {
        Some(i) => match f[i].parent_pid {
            Some(pp) => in_family(f, pp) && reaches_root_within(f, pp, (hops - 1) as nat),
            None => false,
        },
        None => false,
    })
}

proof fn lemma_walk_ends_at_root(f: Seq<ProcessInfoView>, pid: u32, hops: nat)
    requires
        reaches_root_within(f, pid, hops),
    ensures
        is_root(f, walk(f, pid, hops)),
    decreases hops,
{
    if !is_root(f, pid) {
        let i = pid_index(f, pid).unwrap();
        let pp = f[i].parent_pid.unwrap();
        lemma_walk_ends_at_root(f, pp, (hops - 1) as nat);
    }
}

proof fn lemma_owner_contains(f: Seq<ProcessInfoView>, hosts: Seq<HostProcessView>, g: ProcessGroupView, i: int)
    requires
        is_group_of(f, hosts, g),
        0 <= i < f.len(),
    ensures
        g.processes.contains(f[i]) <==> group_key(f, f[i].pid) == g.browser_pid,
{
    let k = g.browser_pid;
    let pred = in_group(f, k);
    vstd::seq_lib::to_multiset_contains(g.processes, f[i]);
    vstd::seq_lib::to_multiset_contains(members(f, k), f[i]);
    if group_key(f, f[i].pid) == k {
        f.lemma_filter_contains(pred, i);
    }
    if members(f, k).contains(f[i]) {
        let t = choose|t: int| 0 <= t < f.filter(pred).len() && f.filter(pred)[t] == f[i];
        f.lemma_filter_pred(pred, t);
    }
}

/// Two groups of a listing never share an owner.
pub proof fn lemma_owners_distinct(
    f: Seq<ProcessInfoView>,
    hosts: Seq<HostProcessView>,
    gs: Seq<ProcessGroupView>,
    g1: int,
    g2: int,
)
    requires
        is_listing_of(f, hosts, gs),
        0 <= g1 < gs.len(),
        0 <= g2 < gs.len(),
        gs[g1].browser_pid == gs[g2].browser_pid,
    ensures
        g1 == g2,
{
    if g1 < g2 {
        assert(listed_before(gs[g1], gs[g2]));
        assert(is_group_of(f, hosts, gs[g1]) && is_group_of(f, hosts, gs[g2]));
    } else if g2 < g1 {
        assert(listed_before(gs[g2], gs[g1]));
        assert(is_group_of(f, hosts, gs[g1]) && is_group_of(f, hosts, gs[g2]));
    }
}

/// Every family process appears in exactly one group of the listing: the
/// group of its owner.
pub proof fn lemma_each_process_in_one_group(
    f: Seq<ProcessInfoView>,
    hosts: Seq<HostProcessView>,
    gs: Seq<ProcessGroupView>,
    i: int,
)
    requires
        is_listing_of(f, hosts, gs),
        0 <= i < f.len(),
    ensures
        exists|g: int| 0 <= g < gs.len() && gs[g].processes.contains(f[i]),
        forall|g1: int, g2: int|
            0 <= g1 < gs.len() && 0 <= g2 < gs.len() && gs[g1].processes.contains(f[i])
                && gs[g2].processes.contains(f[i]) ==> g1 == g2,
{
    let k = group_key(f, f[i].pid);
    assert(lists_owner(gs, k));
    let g = choose|g: int| 0 <= g < gs.len() && gs[g].browser_pid == k;
    lemma_owner_contains(f, hosts, gs[g], i);
    assert forall|g1: int, g2: int|
        0 <= g1 < gs.len() && 0 <= g2 < gs.len() && gs[g1].processes.contains(f[i])
            && gs[g2].processes.contains(f[i]) implies g1 == g2 by {
        lemma_owner_contains(f, hosts, gs[g1], i);
        lemma_owner_contains(f, hosts, gs[g2], i);
        lemma_owners_distinct(f, hosts, gs, g1, g2);
    }
}

/// However deep or cyclic the parent links are, every family process is
/// grouped: the group owned by the process its bounded walk stops at holds it.
pub proof fn lemma_bounded_walk_assigns_group(
    f: Seq<ProcessInfoView>,
    hosts: Seq<HostProcessView>,
    gs: Seq<ProcessGroupView>,
    i: int,
)
    requires
        is_listing_of(f, hosts, gs),
        0 <= i < f.len(),
    ensures
        exists|g: int|
            0 <= g < gs.len() && gs[g].browser_pid == walk(f, f[i].pid, MAX_ANCESTOR_HOPS as nat)
                && gs[g].processes.contains(f[i]),
{
    let k = group_key(f, f[i].pid);
    assert(lists_owner(gs, k));
    let g = choose|g: int| 0 <= g < gs.len() && gs[g].browser_pid == k;
    lemma_owner_contains(f, hosts, gs[g], i);
}

/// When every family process reaches a root within the hop bound, every
/// group of the listing is owned by a root.
pub proof fn lemma_owners_are_roots(
    f: Seq<ProcessInfoView>,
    hosts: Seq<HostProcessView>,
    gs: Seq<ProcessGroupView>,
)
    requires
        is_listing_of(f, hosts, gs),
        forall|i: int| 0 <= i < f.len() ==> reaches_root_within(f, #[trigger] f[i].pid, MAX_ANCESTOR_HOPS as nat),
    ensures
        forall|g: int| 0 <= g < gs.len() ==> is_root(f, #[trigger] gs[g].browser_pid),
{
    assert forall|g: int| 0 <= g < gs.len() implies is_root(f, #[trigger] gs[g].browser_pid) by {
        assert(is_group_of(f, hosts, gs[g]));
        let i = choose|i: int| 0 <= i < f.len() && group_key(f, f[i].pid) == gs[g].browser_pid;
        lemma_walk_ends_at_root(f, f[i].pid, MAX_ANCESTOR_HOPS as nat);
    }
}

/// No two family records share a pid.
pub open spec fn distinct_pids(f: Seq<ProcessInfoView>) -> bool {
    forall|i: int, j: int| 0 <= i < f.len() && 0 <= j < f.len() && f[i].pid == f[j].pid ==> i == j
}

proof fn lemma_filter_count<A>(s: Seq<A>, p: spec_fn(A) -> bool, x: A)
    ensures
        s.filter(p).to_multiset().count(x) <= s.to_multiset().count(x),
    decreases s.len(),
{
    if s.len() > 0 {
        let q = s.drop_last();
        assert(q.push(s.last()) =~= s);
        lemma_filter_count(q, p, x);
        q.lemma_filter_push(s.last(), p);
        vstd::seq_lib::to_multiset_build(q, s.last());
        vstd::seq_lib::to_multiset_build(q.filter(p), s.last());
    } else {
        assert(s.filter(p) =~= Seq::<A>::empty()) by {
            reveal(Seq::filter);
        }
    }
}

/// A member of a group is a record of the family.
proof fn lemma_member_in_family(
    f: Seq<ProcessInfoView>,
    hosts: Seq<HostProcessView>,
    g: ProcessGroupView,
    m: int,
)
    requires
        is_group_of(f, hosts, g),
        0 <= m < g.processes.len(),
    ensures
        f.contains(g.processes[m]),
        group_key(f, g.processes[m].pid) == g.browser_pid,
{
    let x = g.processes[m];
    let pred = in_group(f, g.browser_pid);
    assert(g.processes.contains(x));
    vstd::seq_lib::to_multiset_contains(g.processes, x);
    vstd::seq_lib::to_multiset_contains(members(f, g.browser_pid), x);
    f.lemma_filter_contains_rev(pred, x);
    let t = choose|t: int| 0 <= t < f.filter(pred).len() && f.filter(pred)[t] == x;
    f.lemma_filter_pred(pred, t);
}

/// When no two family records share a pid, each family process's pid occurs
/// in exactly one group of the listing, exactly once there, and only as that
/// process.
pub proof fn lemma_pid_occurs_once(
    f: Seq<ProcessInfoView>,
    hosts: Seq<HostProcessView>,
    gs: Seq<ProcessGroupView>,
    i: int,
)
    requires
        is_listing_of(f, hosts, gs),
        distinct_pids(f),
        0 <= i < f.len(),
    ensures
        exists|g: int| 0 <= g < gs.len() && gs[g].processes.contains(f[i]),
        forall|g: int, m: int|
            0 <= g < gs.len() && 0 <= m < gs[g].processes.len() && gs[g].processes[m].pid == f[i].pid
                ==> gs[g].processes[m] == f[i] && gs[g].browser_pid == group_key(f, f[i].pid),
        forall|g1: int, m1: int, g2: int, m2: int|
            0 <= g1 < gs.len() && 0 <= m1 < gs[g1].processes.len() && 0 <= g2 < gs.len() && 0 <= m2
                < gs[g2].processes.len() && gs[g1].processes[m1].pid == f[i].pid
                && gs[g2].processes[m2].pid == f[i].pid ==> g1 == g2 && m1 == m2,
{
    lemma_each_process_in_one_group(f, hosts, gs, i);
    assert forall|g: int, m: int|
        0 <= g < gs.len() && 0 <= m < gs[g].processes.len() && gs[g].processes[m].pid == f[i].pid
            implies gs[g].processes[m] == f[i] && gs[g].browser_pid == group_key(f, f[i].pid) by {
        assert(is_group_of(f, hosts, gs[g]));
        lemma_member_in_family(f, hosts, gs[g], m);
        let j = choose|j: int| 0 <= j < f.len() && f[j] == gs[g].processes[m];
        assert(j == i);
    }
    assert(f.no_duplicates()) by {
        assert forall|a: int, b: int| 0 <= a < f.len() && 0 <= b < f.len() && a != b implies f[a]
            != f[b] by {
            if f[a] == f[b] {
                assert(f[a].pid == f[b].pid);
            }
        }
    }
    f.lemma_multiset_has_no_duplicates();
    assert forall|g1: int, m1: int, g2: int, m2: int|
        0 <= g1 < gs.len() && 0 <= m1 < gs[g1].processes.len() && 0 <= g2 < gs.len() && 0 <= m2
            < gs[g2].processes.len() && gs[g1].processes[m1].pid == f[i].pid
            && gs[g2].processes[m2].pid == f[i].pid implies g1 == g2 && m1 == m2 by {
        let k = group_key(f, f[i].pid);
        assert(gs[g1].browser_pid == k && gs[g2].browser_pid == k);
        lemma_owners_distinct(f, hosts, gs, g1, g2);
        let ps = gs[g1].processes;
        assert(is_group_of(f, hosts, gs[g1]));
        lemma_filter_count(f, in_group(f, k), f[i]);
        assert(f.contains(f[i]));
        vstd::seq_lib::to_multiset_contains(f, f[i]);
        assert(ps.to_multiset().count(f[i]) <= 1);
        if m1 != m2 {
            assert(ps[m1] == f[i] && ps[m2] == f[i]);
            assert forall|x: ProcessInfoView| ps.to_multiset().contains(x) implies ps.to_multiset().count(x) == 1 by {
                if x != f[i] {
                    if ps.to_multiset().contains(x) {
                        vstd::seq_lib::to_multiset_contains(ps, x);
                        let t = choose|t: int| 0 <= t < ps.len() && ps[t] == x;
                        lemma_member_in_family(f, hosts, gs[g1], t);
                        lemma_filter_count(f, in_group(f, k), x);
                        vstd::seq_lib::to_multiset_contains(f, x);
                    }
                } else {
                    vstd::seq_lib::to_multiset_contains(ps, x);
                }
            }
            ps.lemma_multiset_has_no_duplicates_conv();
        }
    }
}

/// All the records the groups hold, counted with multiplicity.
pub open spec fn members_union(gs: Seq<ProcessGroupView>) -> Multiset<ProcessInfoView>
    decreases gs.len(),
{
    if gs.len() == 0 {
        Multiset::empty()
    } else {
        members_union(gs.drop_last()).add(gs.last().processes.to_multiset())
    }
}

/// The test that a record's owner owns one of the first `n` groups.
pub open spec fn owned_among(f: Seq<ProcessInfoView>, gs: Seq<ProcessGroupView>, n: int) -> spec_fn(
    ProcessInfoView,
) -> bool {
    |x: ProcessInfoView| exists|g: int| 0 <= g < n && gs[g].browser_pid == group_key(f, x.pid)
}

proof fn lemma_filter_disjoint_union<A>(
    s: Seq<A>,
    p: spec_fn(A) -> bool,
    q: spec_fn(A) -> bool,
    pq: spec_fn(A) -> bool,
)
    requires
        forall|x: A| #[trigger] pq(x) == (p(x) || q(x)),
        forall|x: A| !(#[trigger] p(x) && q(x)),
    ensures
        s.filter(pq).to_multiset() == s.filter(p).to_multiset().add(s.filter(q).to_multiset()),
    decreases s.len(),
{
    if s.len() == 0 {
        assert(s.filter(pq) =~= Seq::<A>::empty()) by {
            reveal(Seq::filter);
        }
        assert(s.filter(p) =~= Seq::<A>::empty()) by {
            reveal(Seq::filter);
        }
        assert(s.filter(q) =~= Seq::<A>::empty()) by {
            reveal(Seq::filter);
        }
        assert(Multiset::<A>::empty().add(Multiset::empty()) =~= Multiset::empty());
    } else {
        let t = s.drop_last();
        let x = s.last();
        assert(t.push(x) =~= s);
        lemma_filter_disjoint_union(t, p, q, pq);
        t.lemma_filter_push(x, p);
        t.lemma_filter_push(x, q);
        t.lemma_filter_push(x, pq);
        vstd::seq_lib::to_multiset_build(t.filter(p), x);
        vstd::seq_lib::to_multiset_build(t.filter(q), x);
        vstd::seq_lib::to_multiset_build(t.filter(pq), x);
        assert(s.filter(pq).to_multiset() =~= s.filter(p).to_multiset().add(s.filter(q).to_multiset()));
    }
}

proof fn lemma_filter_all<A>(s: Seq<A>, p: spec_fn(A) -> bool)
    requires
        forall|i: int| 0 <= i < s.len() ==> p(s[i]),
    ensures
        s.filter(p) == s,
    decreases s.len(),
{
    if s.len() == 0 {
        assert(s.filter(p) =~= s) by {
            reveal(Seq::filter);
        }
    } else {
        let t = s.drop_last();
        assert(t.push(s.last()) =~= s);
        lemma_filter_all(t, p);
        t.lemma_filter_push(s.last(), p);
    }
}

#[verifier::rlimit(40)]
proof fn lemma_union_prefix(f: Seq<ProcessInfoView>, gs: Seq<ProcessGroupView>, n: int)
    requires
        owners_distinct(gs),
        forall|g: int| 0 <= g < gs.len() ==> (#[trigger] gs[g]).processes.to_multiset() == members(f, gs[g].browser_pid).to_multiset(),
        0 <= n <= gs.len(),
    ensures
        members_union(gs.subrange(0, n)) == f.filter(owned_among(f, gs, n)).to_multiset(),
    decreases n,
{
    if n == 0 {
        lemma_filter_empty(f, owned_among(f, gs, 0));
        assert(members_union(gs.subrange(0, 0)) =~= f.filter(owned_among(f, gs, 0)).to_multiset());
    } else {
        let m = n - 1;
        lemma_union_prefix(f, gs, m);
        let k = gs[m].browser_pid;
        let p = owned_among(f, gs, m);
        let q = in_group(f, k);
        let pq = owned_among(f, gs, n);
        lemma_owned_step(f, gs, m);
        lemma_filter_disjoint_union(f, p, q, pq);
        assert(gs.subrange(0, n).drop_last() =~= gs.subrange(0, m));
        assert(gs.subrange(0, n).last() == gs[m]);
        assert(gs[m].processes.to_multiset() == f.filter(q).to_multiset());
    }
}

/// No two groups share an owner.
pub open spec fn owners_distinct(gs: Seq<ProcessGroupView>) -> bool {
    forall|g1: int, g2: int|
        0 <= g1 < gs.len() && 0 <= g2 < gs.len() && gs[g1].browser_pid == gs[g2].browser_pid ==> g1 == g2
}

proof fn lemma_owned_step(f: Seq<ProcessInfoView>, gs: Seq<ProcessGroupView>, m: int)
    requires
        owners_distinct(gs),
        0 <= m < gs.len(),
    ensures
        forall|x: ProcessInfoView| #[trigger] owned_among(f, gs, m + 1)(x) == (owned_among(f, gs, m)(x)
            || in_group(f, gs[m].browser_pid)(x)),
        forall|x: ProcessInfoView| !(#[trigger] owned_among(f, gs, m)(x) && in_group(f, gs[m].browser_pid)(x)),
{
    let n = m + 1;
        let k = gs[m].browser_pid;
        let p = owned_among(f, gs, m);
        let q = in_group(f, k);
        let pq = owned_among(f, gs, n);
        assert forall|x: ProcessInfoView| #[trigger] pq(x) == (p(x) || q(x)) by {
            if pq(x) {
                let g = choose|g: int| 0 <= g < n && gs[g].browser_pid == group_key(f, x.pid);
                if g < m {
                    assert(p(x));
                }
            }
            if p(x) {
                let g = choose|g: int| 0 <= g < m && gs[g].browser_pid == group_key(f, x.pid);
                assert(pq(x));
            }
            if q(x) {
                assert(gs[m].browser_pid == group_key(f, x.pid));
                assert(pq(x));
            }
        }
        assert forall|x: ProcessInfoView| !(#[trigger] p(x) && q(x)) by {
            if p(x) && q(x) {
                let g = choose|g: int| 0 <= g < m && gs[g].browser_pid == group_key(f, x.pid);
                assert(gs[g].browser_pid == gs[m].browser_pid);
            }
        }
}

/// The groups of a listing together hold exactly the family: no record is
/// left out, none is added, and none is repeated.
pub proof fn lemma_groups_partition_family(
    f: Seq<ProcessInfoView>,
    hosts: Seq<HostProcessView>,
    gs: Seq<ProcessGroupView>,
)
    requires
        is_listing_of(f, hosts, gs),
    ensures
        members_union(gs) == f.to_multiset(),
{
    assert forall|g1: int, g2: int|
        0 <= g1 < gs.len() && 0 <= g2 < gs.len() && gs[g1].browser_pid == gs[g2].browser_pid implies g1
        == g2 by {
        lemma_owners_distinct(f, hosts, gs, g1, g2);
    }
    assert forall|g: int| 0 <= g < gs.len() implies (#[trigger] gs[g]).processes.to_multiset() == members(
        f,
        gs[g].browser_pid,
    ).to_multiset() by {
        assert(is_group_of(f, hosts, gs[g]));
    }
    lemma_union_prefix(f, gs, gs.len() as int);
    assert(gs.subrange(0, gs.len() as int) =~= gs);
    assert forall|i: int| 0 <= i < f.len() implies #[trigger] owned_among(f, gs, gs.len() as int)(
        f[i],
    ) by {
        assert(lists_owner(gs, group_key(f, f[i].pid)));
    }
    lemma_filter_all(f, owned_among(f, gs, gs.len() as int));
}

proof fn lemma_filter_empty<A>(s: Seq<A>, p: spec_fn(A) -> bool)
    requires
        forall|x: A| !#[trigger] p(x),
    ensures
        s.filter(p) =~= Seq::<A>::empty(),
    decreases s.len(),
{
    if s.len() == 0 {
        reveal(Seq::filter);
    } else {
        let t = s.drop_last();
        assert(t.push(s.last()) =~= s);
        lemma_filter_empty(t, p);
        t.lemma_filter_push(s.last(), p);
    }
}

} // verus!
