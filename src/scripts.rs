//! User scripts and their schedules: the built-in scripts, the arguments that
//! register a schedule with the Windows task scheduler, and the reading of a
//! task's status report.
use vstd::prelude::*;
use vstd::string::*;
use crate::http::{decimal_of, push_decimal};
use crate::ports::{trim_set, trimmed, TrimSet};
use crate::text::{
    chars_of, find_char_from, find_char_in, join_strings, string_views, join_with, lemma_find_char_from, lines_in,
    lines_of, slice_string, starts_with, strip_prefix,
};

verus! {

/// When a script runs on its own.
pub struct ScheduleConfig {
    pub enabled: bool,
    /// `hourly`, `daily` or `weekly`.
    pub cadence: String,
    /// The start time, `HH:MM`.
    pub time: String,
    /// The days of a weekly schedule, such as `MON`.
    pub days_of_week: Vec<String>,
    /// Every how many hours, days or weeks.
    pub interval: u32,
    /// `YYYY-MM-DD`; today when absent.
    pub start_date: Option<String>,
    /// `YYYY-MM-DD`; open-ended when absent.
    pub end_date: Option<String>,
}

/// A command the user keeps at hand.
pub struct ScriptDef {
    pub id: String,
    pub name: String,
    pub description: String,
    pub command: String,
    pub args: Vec<String>,
    pub working_dir: Option<String>,
    pub schedule: Option<ScheduleConfig>,
}

/// What one run of a script produced.
pub struct ScriptResult {
    pub id: String,
    pub exit_code: Option<i32>,
    pub stdout: String,
    pub stderr: String,
    pub duration_ms: u64,
}

/// What the task scheduler reports of a script's task.
pub struct TaskStatus {
    pub exists: bool,
    pub status: String,
    pub next_run: String,
    pub last_run: String,
    pub last_result: String,
}

/// The views of a list of strings.
pub open spec fn text_views(v: Seq<String>) -> Seq<Seq<char>> {
    string_views(v)
}

/// The name of the scheduled task of the script `id`.
pub open spec fn task_name_of(id: Seq<char>) -> Seq<char> {
    "EdgeUtilities\\Script_"@ + id
}

/// A `YYYY-MM-DD` date as `MM/DD/YYYY`: a text with exactly two dashes has
/// its three parts reordered; any other text is kept.
pub open spec fn schtasks_date(s: Seq<char>) -> Seq<char> {
    match find_char_from(s, '-', 0) {
        Some(a) => match find_char_from(s, '-', a + 1) {
            Some(b) => match find_char_from(s, '-', b + 1) {
                Some(_) => s,
                None => s.subrange(a + 1, b) + "/"@ + s.subrange(b + 1, s.len() as int) + "/"@
                    + s.subrange(0, a),
            },
            None => s,
        },
        None => s,
    }
}

/// The name of the scheduled task of a script.
pub fn task_name_for_script(script_id: &str) -> (r: String)
    ensures
        r@ == task_name_of(script_id@),
{
    let mut s = "EdgeUtilities\\Script_".to_string();
    s.append(script_id);
    s
}

/// A `YYYY-MM-DD` date in the `MM/DD/YYYY` form the task scheduler takes.
pub fn convert_date_to_schtasks(iso_date: &str) -> (r: String)
    ensures
        r@ == schtasks_date(iso_date@),
{
    let cs = chars_of(iso_date);
    proof {
        lemma_find_char_from(cs@, '-', 0);
    }
    let a = match find_char_in(&cs, '-', 0) {
        Some(a) => a,
        None => {
            return iso_date.to_string();
        },
    };
    proof {
        lemma_find_char_from(cs@, '-', a + 1);
    }
    let b = match find_char_in(&cs, '-', a + 1) {
        Some(b) => b,
        None => {
            return iso_date.to_string();
        },
    };
    proof {
        lemma_find_char_from(cs@, '-', b + 1);
    }
    if find_char_in(&cs, '-', b + 1).is_some() {
        return iso_date.to_string();
    }
    let n = cs.len();
    let mut s = slice_string(iso_date, a + 1, b);
    s.append("/");
    let day = slice_string(iso_date, b + 1, n);
    s.append(day.as_str());
    s.append("/");
    let year = slice_string(iso_date, 0, a);
    s.append(year.as_str());
    s
}

/// One built-in script.
pub open spec fn script_is(
    s: ScriptDef,
    id: Seq<char>,
    name: Seq<char>,
    description: Seq<char>,
    command: Seq<char>,
    args: Seq<Seq<char>>,
) -> bool {
    &&& s.id@ == id
    &&& s.name@ == name
    &&& s.description@ == description
    &&& s.command@ == command
    &&& text_views(s.args@) == args
    &&& s.working_dir is None
    &&& s.schedule is None
}

fn texts(items: &[&str]) -> (r: Vec<String>)
    ensures
        text_views(r@) == items@.map_values(|s: &str| s@),
{
    let mut out: Vec<String> = Vec::new();
    let mut i: usize = 0;
    while i < items.len()
        invariant
            i <= items.len(),
            text_views(out@) == items@.subrange(0, i as int).map_values(|s: &str| s@),
        decreases items.len() - i,
    {
        let ghost prev = text_views(out@);
        let item: &str = items[i];
        let t = item.to_owned();
        out.push(t);
        assert(text_views(out@) =~= prev.push(t@));
        assert(items@.subrange(0, i + 1).map_values(|s: &str| s@) =~= items@.subrange(0, i as int).map_values(|s: &str| s@).push(items@[i as int]@));
        i = i + 1;
    }
    assert(items@.subrange(0, items@.len() as int) =~= items@);
    out
}

fn plain_script(id: &str, name: &str, description: &str, command: &str, args: Vec<String>) -> (r: ScriptDef)
    ensures
        script_is(r, id@, name@, description@, command@, text_views(args@)),
{
    ScriptDef {
        id: id.to_string(),
        name: name.to_string(),
        description: description.to_string(),
        command: command.to_string(),
        args,
        working_dir: None,
        schedule: None,
    }
}

/// The scripts offered before the user saves any; the disk-space script
/// differs between Windows and other systems.
pub fn default_scripts(windows: bool) -> (r: Vec<ScriptDef>)
    ensures
        r@.len() == 3,
        script_is(r@[0], "1"@, "Git Status"@, "Show current git status"@, "git"@, seq!["status"@]),
        script_is(
            r@[1],
            "2"@,
            "Git Fetch Origin Main"@,
            "Fetch latest from origin main branch"@,
            "git"@,
            seq!["fetch"@, "origin"@, "main"@],
        ),
        windows ==> script_is(
            r@[2],
            "3"@,
            "Check Disk Space"@,
            "Show free disk space"@,
            "cmd"@,
            seq!["/C"@, "wmic"@, "logicaldisk"@, "get"@, "size,freespace,caption"@],
        ),
        !windows ==> script_is(r@[2], "3"@, "Check Disk Space"@, "Show free disk space"@, "df"@, seq!["-h"@]),
{
    let mut out: Vec<ScriptDef> = Vec::new();
    let a0 = texts(&["status"]);
    assert(text_views(a0@) =~= seq!["status"@]);
    out.push(plain_script("1", "Git Status", "Show current git status", "git", a0));
    let a1 = texts(&["fetch", "origin", "main"]);
    assert(text_views(a1@) =~= seq!["fetch"@, "origin"@, "main"@]);
    out.push(plain_script("2", "Git Fetch Origin Main", "Fetch latest from origin main branch", "git", a1));
    if windows {
        let a2 = texts(&["/C", "wmic", "logicaldisk", "get", "size,freespace,caption"]);
        assert(text_views(a2@) =~= seq!["/C"@, "wmic"@, "logicaldisk"@, "get"@, "size,freespace,caption"@]);
        out.push(plain_script("3", "Check Disk Space", "Show free disk space", "cmd", a2));
    } else {
        let a2 = texts(&["-h"]);
        assert(text_views(a2@) =~= seq!["-h"@]);
        out.push(plain_script("3", "Check Disk Space", "Show free disk space", "df", a2));
    }
    out
}

/// The command a task runs: the command, then its arguments separated by spaces.
pub open spec fn command_line(command: Seq<char>, args: Seq<Seq<char>>) -> Seq<char> {
    if args.len() == 0 {
        command
    } else {
        command + " "@ + join_with(args, " "@)
    }
}

/// What the task scheduler runs: the command under `cmd.exe`, after a change
/// to the working directory when one is given.
pub open spec fn task_run_text(line: Seq<char>, working_dir: Option<Seq<char>>) -> Seq<char> {
    match working_dir {
        Some(wd) => if wd.len() > 0 {
            "cmd.exe /C cd /d \""@ + wd + "\" & "@ + line
        } else {
            "cmd.exe /C "@ + line
        },
        None => "cmd.exe /C "@ + line,
    }
}

/// The repetition arguments of a cadence, none for an unknown cadence; the
/// interval is at least one.
pub open spec fn cadence_args(cadence: Seq<char>, days: Seq<Seq<char>>, interval: u32) -> Option<Seq<Seq<char>>> {
    let every = decimal_of(if interval < 1 { 1 } else { interval as nat });
    if cadence == "hourly"@ {
        Some(seq!["/SC"@, "HOURLY"@, "/MO"@, every])
    } else if cadence == "daily"@ {
        Some(seq!["/SC"@, "DAILY"@, "/MO"@, every])
    } else if cadence == "weekly"@ {
        Some(seq!["/SC"@, "WEEKLY"@] + (if days.len() > 0 {
            seq!["/D"@, join_with(days, ","@)]
        } else {
            Seq::empty()
        }) + seq!["/MO"@, every])
    } else {
        None
    }
}

/// A date argument when the date is given and not empty.
pub open spec fn date_args(flag: Seq<char>, date: Option<Seq<char>>) -> Seq<Seq<char>> {
    match date {
        Some(d) => if d.len() > 0 {
            seq![flag, schtasks_date(d)]
        } else {
            Seq::empty()
        },
        None => Seq::empty(),
    }
}

/// The scheduler arguments that create or replace the task of `script` with
/// schedule `sc`; none for an unknown cadence.
pub open spec fn create_args(script: ScriptDef, sc: ScheduleConfig) -> Option<Seq<Seq<char>>> {
    let run = task_run_text(
        command_line(script.command@, text_views(script.args@)),
        crate::cdp::opt_text(script.working_dir),
    );
    match cadence_args(sc.cadence@, text_views(sc.days_of_week@), sc.interval) {
        Some(rep) => Some(
            seq!["/Create"@, "/TN"@, task_name_of(script.id@), "/TR"@, run, "/F"@] + rep + seq![
                "/ST"@,
                sc.time@,
            ] + date_args("/SD"@, crate::cdp::opt_text(sc.start_date)) + date_args(
                "/ED"@,
                crate::cdp::opt_text(sc.end_date),
            ),
        ),
        None => None,
    }
}

/// What keeping a script's task in step with its schedule takes.
pub enum TaskSync {
    /// No schedule: remove any task of the script.
    Remove,
    /// A disabled schedule: disable the task.
    Disable,
    /// Create or replace the task with these scheduler arguments.
    Create(Vec<String>),
    /// The schedule's cadence is none of hourly, daily and weekly.
    UnknownCadence,
}

fn push_text(v: &mut Vec<String>, s: &str)
    ensures
        text_views(final(v)@) == text_views(old(v)@).push(s@),
{
    let ghost prev = text_views(v@);
    v.push(s.to_owned());
    assert(text_views(v@) =~= prev.push(s@));
}

fn push_string(v: &mut Vec<String>, s: String)
    ensures
        text_views(final(v)@) == text_views(old(v)@).push(s@),
{
    let ghost prev = text_views(v@);
    let ghost sv = s@;
    v.push(s);
    assert(text_views(v@) =~= prev.push(sv));
}

fn decimal_text(n: u64) -> (r: String)
    ensures
        r@ == decimal_of(n as nat),
{
    let mut s = String::new();
    push_decimal(&mut s, n);
    assert(s@ =~= decimal_of(n as nat));
    s
}

/// The repetition arguments of a schedule; see `cadence_args`.
fn cadence_args_of(sc: &ScheduleConfig) -> (r: Option<Vec<String>>)
    ensures
        r matches Some(v) ==> cadence_args(sc.cadence@, text_views(sc.days_of_week@), sc.interval) == Some(text_views(v@)),
        r is None ==> cadence_args(sc.cadence@, text_views(sc.days_of_week@), sc.interval) is None,
{
    let every: u64 = if sc.interval < 1 {
        1
    } else {
        sc.interval as u64
    };
    let e = decimal_text(every);
    let ghost ev = e@;
    assert(ev == decimal_of(if sc.interval < 1 { 1 } else { sc.interval as nat }));
    let mut rep: Vec<String> = Vec::new();
    let cadence = &sc.cadence;
    if *cadence == "hourly".to_string() || *cadence == "daily".to_string() {
        push_text(&mut rep, "/SC");
        if *cadence == "hourly".to_string() {
            push_text(&mut rep, "HOURLY");
        } else {
            push_text(&mut rep, "DAILY");
        }
        push_text(&mut rep, "/MO");
        push_string(&mut rep, e);
        assert(text_views(rep@) =~= seq!["/SC"@, if sc.cadence@ == "hourly"@ { "HOURLY"@ } else { "DAILY"@ }, "/MO"@, ev]);
        Some(rep)
    } else if *cadence == "weekly".to_string() {
        push_text(&mut rep, "/SC");
        push_text(&mut rep, "WEEKLY");
        let ghost days_part: Seq<Seq<char>> = Seq::empty();
        if sc.days_of_week.len() > 0 {
            push_text(&mut rep, "/D");
            let joined = join_strings(sc.days_of_week.as_slice(), ",");
            proof {
                days_part = seq!["/D"@, joined@];
            }
            push_string(&mut rep, joined);
        }
        assert(text_views(rep@) =~= seq!["/SC"@, "WEEKLY"@] + days_part);
        push_text(&mut rep, "/MO");
        push_string(&mut rep, e);
        assert(text_views(rep@) =~= seq!["/SC"@, "WEEKLY"@] + days_part + seq!["/MO"@, ev]);
        Some(rep)
    } else {
        None
    }
}

/// What the task runs; see `task_run_text`.
fn task_run_of(script: &ScriptDef) -> (r: String)
    ensures
        r@ == task_run_text(command_line(script.command@, text_views(script.args@)), crate::cdp::opt_text(script.working_dir)),
{
    let mut line = script.command.clone();
    if script.args.len() > 0 {
        line.append(" ");
        let joined = join_strings(script.args.as_slice(), " ");
        line.append(joined.as_str());
    }
    let mut run = "cmd.exe /C ".to_string();
    match &script.working_dir {
        Some(wd) => {
            if wd.unicode_len() > 0 {
                run = "cmd.exe /C cd /d \"".to_string();
                run.append(wd.as_str());
                run.append("\" & ");
            }
        },
        None => {},
    }
    run.append(line.as_str());
    run
}

/// Appends the date arguments; see `date_args`.
fn push_date_args(args: &mut Vec<String>, flag: &str, date: &Option<String>)
    ensures
        text_views(final(args)@) == text_views(old(args)@) + date_args(flag@, crate::cdp::opt_text(*date)),
{
    let ghost before = text_views(args@);
    match date {
        Some(d) => {
            if d.unicode_len() > 0 {
                push_text(args, flag);
                push_string(args, convert_date_to_schtasks(d.as_str()));
            }
        },
        None => {},
    }
    assert(text_views(args@) =~= before + date_args(flag@, crate::cdp::opt_text(*date)));
}

/// What keeping the script's task in step with its schedule takes.
pub fn plan_task_sync(script: &ScriptDef) -> (r: TaskSync)
    ensures
        script.schedule is None ==> r is Remove,
        script.schedule matches Some(sc) ==> (!sc.enabled ==> r is Disable),
        script.schedule matches Some(sc) ==> (sc.enabled ==> match create_args(*script, sc) {
            Some(args) => r matches TaskSync::Create(v) && text_views(v@) == args,
            None => r is UnknownCadence,
        }),
{
    let sc = match &script.schedule {
        None => {
            return TaskSync::Remove;
        },
        Some(sc) => sc,
    };
    if !sc.enabled {
        return TaskSync::Disable;
    }
    let rep = match cadence_args_of(sc) {
        Some(rep) => rep,
        None => {
            return TaskSync::UnknownCadence;
        },
    };
    let mut args: Vec<String> = Vec::new();
    push_text(&mut args, "/Create");
    push_text(&mut args, "/TN");
    push_string(&mut args, task_name_for_script(script.id.as_str()));
    push_text(&mut args, "/TR");
    push_string(&mut args, task_run_of(script));
    push_text(&mut args, "/F");
    let ghost head = text_views(args@);
    let mut k: usize = 0;
    while k < rep.len()
        invariant
            k <= rep@.len(),
            text_views(args@) == head + text_views(rep@).subrange(0, k as int),
        decreases rep.len() - k,
    {
        push_text(&mut args, rep[k].as_str());
        assert(text_views(rep@).subrange(0, k + 1) =~= text_views(rep@).subrange(0, k as int).push(rep@[k as int]@));
        k = k + 1;
    }
    assert(text_views(rep@).subrange(0, rep@.len() as int) =~= text_views(rep@));
    push_text(&mut args, "/ST");
    push_string(&mut args, sc.time.clone());
    push_date_args(&mut args, "/SD", &sc.start_date);
    push_date_args(&mut args, "/ED", &sc.end_date);
    assert(text_views(args@) =~= create_args(*script, *sc).unwrap());
    TaskSync::Create(args)
}

/// The value that a status report gives for `key`: the rest of the first
/// line that, trimmed, starts with the key, itself trimmed; empty when no
/// line does.
pub open spec fn report_field(lines: Seq<Seq<char>>, key: Seq<char>) -> Seq<char>
    decreases lines.len(),
{
    if lines.len() == 0 {
        Seq::empty()
    } else {
        let t = trimmed(lines[0], TrimSet::Whitespace);
        if starts_with(t, key) {
            trimmed(t.subrange(key.len() as int, t.len() as int), TrimSet::Whitespace)
        } else {
            report_field(lines.drop_first(), key)
        }
    }
}

/// The value a status report gives for `key`; see `report_field`.
pub fn extract_report_field(report: &str, key: &str) -> (r: String)
    ensures
        r@ == report_field(lines_of(report@), key@),
{
    let lines = lines_in(report);
    let ghost lv = string_views(lines@);
    let mut i: usize = 0;
    assert(lv.subrange(0, lv.len() as int) =~= lv);
    while i < lines.len()
        invariant
            i <= lines@.len(),
            lv == string_views(lines@),
            lv == lines_of(report@),
            report_field(lv, key@) == report_field(lv.subrange(i as int, lv.len() as int), key@),
        decreases lines.len() - i,
    {
        let ghost rest = lv.subrange(i as int, lv.len() as int);
        assert(rest.drop_first() =~= lv.subrange(i + 1, lv.len() as int));
        assert(rest[0] == lines@[i as int]@);
        let t = trim_set(lines[i].as_str(), TrimSet::Whitespace);
        match strip_prefix(t.as_str(), key) {
            Some(value) => {
                assert(report_field(rest, key@) == trimmed(
                    t@.subrange(key@.len() as int, t@.len() as int),
                    TrimSet::Whitespace,
                ));
                return trim_set(value.as_str(), TrimSet::Whitespace);
            },
            None => {},
        }
        i = i + 1;
    }
    String::new()
}

/// The status of a script's task from the scheduler's verbose report; a
/// failed query means there is no task.
pub fn task_status_from_report(query_succeeded: bool, report: &str) -> (r: TaskStatus)
    ensures
        !query_succeeded ==> !r.exists && r.status@ == "Not scheduled"@ && r.next_run@.len() == 0
            && r.last_run@.len() == 0 && r.last_result@.len() == 0,
        query_succeeded ==> r.exists && r.status@ == report_field(lines_of(report@), "Status:"@)
            && r.next_run@ == report_field(lines_of(report@), "Next Run Time:"@) && r.last_run@
            == report_field(lines_of(report@), "Last Run Time:"@) && r.last_result@ == report_field(
            lines_of(report@),
            "Last Result:"@,
        ),
{
    if !query_succeeded {
        return TaskStatus {
            exists: false,
            status: "Not scheduled".to_string(),
            next_run: String::new(),
            last_run: String::new(),
            last_result: String::new(),
        };
    }
    TaskStatus {
        exists: true,
        status: extract_report_field(report, "Status:"),
        next_run: extract_report_field(report, "Next Run Time:"),
        last_run: extract_report_field(report, "Last Run Time:"),
        last_result: extract_report_field(report, "Last Result:"),
    }
}

} // verus!
