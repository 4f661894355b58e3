//! Source checkouts of the browser: what marks one, the recent commits that
//! `git log` reports, and where the branch left the main line.
use vstd::prelude::*;
use vstd::string::*;
use crate::ports::{trim_set, trimmed, TrimSet};
use crate::text::{
    chars_of, starts_with, strip_prefix, find, find_char_from, find_char_in, find_in, lemma_find_char_from, lemma_find_from, lines_in, lines_of,
    slice_string, string_views,
};

verus! {

/// A source checkout and what it holds.
pub struct RepoInfo {
    pub path: String,
    pub current_branch: String,
    pub out_dirs: Vec<OutDir>,
    pub recent_commits: Vec<CommitInfo>,
    /// Where the merge base with the main line stands in `recent_commits`.
    pub merge_base_index: Option<usize>,
}

/// A build output directory of a checkout.
pub struct OutDir {
    pub name: String,
    pub path: String,
    pub has_args_gn: bool,
    pub has_msedge: bool,
}

/// One commit as `git log` describes it.
pub struct CommitInfo {
    pub hash: String,
    pub short_hash: String,
    pub subject: String,
    pub author: String,
    pub date: String,
}

/// The fields of a commit, in log order.
pub open spec fn commit_fields(c: CommitInfo) -> Seq<Seq<char>> {
    seq![c.hash@, c.short_hash@, c.subject@, c.author@, c.date@]
}

/// The five `|`-separated fields of a log line: the first four end at the
/// first four bars, the last takes the rest; none with fewer than four bars.
pub open spec fn log_fields(line: Seq<char>) -> Option<Seq<Seq<char>>> {
    match find_char_from(line, '|', 0) {
        None => None,
        Some(a) => match find_char_from(line, '|', a + 1) {
            None => None,
            Some(b) => match find_char_from(line, '|', b + 1) {
                None => None,
                Some(c) => match find_char_from(line, '|', c + 1) {
                    None => None,
                    Some(d) => Some(
                        seq![
                            line.subrange(0, a),
                            line.subrange(a + 1, b),
                            line.subrange(b + 1, c),
                            line.subrange(c + 1, d),
                            line.subrange(d + 1, line.len() as int),
                        ],
                    ),
                },
            },
        },
    }
}

/// The commits described by the lines that have five fields, in order.
pub open spec fn logged_commits(lines: Seq<Seq<char>>) -> Seq<Seq<Seq<char>>>
    decreases lines.len(),
{
    if lines.len() == 0 {
        Seq::empty()
    } else {
        match log_fields(lines.last()) {
            Some(f) => logged_commits(lines.drop_last()).push(f),
            None => logged_commits(lines.drop_last()),
        }
    }
}

/// The first commit whose hash is `hash`.
pub open spec fn commit_index_from(commits: Seq<CommitInfo>, hash: Seq<char>, from: int) -> Option<int>
    decreases commits.len() - from,
{
    if from < 0 || from >= commits.len() {
        None
    } else if commits[from].hash@ == hash {
        Some(from)
    } else {
        commit_index_from(commits, hash, from + 1)
    }
}

/// A directory is a browser checkout when it has a top-level build file and
/// either a browser-specific directory or a client file in its parent.
pub fn is_edge_repo(has_build_gn: bool, has_edge_dir: bool, has_gclient_in_parent: bool) -> (r: bool)
    ensures
        r == (has_build_gn && (has_edge_dir || has_gclient_in_parent)),
{
    has_build_gn && (has_edge_dir || has_gclient_in_parent)
}

/// The five fields of a log line; see `log_fields`.
fn split_log_line(line: &str) -> (r: Option<Vec<String>>)
    ensures
        r matches Some(v) ==> v@.len() == 5 && log_fields(line@) == Some(string_views(v@)),
        r is None ==> log_fields(line@) is None,
{
    let cs = chars_of(line);
    let n = cs.len();
    proof {
        lemma_find_char_from(cs@, '|', 0);
    }
    let a = match find_char_in(&cs, '|', 0) {
        Some(x) => x,
        None => {
            return None;
        },
    };
    proof {
        lemma_find_char_from(cs@, '|', a + 1);
    }
    let b = match find_char_in(&cs, '|', a + 1) {
        Some(x) => x,
        None => {
            return None;
        },
    };
    proof {
        lemma_find_char_from(cs@, '|', b + 1);
    }
    let c = match find_char_in(&cs, '|', b + 1) {
        Some(x) => x,
        None => {
            return None;
        },
    };
    proof {
        lemma_find_char_from(cs@, '|', c + 1);
    }
    let d = match find_char_in(&cs, '|', c + 1) {
        Some(x) => x,
        None => {
            return None;
        },
    };
    let mut v: Vec<String> = Vec::new();
    v.push(slice_string(line, 0, a));
    v.push(slice_string(line, a + 1, b));
    v.push(slice_string(line, b + 1, c));
    v.push(slice_string(line, c + 1, d));
    v.push(slice_string(line, d + 1, n));
    assert(string_views(v@) =~= log_fields(line@).unwrap());
    Some(v)
}

/// The commits that `git log --format=%H|%h|%s|%an|%ad` printed, skipping
/// lines without five fields.
pub fn get_recent_commits(log_output: &str) -> (r: Vec<CommitInfo>)
    ensures
        r@.map_values(|c: CommitInfo| commit_fields(c)) == logged_commits(lines_of(log_output@)),
{
    let lines = lines_in(log_output);
    let ghost lv = string_views(lines@);
    let mut out: Vec<CommitInfo> = Vec::new();
    let mut i: usize = 0;
    assert(lv.subrange(0, 0) =~= Seq::<Seq<char>>::empty());
    while i < lines.len()
        invariant
            i <= lines@.len(),
            lv == string_views(lines@),
            lv == lines_of(log_output@),
            out@.map_values(|c: CommitInfo| commit_fields(c)) == logged_commits(lv.subrange(0, i as int)),
        decreases lines.len() - i,
    {
        let ghost prev = out@.map_values(|c: CommitInfo| commit_fields(c));
        assert(lv.subrange(0, i + 1).drop_last() =~= lv.subrange(0, i as int));
        assert(lv.subrange(0, i + 1).last() == lines@[i as int]@);
        match split_log_line(lines[i].as_str()) {
            Some(f) => {
                let hash = f[0].clone();
                let short_hash = f[1].clone();
                let subject = f[2].clone();
                let author = f[3].clone();
                let date = f[4].clone();
                assert(string_views(f@)[0] == f@[0]@ && string_views(f@)[4] == f@[4]@);
                let c = CommitInfo { hash, short_hash, subject, author, date };
                out.push(c);
                assert(out@.map_values(|c: CommitInfo| commit_fields(c)) =~= prev.push(commit_fields(c)));
                assert(commit_fields(c) =~= log_fields(lines@[i as int]@).unwrap());
            },
            None => {},
        }
        i = i + 1;
    }
    assert(lv.subrange(0, lines@.len() as int) =~= lv);
    out
}

/// Where the merge base that `git merge-base` printed stands among the
/// recent commits: the first commit whose hash is that output, trimmed.
pub fn find_merge_base_index(commits: &[CommitInfo], merge_base_output: &str) -> (r: Option<usize>)
    ensures
        r matches Some(i) ==> commit_index_from(commits@, trimmed(merge_base_output@, TrimSet::Whitespace), 0)
            == Some(i as int),
        r is None ==> commit_index_from(commits@, trimmed(merge_base_output@, TrimSet::Whitespace), 0) is None,
{
    let hash = trim_set(merge_base_output, TrimSet::Whitespace);
    let mut i: usize = 0;
    while i < commits.len()
        invariant
            i <= commits@.len(),
            hash@ == trimmed(merge_base_output@, TrimSet::Whitespace),
            commit_index_from(commits@, hash@, 0) == commit_index_from(commits@, hash@, i as int),
        decreases commits.len() - i,
    {
        if commits[i].hash == hash {
            return Some(i);
        }
        i = i + 1;
    }
    None
}

/// The build targets offered for a checkout.
pub fn get_common_build_targets() -> (r: Vec<String>)
    ensures
        string_views(r@) == seq![
            "chrome"@,
            "content_shell"@,
            "unit_tests"@,
            "browser_tests"@,
            "blink_tests"@,
            "content_unittests"@,
            "media_unittests"@,
            "webrtc_internals_test_utils"@,
            "base_unittests"@,
            "net_unittests"@,
            "components_unittests"@,
            "mini_installer"@,
        ],
{
    let r = vec![
        "chrome".to_string(),
        "content_shell".to_string(),
        "unit_tests".to_string(),
        "browser_tests".to_string(),
        "blink_tests".to_string(),
        "content_unittests".to_string(),
        "media_unittests".to_string(),
        "webrtc_internals_test_utils".to_string(),
        "base_unittests".to_string(),
        "net_unittests".to_string(),
        "components_unittests".to_string(),
        "mini_installer".to_string(),
    ];
    assert(string_views(r@) =~= seq![
        "chrome"@,
        "content_shell"@,
        "unit_tests"@,
        "browser_tests"@,
        "blink_tests"@,
        "content_unittests"@,
        "media_unittests"@,
        "webrtc_internals_test_utils"@,
        "base_unittests"@,
        "net_unittests"@,
        "components_unittests"@,
        "mini_installer"@,
    ]);
    r
}

/// What the files of an interactive rebase hold, as read (empty when unreadable).
pub struct RebaseFiles {
    pub head_name: String,
    pub msgnum: String,
    pub end: String,
}

/// What was found in a checkout's git directory and in git's answers.
pub struct GitFacts {
    /// What `git branch --show-current` printed; empty when it failed.
    pub branch_output: String,
    pub merge_head: bool,
    /// Present when an interactive rebase is under way.
    pub rebase_merge: Option<RebaseFiles>,
    /// The branch file of a plain rebase, when one is under way.
    pub rebase_apply_head: Option<String>,
    pub cherry_pick_head: bool,
    pub revert_head: bool,
    pub bisect_log: bool,
    /// What `git rev-parse --short HEAD` printed; `unknown` when it failed.
    pub short_sha_output: String,
}

/// `s` with every occurrence of `pat` removed, scanning from the left.
pub open spec fn remove_all(s: Seq<char>, pat: Seq<char>) -> Seq<char>
    decreases s.len(),
{
    if pat.len() == 0 {
        s
    } else {
        match find(s, pat) {
            None => s,
            Some(i) => if 0 <= i && i + pat.len() <= s.len() {
                s.subrange(0, i) + remove_all(s.subrange(i + pat.len(), s.len() as int), pat)
            } else {
                s
            },
        }
    }
}

/// A branch file's content as a branch name.
pub open spec fn branch_name(raw: Seq<char>) -> Seq<char> {
    remove_all(trimmed(raw, TrimSet::Whitespace), "refs/heads/"@)
}

/// The label of a checkout's state: the branch, with a merge in progress
/// noted; else the operation that left HEAD detached; else the commit.
pub open spec fn git_state_text(f: GitFacts) -> Seq<char> {
    let branch = trimmed(f.branch_output@, TrimSet::Whitespace);
    if branch.len() > 0 {
        if f.merge_head {
            branch + " (merge in progress)"@
        } else {
            branch
        }
    } else {
        match f.rebase_merge {
            Some(files) => {
                let head = branch_name(files.head_name@);
                let step = trimmed(files.msgnum@, TrimSet::Whitespace);
                let total = trimmed(files.end@, TrimSet::Whitespace);
                if head.len() > 0 && step.len() > 0 {
                    head + " (rebase "@ + step + "/"@ + total + ")"@
                } else if head.len() == 0 {
                    "HEAD (rebasing)"@
                } else {
                    head + " (rebasing)"@
                }
            },
            None => match f.rebase_apply_head {
                Some(raw) => {
                    let head = branch_name(raw@);
                    (if head.len() == 0 {
                        "HEAD"@
                    } else {
                        head
                    }) + " (rebase-apply)"@
                },
                None => if f.merge_head {
                    "HEAD (merge in progress)"@
                } else if f.cherry_pick_head {
                    "HEAD (cherry-pick)"@
                } else if f.revert_head {
                    "HEAD (revert)"@
                } else if f.bisect_log {
                    "HEAD (bisecting)"@
                } else {
                    "HEAD detached at "@ + trimmed(f.short_sha_output@, TrimSet::Whitespace)
                },
            },
        }
    }
}

/// `s` with every occurrence of `pat` removed; see `remove_all`.
pub fn remove_all_of(s: &str, pat: &str) -> (r: String)
    ensures
        r@ == remove_all(s@, pat@),
{
    let cs = chars_of(s);
    let ps = chars_of(pat);
    let n = cs.len();
    if ps.len() == 0 {
        return s.to_string();
    }
    let mut out = String::new();
    let mut pos: usize = 0;
    assert(s@.subrange(0, n as int) =~= s@);
    while pos <= n
        invariant
            pos <= n,
            n == s@.len(),
            cs@ == s@,
            ps@ == pat@,
            pat@.len() > 0,
            remove_all(s@, pat@) == out@ + remove_all(s@.subrange(pos as int, n as int), pat@),
        decreases n - pos,
    {
        let ghost rest = s@.subrange(pos as int, n as int);
        let found = find_in(&cs, &ps, pos);
        proof {
            crate::text::lemma_find_shift(s@, pat@, pos as int, 0);
        }
        match found {
            None => {
                let tail = slice_string(s, pos, n);
                out.append(tail.as_str());
                assert(remove_all(rest, pat@) == rest);
                return out;
            },
            Some(i) => {
                proof {
                    lemma_find_from(cs@, pat@, pos as int);
                    assert(find(rest, pat@) == Some(i - pos));
                    assert(rest.subrange(0, i - pos) =~= s@.subrange(pos as int, i as int));
                    assert(rest.subrange(i - pos + pat@.len(), rest.len() as int) =~= s@.subrange(i + pat@.len(), n as int));
                }
                let piece = slice_string(s, pos, i);
                out.append(piece.as_str());
                pos = i + ps.len();
            },
        }
    }
    out
}

/// The label of a checkout's state; see `git_state_text`.
pub fn git_state_label(f: &GitFacts) -> (r: String)
    ensures
        r@ == git_state_text(*f),
{
    let branch = trim_set(f.branch_output.as_str(), TrimSet::Whitespace);
    if branch.unicode_len() > 0 {
        let mut r = branch;
        if f.merge_head {
            r.append(" (merge in progress)");
        }
        return r;
    }
    match &f.rebase_merge {
        Some(files) => {
            let trimmed_head = trim_set(files.head_name.as_str(), TrimSet::Whitespace);
            let head = remove_all_of(trimmed_head.as_str(), "refs/heads/");
            let step = trim_set(files.msgnum.as_str(), TrimSet::Whitespace);
            let total = trim_set(files.end.as_str(), TrimSet::Whitespace);
            if head.unicode_len() > 0 && step.unicode_len() > 0 {
                let mut r = head;
                r.append(" (rebase ");
                r.append(step.as_str());
                r.append("/");
                r.append(total.as_str());
                r.append(")");
                r
            } else if head.unicode_len() == 0 {
                "HEAD (rebasing)".to_string()
            } else {
                let mut r = head;
                r.append(" (rebasing)");
                r
            }
        },
        None => match &f.rebase_apply_head {
            Some(raw) => {
                let trimmed_head = trim_set(raw.as_str(), TrimSet::Whitespace);
                let head = remove_all_of(trimmed_head.as_str(), "refs/heads/");
                let mut r = if head.unicode_len() == 0 {
                    "HEAD".to_string()
                } else {
                    head
                };
                r.append(" (rebase-apply)");
                r
            },
            None => {
                if f.merge_head {
                    "HEAD (merge in progress)".to_string()
                } else if f.cherry_pick_head {
                    "HEAD (cherry-pick)".to_string()
                } else if f.revert_head {
                    "HEAD (revert)".to_string()
                } else if f.bisect_log {
                    "HEAD (bisecting)".to_string()
                } else {
                    let mut r = "HEAD detached at ".to_string();
                    let sha = trim_set(f.short_sha_output.as_str(), TrimSet::Whitespace);
                    r.append(sha.as_str());
                    r
                }
            },
        },
    }
}

/// Where a worktree's `.git` file points: what follows `gitdir: ` in its
/// trimmed content.
pub open spec fn gitdir_target(content: Seq<char>) -> Option<Seq<char>> {
    let t = trimmed(content, TrimSet::Whitespace);
    if starts_with(t, "gitdir: "@) {
        Some(t.subrange("gitdir: "@.len() as int, t.len() as int))
    } else {
        None
    }
}

/// Where a worktree's `.git` file points; see `gitdir_target`.
pub fn gitdir_target_of(content: &str) -> (r: Option<String>)
    ensures
        r matches Some(t) ==> gitdir_target(content@) == Some(t@),
        r is None ==> gitdir_target(content@) is None,
{
    let t = trim_set(content, TrimSet::Whitespace);
    strip_prefix(t.as_str(), "gitdir: ")
}

} // verus!
