//! Classification of one process from its command line and executable path:
//! its role, the kind of instance it belongs to, the page it shows and the
//! release channel of its executable.
use vstd::prelude::*;
use vstd::string::*;
use crate::text::{
    chars_of, contains, find, find_char_from, find_char_in, find_in, lemma_find_char_from,
    lemma_find_contains, lemma_find_from, lower_of, occurs_at, slice_string, starts_with,
    str_contains, strip_prefix, to_lower,
};

verus! {

/// The views of a list of strings.
pub open spec fn arg_views(args: Seq<String>) -> Seq<Seq<char>> {
    args.map_values(|a: String| a@)
}

/// The arguments joined with one space between neighbours.
pub open spec fn join_args(args: Seq<Seq<char>>) -> Seq<char>
    decreases args.len(),
{
    if args.len() == 0 {
        Seq::empty()
    } else if args.len() == 1 {
        args[0]
    } else {
        join_args(args.drop_last()) + seq![' '] + args.last()
    }
}

/// The value of the first `--type=` switch in a joined command line: what
/// follows it up to the next space or the end.
pub open spec fn type_value(joined: Seq<char>) -> Seq<char> {
    let start = find(joined, "--type="@).unwrap() + "--type="@.len();
    let end = match find_char_from(joined, ' ', start) {
        Some(e) => e,
        None => joined.len() as int,
    };
    joined.subrange(start, end)
}

/// The role label of a process whose joined command line is `joined`.
pub open spec fn role_label(joined: Seq<char>) -> Seq<char> {
    if contains(joined, "--type=renderer"@) {
        if contains(joined, "--extension-process"@) {
            "Extension"@
        } else {
            "Renderer"@
        }
    } else if contains(joined, "--type=gpu-process"@) {
        "GPU"@
    } else if contains(joined, "--type=utility"@) {
        "Utility"@
    } else if contains(joined, "--type=crashpad-handler"@) {
        "Crashpad"@
    } else if contains(joined, "--type=ppapi"@) {
        "Plugin"@
    } else if contains(joined, "--type=broker"@) {
        "Broker"@
    } else if !contains(joined, "--type="@) {
        "Browser"@
    } else {
        type_value(joined)
    }
}

/// The command line names the assistant.
pub open spec fn has_assistant_marker(args_lower: Seq<char>) -> bool {
    contains(args_lower, "copilot"@) || contains(args_lower, "m365"@)
}

/// The command line or executable marks an embedded webview.
pub open spec fn has_webview_marker(args_lower: Seq<char>, exe_lower: Seq<char>) -> bool {
    contains(args_lower, "--webview-exe-name"@) || contains(args_lower, "--embedded-browser-webview"@)
        || contains(exe_lower, "webview2"@) || contains(args_lower, "--webview2"@)
}

/// The instance type, from the lower-cased joined command line and executable path.
pub open spec fn instance_label(args_lower: Seq<char>, exe_lower: Seq<char>) -> Seq<char> {
    if has_webview_marker(args_lower, exe_lower) {
        if has_assistant_marker(args_lower) {
            "Copilot"@
        } else {
            "WebView2"@
        }
    } else if has_assistant_marker(args_lower) {
        "Copilot"@
    } else {
        "Browser"@
    }
}

/// The page a process shows: the first argument that is an http(s) URL, or
/// the value of the first `--app=` argument, whichever comes first.
pub open spec fn url_of(args: Seq<Seq<char>>) -> Seq<char>
    decreases args.len(),
{
    if args.len() == 0 {
        Seq::empty()
    } else if starts_with(args[0], "http://"@) || starts_with(args[0], "https://"@) {
        args[0]
    } else if starts_with(args[0], "--app="@) {
        args[0].subrange("--app="@.len() as int, args[0].len() as int)
    } else {
        url_of(args.drop_first())
    }
}

/// The release channel, from the lower-cased executable path.
pub open spec fn channel_label(exe_lower: Seq<char>) -> Seq<char> {
    if contains(exe_lower, "edge sxs"@) || contains(exe_lower, "canary"@) {
        "Canary"@
    } else if contains(exe_lower, "edge dev"@) {
        "Dev"@
    } else if contains(exe_lower, "edge beta"@) {
        "Beta"@
    } else if contains(exe_lower, "\\out\\"@) {
        "Local Build"@
    } else {
        "Stable"@
    }
}

/// The arguments joined with single spaces.
pub fn join_args_exec(args: &[String]) -> (r: String)
    ensures
        r@ == join_args(arg_views(args@)),
{
    let mut s = String::new();
    let mut i: usize = 0;
    proof {
        reveal_strlit(" ");
        assert(arg_views(args@).subrange(0, 0) =~= Seq::<Seq<char>>::empty());
    }
    while i < args.len()
        invariant
            i <= args.len(),
            s@ == join_args(arg_views(args@).subrange(0, i as int)),
        decreases args.len() - i,
    {
        let ghost before = arg_views(args@).subrange(0, i as int);
        let ghost after = arg_views(args@).subrange(0, i + 1);
        let ghost s0 = s@;
        proof {
            reveal_strlit(" ");
        }
        assert(after.drop_last() =~= before);
        assert(after.last() == args@[i as int]@);
        if i > 0 {
            s.append(" ");
            s.append(args[i].as_str());
            assert(s@ =~= s0 + seq![' '] + args@[i as int]@);
        } else {
            s.append(args[i].as_str());
            assert(s@ =~= args@[i as int]@);
        }
        i = i + 1;
    }
    assert(arg_views(args@).subrange(0, args@.len() as int) =~= arg_views(args@));
    s
}

fn mentions(j: &Vec<char>, needle: &str) -> (r: bool)
    ensures
        r == contains(j@, needle@),
{
    let n = chars_of(needle);
    proof {
        lemma_find_contains(j@, needle@);
    }
    find_in(j, &n, 0).is_some()
}

/// The role of a process, read from the `--type=` switch of its command line.
pub fn detect_process_type(cmd_args: &[String]) -> (r: String)
    ensures
        r@ == role_label(join_args(arg_views(cmd_args@))),
{
    let joined = join_args_exec(cmd_args);
    let j = chars_of(joined.as_str());
    if mentions(&j, "--type=renderer") {
        if mentions(&j, "--extension-process") {
            "Extension".to_string()
        } else {
            "Renderer".to_string()
        }
    } else if mentions(&j, "--type=gpu-process") {
        "GPU".to_string()
    } else if mentions(&j, "--type=utility") {
        "Utility".to_string()
    } else if mentions(&j, "--type=crashpad-handler") {
        "Crashpad".to_string()
    } else if mentions(&j, "--type=ppapi") {
        "Plugin".to_string()
    } else if mentions(&j, "--type=broker") {
        "Broker".to_string()
    } else if !mentions(&j, "--type=") {
        "Browser".to_string()
    } else {
        let flag = chars_of("--type=");
        proof {
            lemma_find_contains(j@, "--type="@);
        }
        proof {
            lemma_find_from(j@, "--type="@, 0);
        }
        let found = find_in(&j, &flag, 0);
        let at = match found {
            Some(a) => a,
            None => 0,
        };
        assert(find(j@, "--type="@) == Some(at as int));
        let total = j.len();
        assert(at + flag@.len() <= total);
        let start = at + flag.len();
        let end = match find_char_in(&j, ' ', start) {
            Some(e) => e,
            None => j.len(),
        };
        proof {
            lemma_find_char_from(j@, ' ', start as int);
        }
        slice_string(joined.as_str(), start, end)
    }
}

/// The instance type from an already lower-cased joined command line and
/// executable path.
pub fn instance_type_from_lowercase(args_lower: &str, exe_lower: &str) -> (r: String)
    ensures
        r@ == instance_label(args_lower@, exe_lower@),
{
    let webview = str_contains(args_lower, "--webview-exe-name") || str_contains(
        args_lower,
        "--embedded-browser-webview",
    ) || str_contains(exe_lower, "webview2") || str_contains(args_lower, "--webview2");
    let assistant = str_contains(args_lower, "copilot") || str_contains(args_lower, "m365");
    if webview {
        if assistant {
            "Copilot".to_string()
        } else {
            "WebView2".to_string()
        }
    } else if assistant {
        "Copilot".to_string()
    } else {
        "Browser".to_string()
    }
}

/// Whether a process belongs to an embedded webview, the assistant, or an
/// ordinary browser; markers are matched without regard to case.
pub fn detect_instance_type(cmd_args: &[String], exe_path: &str) -> (r: String)
    ensures
        r@ == instance_label(lower_of(join_args(arg_views(cmd_args@))), lower_of(exe_path@)),
{
    let joined = join_args_exec(cmd_args);
    let lower = to_lower(joined.as_str());
    let exe_lower = to_lower(exe_path);
    instance_type_from_lowercase(lower.as_str(), exe_lower.as_str())
}

/// The page a renderer shows, taken from its command line; empty when none is named.
pub fn extract_url(cmd_args: &[String]) -> (r: String)
    ensures
        r@ == url_of(arg_views(cmd_args@)),
{
    let mut i: usize = 0;
    assert(arg_views(cmd_args@).subrange(0, cmd_args@.len() as int) =~= arg_views(cmd_args@));
    while i < cmd_args.len()
        invariant
            i <= cmd_args.len(),
            url_of(arg_views(cmd_args@)) == url_of(
                arg_views(cmd_args@).subrange(i as int, cmd_args@.len() as int),
            ),
        decreases cmd_args.len() - i,
    {
        let ghost rest = arg_views(cmd_args@).subrange(i as int, cmd_args@.len() as int);
        assert(rest.drop_first() =~= arg_views(cmd_args@).subrange(i + 1, cmd_args@.len() as int));
        assert(rest[0] == cmd_args@[i as int]@);
        let arg = cmd_args[i].as_str();
        if crate::text::str_starts_with(arg, "http://") || crate::text::str_starts_with(
            arg,
            "https://",
        ) {
            return arg.to_string();
        }
        match strip_prefix(arg, "--app=") {
            Some(url) => {
                return url;
            },
            None => {},
        }
        i = i + 1;
    }
    String::new()
}

/// The release channel from an already lower-cased executable path.
pub fn channel_from_lowercase(exe_lower: &str) -> (r: String)
    ensures
        r@ == channel_label(exe_lower@),
{
    if str_contains(exe_lower, "edge sxs") || str_contains(exe_lower, "canary") {
        "Canary".to_string()
    } else if str_contains(exe_lower, "edge dev") {
        "Dev".to_string()
    } else if str_contains(exe_lower, "edge beta") {
        "Beta".to_string()
    } else if str_contains(exe_lower, "\\out\\") {
        "Local Build".to_string()
    } else {
        "Stable".to_string()
    }
}

/// The release channel of a browser executable, matched without regard to case.
pub fn detect_channel(exe_path: &str) -> (r: String)
    ensures
        r@ == channel_label(lower_of(exe_path@)),
{
    let lower = to_lower(exe_path);
    channel_from_lowercase(lower.as_str())
}

/// `n` holds a space.
pub open spec fn has_space(n: Seq<char>) -> bool {
    exists|i: int| 0 <= i < n.len() && n[i] == ' '
}

/// Some argument contains `n`.
pub open spec fn some_arg_contains(a: Seq<Seq<char>>, n: Seq<char>) -> bool {
    exists|k: int| 0 <= k < a.len() && contains(a[k], n)
}

proof fn lemma_contains_split(x: Seq<char>, y: Seq<char>, n: Seq<char>)
    requires
        n.len() > 0,
        !has_space(n),
    ensures
        contains(x + seq![' '] + y, n) <==> contains(x, n) || contains(y, n),
{
    let z = x + seq![' '] + y;
    if contains(z, n) {
        let i = choose|i: int| occurs_at(z, n, i);
        if i + n.len() <= x.len() {
            assert(x.subrange(i, i + n.len()) =~= z.subrange(i, i + n.len()));
            assert(occurs_at(x, n, i));
        } else if i > x.len() {
            let j = i - x.len() - 1;
            assert(y.subrange(j, j + n.len()) =~= z.subrange(i, i + n.len()));
            assert(occurs_at(y, n, j));
        } else {
            assert(z[x.len() as int] == ' ');
            assert(z.subrange(i, i + n.len())[x.len() - i] == z[x.len() as int]);
            assert(n[x.len() - i] == ' ');
        }
    }
    if contains(x, n) {
        let i = choose|i: int| occurs_at(x, n, i);
        assert(z.subrange(i, i + n.len()) =~= x.subrange(i, i + n.len()));
        assert(occurs_at(z, n, i));
    }
    if contains(y, n) {
        let j = choose|j: int| occurs_at(y, n, j);
        let i = j + x.len() + 1;
        assert(z.subrange(i, i + n.len()) =~= y.subrange(j, j + n.len()));
        assert(occurs_at(z, n, i));
    }
}

/// A text without spaces occurs in a joined command line exactly when it
/// occurs in one of the arguments.
pub proof fn lemma_contains_join(a: Seq<Seq<char>>, n: Seq<char>)
    requires
        n.len() > 0,
        !has_space(n),
    ensures
        contains(join_args(a), n) <==> some_arg_contains(a, n),
    decreases a.len(),
{
    if a.len() == 0 {
        if contains(join_args(a), n) {
            let i = choose|i: int| occurs_at(join_args(a), n, i);
        }
    } else if a.len() == 1 {
        if some_arg_contains(a, n) {
            let k = choose|k: int| 0 <= k < a.len() && contains(a[k], n);
            assert(k == 0);
        }
    } else {
        let p = a.drop_last();
        lemma_contains_join(p, n);
        lemma_contains_split(join_args(p), a.last(), n);
        if some_arg_contains(a, n) {
            let k = choose|k: int| 0 <= k < a.len() && contains(a[k], n);
            if k < a.len() - 1 {
                assert(p[k] == a[k]);
            }
        }
        if some_arg_contains(p, n) {
            let k = choose|k: int| 0 <= k < p.len() && contains(p[k], n);
            assert(a[k] == p[k]);
        }
        if contains(a.last(), n) {
            assert(contains(a[a.len() - 1], n));
        }
    }
}

proof fn lemma_some_arg_permutation(a: Seq<Seq<char>>, b: Seq<Seq<char>>, n: Seq<char>)
    requires
        a.to_multiset() == b.to_multiset(),
    ensures
        some_arg_contains(a, n) <==> some_arg_contains(b, n),
{
    if some_arg_contains(a, n) {
        let k = choose|k: int| 0 <= k < a.len() && contains(a[k], n);
        vstd::seq_lib::to_multiset_contains(a, a[k]);
        vstd::seq_lib::to_multiset_contains(b, a[k]);
        assert(a.contains(a[k]));
        let j = choose|j: int| 0 <= j < b.len() && b[j] == a[k];
    }
    if some_arg_contains(b, n) {
        let k = choose|k: int| 0 <= k < b.len() && contains(b[k], n);
        vstd::seq_lib::to_multiset_contains(b, b[k]);
        vstd::seq_lib::to_multiset_contains(a, b[k]);
        assert(b.contains(b[k]));
        let j = choose|j: int| 0 <= j < a.len() && a[j] == b[k];
    }
}

proof fn lemma_find_is(s: Seq<char>, n: Seq<char>, i: int)
    requires
        occurs_at(s, n, i),
        forall|j: int| 0 <= j < i ==> !occurs_at(s, n, j),
    ensures
        find(s, n) == Some(i),
{
    lemma_find_from(s, n, 0);
    if find(s, n) is None {
        assert(!occurs_at(s, n, i));
    } else {
        let k = find(s, n).unwrap();
        if k < i {
            assert(!occurs_at(s, n, k));
        } else if k > i {
            assert(!occurs_at(s, n, i));
        }
    }
}

proof fn lemma_find_char_is(s: Seq<char>, c: char, from: int, i: int)
    requires
        0 <= from <= i < s.len(),
        s[i] == c,
        forall|j: int| from <= j < i ==> s[j] != c,
    ensures
        find_char_from(s, c, from) == Some(i),
{
    lemma_find_char_from(s, c, from);
    if find_char_from(s, c, from) is None {
        assert(s[i] != c);
    } else {
        let k = find_char_from(s, c, from).unwrap();
        if k < i {
            assert(s[k] != c);
        } else if k > i {
            assert(s[i] != c);
        }
    }
}

proof fn lemma_find_char_none(s: Seq<char>, c: char, from: int)
    requires
        0 <= from,
        forall|j: int| from <= j < s.len() ==> s[j] != c,
    ensures
        find_char_from(s, c, from) is None,
{
    lemma_find_char_from(s, c, from);
    if find_char_from(s, c, from) is Some {
        let k = find_char_from(s, c, from).unwrap();
        assert(s[k] != c);
    }
}

/// The switch's value is read in the first argument when that argument holds it.
proof fn lemma_type_value_left(x: Seq<char>, y: Seq<char>)
    requires
        contains(x, "--type="@),
    ensures
        type_value(x + seq![' '] + y) == type_value(x),
{
    let n = "--type="@;
    let z = x + seq![' '] + y;
    crate::text::lemma_find_contains(x, n);
    lemma_find_from(x, n, 0);
    let p = find(x, n).unwrap();
    assert(z.subrange(p, p + n.len()) =~= x.subrange(p, p + n.len()));
    assert(occurs_at(x, n, p));
    assert forall|j: int| 0 <= j < p implies !occurs_at(z, n, j) by {
        assert(!occurs_at(x, n, j));
        assert(z.subrange(j, j + n.len()) =~= x.subrange(j, j + n.len()));
    }
    lemma_find_is(z, n, p);
    let start = p + n.len();
    lemma_find_char_from(x, ' ', start);
    match find_char_from(x, ' ', start) {
        Some(e) => {
            lemma_find_char_is(z, ' ', start, e);
            assert(z.subrange(start, e) =~= x.subrange(start, e));
        },
        None => {
            assert(z[x.len() as int] == ' ');
            lemma_find_char_is(z, ' ', start, x.len() as int);
            assert(z.subrange(start, x.len() as int) =~= x.subrange(start, x.len() as int));
        },
    }
}

/// The switch's value is read in the second argument when only it holds it.
proof fn lemma_type_value_right(x: Seq<char>, y: Seq<char>)
    requires
        !contains(x, "--type="@),
        contains(y, "--type="@),
    ensures
        type_value(x + seq![' '] + y) == type_value(y),
{
    let n = "--type="@;
    reveal_strlit("--type=");
    let z = x + seq![' '] + y;
    crate::text::lemma_find_contains(y, n);
    lemma_find_from(y, n, 0);
    let p = find(y, n).unwrap();
    let off = x.len() + 1;
    assert(z.subrange(off + p, off + p + n.len()) =~= y.subrange(p, p + n.len()));
    assert forall|j: int| 0 <= j < off + p implies !occurs_at(z, n, j) by {
        if j + n.len() <= x.len() {
            assert(z.subrange(j, j + n.len()) =~= x.subrange(j, j + n.len()));
            assert(!occurs_at(x, n, j));
        } else if j > x.len() {
            assert(z.subrange(j, j + n.len()) =~= y.subrange(j - off, j - off + n.len()));
            assert(!occurs_at(y, n, j - off));
        } else {
            if occurs_at(z, n, j) {
                assert(z.subrange(j, j + n.len())[x.len() - j] == z[x.len() as int]);
                assert(n[x.len() - j] == ' ');
            }
        }
    }
    lemma_find_is(z, n, off + p);
    let start = p + n.len();
    lemma_find_char_from(y, ' ', start);
    match find_char_from(y, ' ', start) {
        Some(e) => {
            lemma_find_char_is(z, ' ', off + start, off + e);
            assert(z.subrange(off + start, off + e) =~= y.subrange(start, e));
        },
        None => {
            lemma_find_char_none(z, ' ', off + start);
            assert(z.subrange(off + start, z.len() as int) =~= y.subrange(start, y.len() as int));
        },
    }
}

/// The switch's value in a joined command line is the one in the first
/// argument that holds the switch.
proof fn lemma_type_value_join(a: Seq<Seq<char>>, k: int)
    requires
        0 <= k < a.len(),
        contains(a[k], "--type="@),
        forall|j: int| 0 <= j < k ==> !contains(a[j], "--type="@),
    ensures
        type_value(join_args(a)) == type_value(a[k]),
    decreases a.len(),
{
    if a.len() > 1 {
        let p = a.drop_last();
        let n = "--type="@;
        reveal_strlit("--type=");
        assert(!has_space(n)) by {
            if has_space(n) {
                let i = choose|i: int| 0 <= i < n.len() && n[i] == ' ';
            }
        }
        lemma_contains_join(p, n);
        if k < a.len() - 1 {
            assert(p[k] == a[k]);
            lemma_type_value_join(p, k);
            assert(some_arg_contains(p, n));
            lemma_type_value_left(join_args(p), a.last());
        } else {
            assert(!some_arg_contains(p, n)) by {
                if some_arg_contains(p, n) {
                    let j = choose|j: int| 0 <= j < p.len() && contains(p[j], n);
                    assert(p[j] == a[j]);
                }
            }
            lemma_type_value_right(join_args(p), a.last());
        }
    }
}

/// The first argument that holds `n`, when one does.
proof fn lemma_first_holding(a: Seq<Seq<char>>, n: Seq<char>) -> (k: int)
    requires
        some_arg_contains(a, n),
    ensures
        0 <= k < a.len(),
        contains(a[k], n),
        forall|j: int| 0 <= j < k ==> !contains(a[j], n),
    decreases a.len(),
{
    if contains(a[0], n) {
        0
    } else {
        let w = choose|w: int| 0 <= w < a.len() && contains(a[w], n);
        let r = a.drop_first();
        assert(contains(r[w - 1], n));
        let k = lemma_first_holding(r, n);
        assert forall|j: int| 0 <= j < k + 1 implies !contains(a[j], n) by {
            if j > 0 {
                assert(a[j] == r[j - 1]);
            }
        }
        k + 1
    }
}

proof fn lemma_type_value_permutation(a: Seq<Seq<char>>, b: Seq<Seq<char>>)
    requires
        a.to_multiset() == b.to_multiset(),
        forall|i: int, j: int|
            0 <= i < a.len() && 0 <= j < a.len() && contains(a[i], "--type="@) && contains(
                a[j],
                "--type="@,
            ) ==> i == j,
        contains(join_args(a), "--type="@),
    ensures
        type_value(join_args(a)) == type_value(join_args(b)),
{
    let n = "--type="@;
    reveal_strlit("--type=");
    assert(!has_space(n)) by {
        if has_space(n) {
            let i = choose|i: int| 0 <= i < n.len() && n[i] == ' ';
        }
    }
    lemma_contains_join(a, n);
    lemma_some_arg_permutation(a, b, n);
    let ka = lemma_first_holding(a, n);
    let kb = lemma_first_holding(b, n);
    lemma_type_value_join(a, ka);
    lemma_type_value_join(b, kb);
    vstd::seq_lib::to_multiset_contains(b, b[kb]);
    vstd::seq_lib::to_multiset_contains(a, b[kb]);
    assert(b.contains(b[kb]));
    let i = choose|i: int| 0 <= i < a.len() && a[i] == b[kb];
    assert(i == ka);
}

/// The role of a command line depends only on which arguments it has, not on
/// their order, when at most one argument carries a `--type=` switch.
pub proof fn lemma_role_order_independent(a: Seq<Seq<char>>, b: Seq<Seq<char>>)
    requires
        a.to_multiset() == b.to_multiset(),
        forall|i: int, j: int|
            0 <= i < a.len() && 0 <= j < a.len() && contains(a[i], "--type="@) && contains(
                a[j],
                "--type="@,
            ) ==> i == j,
    ensures
        role_label(join_args(a)) == role_label(join_args(b)),
{
    let needles = seq![
        "--type=renderer"@,
        "--extension-process"@,
        "--type=gpu-process"@,
        "--type=utility"@,
        "--type=crashpad-handler"@,
        "--type=ppapi"@,
        "--type=broker"@,
        "--type="@,
    ];
    reveal_strlit("--type=renderer");
    reveal_strlit("--extension-process");
    reveal_strlit("--type=gpu-process");
    reveal_strlit("--type=utility");
    reveal_strlit("--type=crashpad-handler");
    reveal_strlit("--type=ppapi");
    reveal_strlit("--type=broker");
    reveal_strlit("--type=");
    assert forall|m: int| 0 <= m < needles.len() implies contains(join_args(a), #[trigger] needles[m])
        == contains(join_args(b), needles[m]) by {
        let n = needles[m];
        assert(n.len() > 0);
        assert(!has_space(n)) by {
            if has_space(n) {
                let i = choose|i: int| 0 <= i < n.len() && n[i] == ' ';
            }
        }
        lemma_contains_join(a, n);
        lemma_contains_join(b, n);
        lemma_some_arg_permutation(a, b, n);
    }
    assert(contains(join_args(a), needles[0]) == contains(join_args(b), needles[0]));
    assert(contains(join_args(a), needles[1]) == contains(join_args(b), needles[1]));
    assert(contains(join_args(a), needles[2]) == contains(join_args(b), needles[2]));
    assert(contains(join_args(a), needles[3]) == contains(join_args(b), needles[3]));
    assert(contains(join_args(a), needles[4]) == contains(join_args(b), needles[4]));
    assert(contains(join_args(a), needles[5]) == contains(join_args(b), needles[5]));
    assert(contains(join_args(a), needles[6]) == contains(join_args(b), needles[6]));
    assert(contains(join_args(a), needles[7]) == contains(join_args(b), needles[7]));
    if contains(join_args(a), "--type="@) {
        lemma_type_value_permutation(a, b);
    }
}

} // verus!
