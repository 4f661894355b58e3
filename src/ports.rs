//! Resolution of the local debugging port of a browser instance from its
//! command line or from the port file in its data directory.
use vstd::prelude::*;
use crate::classify::{arg_views, detect_process_type, join_args, role_label};
use crate::grouping::{host_views, is_family, HostProcess, HostProcessView};
use crate::text::{
    chars_of, find_char_from, find_char_in, lemma_find_char_from, slice_string, starts_with, str_contains,
    strip_prefix, to_lower,
};

verus! {

/// Which characters a trim removes from both ends.
pub enum TrimSet {
    /// The double quote.
    Quote,
    /// Unicode white space.
    Whitespace,
}

/// Unicode white space, as `char::is_whitespace` defines it.
pub open spec fn is_white(c: char) -> bool {
    ('\u{9}' <= c && c <= '\u{d}') || c == ' ' || c == '\u{85}' || c == '\u{a0}' || c == '\u{1680}'
        || ('\u{2000}' <= c && c <= '\u{200a}') || c == '\u{2028}' || c == '\u{2029}' || c
        == '\u{202f}' || c == '\u{205f}' || c == '\u{3000}'
}

pub open spec fn in_trim_set(set: TrimSet, c: char) -> bool {
    match set {
        TrimSet::Quote => c == '"',
        TrimSet::Whitespace => is_white(c),
    }
}

/// `s` without the characters of `set` at either end.
pub open spec fn trimmed(s: Seq<char>, set: TrimSet) -> Seq<char>
    decreases s.len(),
{
    if s.len() == 0 {
        s
    } else if in_trim_set(set, s[0]) {
        trimmed(s.drop_first(), set)
    } else if in_trim_set(set, s.last()) {
        trimmed(s.drop_last(), set)
    } else {
        s
    }
}

pub open spec fn is_digit(c: char) -> bool {
    '0' <= c && c <= '9'
}

/// The value of a string of decimal digits.
pub open spec fn digits_value(s: Seq<char>) -> nat
    decreases s.len(),
{
    if s.len() == 0 {
        0
    } else {
        (digits_value(s.drop_last()) * 10 + (s.last() as int - '0' as int)) as nat
    }
}

/// The digits of an unsigned decimal literal: an optional `+` sign dropped.
pub open spec fn unsigned_digits(s: Seq<char>) -> Seq<char> {
    if s.len() > 0 && s[0] == '+' {
        s.drop_first()
    } else {
        s
    }
}

/// What `str::parse::<u16>` gives: a non-empty run of decimal digits, after
/// an optional `+`, whose value fits in 16 bits.
pub open spec fn parse_u16(s: Seq<char>) -> Option<u16> {
    let d = unsigned_digits(s);
    if d.len() > 0 && (forall|i: int| 0 <= i < d.len() ==> is_digit(d[i])) && digits_value(d) <= 65535 {
        Some(digits_value(d) as u16)
    } else {
        None
    }
}

/// The port an argument names, when it is `--remote-debugging-port=` with a
/// non-zero 16-bit number.
pub open spec fn port_arg_value(arg: Seq<char>) -> Option<u16> {
    if starts_with(arg, "--remote-debugging-port="@) {
        match parse_u16(arg.subrange("--remote-debugging-port="@.len() as int, arg.len() as int)) {
            Some(p) => if p > 0 {
                Some(p)
            } else {
                None
            },
            None => None,
        }
    } else {
        None
    }
}

/// The port named by the first argument for which `port_arg_value` gives one.
pub open spec fn debugging_port_of(args: Seq<Seq<char>>) -> Option<u16>
    decreases args.len(),
{
    if args.len() == 0 {
        None
    } else {
        match port_arg_value(args[0]) {
            Some(p) => Some(p),
            None => debugging_port_of(args.drop_first()),
        }
    }
}

/// The data directory named by the first `--user-data-dir=` argument, quotes trimmed.
pub open spec fn user_data_dir_of(args: Seq<Seq<char>>) -> Option<Seq<char>>
    decreases args.len(),
{
    if args.len() == 0 {
        None
    } else if starts_with(args[0], "--user-data-dir="@) {
        Some(trimmed(args[0].subrange("--user-data-dir="@.len() as int, args[0].len() as int), TrimSet::Quote))
    } else {
        user_data_dir_of(args.drop_first())
    }
}

/// The first line of a text, without its line ending; none for an empty text.
pub open spec fn first_line(s: Seq<char>) -> Option<Seq<char>> {
    if s.len() == 0 {
        None
    } else {
        let end = match find_char_from(s, '\n', 0) {
            Some(e) => e,
            None => s.len() as int,
        };
        let line = s.subrange(0, end);
        Some(
            if line.len() > 0 && line.last() == '\r' {
                line.drop_last()
            } else {
                line
            },
        )
    }
}

/// The port recorded in a port file: its first line, trimmed, as a number.
pub open spec fn active_port_of(contents: Seq<char>) -> Option<u16> {
    match first_line(contents) {
        Some(line) => parse_u16(trimmed(line, TrimSet::Whitespace)),
        None => None,
    }
}

fn in_set(set: &TrimSet, c: char) -> (r: bool)
    ensures
        r == in_trim_set(*set, c),
{
    match set {
        TrimSet::Quote => c == '"',
        TrimSet::Whitespace => ('\u{9}' <= c && c <= '\u{d}') || c == ' ' || c == '\u{85}' || c
            == '\u{a0}' || c == '\u{1680}' || ('\u{2000}' <= c && c <= '\u{200a}') || c == '\u{2028}'
            || c == '\u{2029}' || c == '\u{202f}' || c == '\u{205f}' || c == '\u{3000}',
    }
}

/// `s` without the characters of `set` at either end.
pub fn trim_set(s: &str, set: TrimSet) -> (r: String)
    ensures
        r@ == trimmed(s@, set),
{
    let cs = chars_of(s);
    let mut lo: usize = 0;
    let mut hi: usize = cs.len();
    assert(cs@.subrange(0, cs@.len() as int) =~= cs@);
    while lo < hi && in_set(&set, cs[lo])
        invariant
            lo <= hi <= cs@.len(),
            cs@ == s@,
            trimmed(s@, set) == trimmed(cs@.subrange(lo as int, hi as int), set),
        decreases hi - lo,
    {
        assert(cs@.subrange(lo as int, hi as int).drop_first() =~= cs@.subrange(lo + 1, hi as int));
        lo = lo + 1;
    }
    while lo < hi && in_set(&set, cs[hi - 1])
        invariant
            lo <= hi <= cs@.len(),
            cs@ == s@,
            lo < hi ==> !in_trim_set(set, cs@[lo as int]),
            trimmed(s@, set) == trimmed(cs@.subrange(lo as int, hi as int), set),
        decreases hi - lo,
    {
        assert(cs@.subrange(lo as int, hi as int).drop_last() =~= cs@.subrange(lo as int, hi - 1));
        hi = hi - 1;
    }
    slice_string(s, lo, hi)
}

proof fn lemma_digits_prefix(s: Seq<char>, j: int)
    requires
        0 <= j <= s.len(),
        forall|i: int| 0 <= i < s.len() ==> is_digit(s[i]),
    ensures
        digits_value(s.subrange(0, j)) <= digits_value(s),
    decreases s.len() - j,
{
    if j < s.len() {
        let a = s.subrange(0, j);
        let b = s.subrange(0, j + 1);
        assert(b.drop_last() =~= a);
        assert(digits_value(b) == digits_value(a) * 10 + (b.last() as int - '0' as int));
        lemma_digits_prefix(s, j + 1);
    } else {
        assert(s.subrange(0, j) =~= s);
    }
}

/// The number a decimal literal denotes, when it is a valid 16-bit value.
pub fn parse_port_number(s: &str) -> (r: Option<u16>)
    ensures
        r == parse_u16(s@),
{
    let cs = chars_of(s);
    let ghost d = unsigned_digits(s@);
    let mut i: usize = 0;
    if cs.len() > 0 && cs[0] == '+' {
        i = 1;
    }
    let start = i;
    assert(d =~= cs@.subrange(start as int, cs@.len() as int));
    if start == cs.len() {
        return None;
    }
    let mut value: u32 = 0;
    while i < cs.len()
        invariant
            start <= i <= cs@.len(),
            start < cs@.len(),
            cs@ == s@,
            d == cs@.subrange(start as int, cs@.len() as int),
            d == unsigned_digits(s@),
            value as nat == digits_value(cs@.subrange(start as int, i as int)),
            value <= 65535,
            forall|k: int| start <= k < i ==> is_digit(cs@[k]),
        decreases cs.len() - i,
    {
        let c = cs[i];
        if !('0' <= c && c <= '9') {
            assert(!is_digit(d[i - start]));
            assert(!(forall|k: int| 0 <= k < d.len() ==> is_digit(d[k])));
            assert(parse_u16(s@) is None);
            return None;
        }
        let digit = (c as u32) - ('0' as u32);
        let ghost before = cs@.subrange(start as int, i as int);
        assert(cs@.subrange(start as int, i + 1).drop_last() =~= before);
        let next = value * 10 + digit;
        if next > 65535 {
            proof {
                assert(digit as int == c as int - '0' as int);
                assert(digits_value(cs@.subrange(start as int, i + 1)) == value * 10 + (c as int - '0' as int));
                assert(digits_value(cs@.subrange(start as int, i + 1)) == next);
                if forall|k: int| 0 <= k < d.len() ==> is_digit(d[k]) {
                    lemma_digits_prefix(d, i + 1 - start);
                    assert(d.subrange(0, i + 1 - start) =~= cs@.subrange(start as int, i + 1));
                    assert(digits_value(d) > 65535);
                }
                assert(parse_u16(s@) is None);
            }
            return None;
        }
        value = next;
        i = i + 1;
    }
    assert(cs@.subrange(start as int, i as int) =~= d);
    Some(value as u16)
}

/// The debugging port named on a browser's command line, when it is a
/// non-zero 16-bit number.
pub fn extract_debugging_port(cmd_args: &[String]) -> (r: Option<u16>)
    ensures
        r == debugging_port_of(arg_views(cmd_args@)),
{
    let mut i: usize = 0;
    assert(arg_views(cmd_args@).subrange(0, cmd_args@.len() as int) =~= arg_views(cmd_args@));
    while i < cmd_args.len()
        invariant
            i <= cmd_args.len(),
            debugging_port_of(arg_views(cmd_args@)) == debugging_port_of(
                arg_views(cmd_args@).subrange(i as int, cmd_args@.len() as int),
            ),
        decreases cmd_args.len() - i,
    {
        let ghost rest = arg_views(cmd_args@).subrange(i as int, cmd_args@.len() as int);
        assert(rest.drop_first() =~= arg_views(cmd_args@).subrange(i + 1, cmd_args@.len() as int));
        assert(rest[0] == cmd_args@[i as int]@);
        match strip_prefix(cmd_args[i].as_str(), "--remote-debugging-port=") {
            Some(value) => {
                match parse_port_number(value.as_str()) {
                    Some(port) => {
                        if port > 0 {
                            return Some(port);
                        }
                    },
                    None => {},
                }
            },
            None => {},
        }
        i = i + 1;
    }
    None
}

/// The data directory named on a browser's command line, surrounding quotes removed.
pub fn extract_user_data_dir(cmd_args: &[String]) -> (r: Option<String>)
    ensures
        r matches Some(d) ==> user_data_dir_of(arg_views(cmd_args@)) == Some(d@),
        r is None ==> user_data_dir_of(arg_views(cmd_args@)) is None,
{
    let mut i: usize = 0;
    assert(arg_views(cmd_args@).subrange(0, cmd_args@.len() as int) =~= arg_views(cmd_args@));
    while i < cmd_args.len()
        invariant
            i <= cmd_args.len(),
            user_data_dir_of(arg_views(cmd_args@)) == user_data_dir_of(
                arg_views(cmd_args@).subrange(i as int, cmd_args@.len() as int),
            ),
        decreases cmd_args.len() - i,
    {
        let ghost rest = arg_views(cmd_args@).subrange(i as int, cmd_args@.len() as int);
        assert(rest.drop_first() =~= arg_views(cmd_args@).subrange(i + 1, cmd_args@.len() as int));
        assert(rest[0] == cmd_args@[i as int]@);
        match strip_prefix(cmd_args[i].as_str(), "--user-data-dir=") {
            Some(dir) => {
                return Some(trim_set(dir.as_str(), TrimSet::Quote));
            },
            None => {},
        }
        i = i + 1;
    }
    None
}

/// The port recorded in the contents of a data directory's port file.
pub fn active_port_from_contents(contents: &str) -> (r: Option<u16>)
    ensures
        r == active_port_of(contents@),
{
    let cs = chars_of(contents);
    if cs.len() == 0 {
        return None;
    }
    let end = match find_char_in(&cs, '\n', 0) {
        Some(e) => e,
        None => cs.len(),
    };
    proof {
        lemma_find_char_from(cs@, '\n', 0);
    }
    let mut line_end = end;
    if end > 0 && cs[end - 1] == '\r' {
        line_end = end - 1;
        assert(contents@.subrange(0, end as int).drop_last() =~= contents@.subrange(0, line_end as int));
    }
    let line = slice_string(contents, 0, line_end);
    let value = trim_set(line.as_str(), TrimSet::Whitespace);
    parse_port_number(value.as_str())
}


/// Where the debugging port of a browser instance is to be found.
pub enum PortSource {
    /// Named on its command line.
    Port(u16),
    /// Recorded in the port file of this data directory.
    DataDir(String),
}

pub enum PortSourceView {
    Port(u16),
    DataDir(Seq<char>),
}

impl View for PortSource {
    type V = PortSourceView;

    open spec fn view(&self) -> PortSourceView {
        match self {
            PortSource::Port(p) => PortSourceView::Port(*p),
            PortSource::DataDir(d) => PortSourceView::DataDir(d@),
        }
    }
}

/// Where a browser's debugging port is to be found: its command line, else
/// the port file of the data directory its command line names.
pub open spec fn port_source_of(args: Seq<Seq<char>>) -> Option<PortSourceView> {
    match debugging_port_of(args) {
        Some(p) => Some(PortSourceView::Port(p)),
        None => match user_data_dir_of(args) {
            Some(d) => Some(PortSourceView::DataDir(d)),
            None => None,
        },
    }
}

/// Where a browser's debugging port is to be found; see `port_source_of`.
pub fn port_source(cmd_args: &[String]) -> (r: Option<PortSource>)
    ensures
        r matches Some(s) ==> port_source_of(arg_views(cmd_args@)) == Some(s@),
        r is None ==> port_source_of(arg_views(cmd_args@)) is None,
{
    match extract_debugging_port(cmd_args) {
        Some(p) => Some(PortSource::Port(p)),
        None => match extract_user_data_dir(cmd_args) {
            Some(d) => Some(PortSource::DataDir(d)),
            None => None,
        },
    }
}

/// The port sources of the browser-role family processes of a snapshot, in
/// snapshot order, for those that have one.
pub open spec fn browser_port_sources_of(hosts: Seq<HostProcessView>) -> Seq<PortSourceView>
    decreases hosts.len(),
{
    if hosts.len() == 0 {
        Seq::empty()
    } else {
        let h = hosts.last();
        let earlier = browser_port_sources_of(hosts.drop_last());
        if is_family(h) && role_label(join_args(h.cmd_args)) == "Browser"@ {
            match port_source_of(h.cmd_args) {
                Some(s) => earlier.push(s),
                None => earlier,
            }
        } else {
            earlier
        }
    }
}

/// The port sources of the browser-role family processes of a snapshot; see
/// `browser_port_sources_of`.
pub fn browser_port_sources(hosts: &Vec<HostProcess>) -> (r: Vec<PortSource>)
    ensures
        r@.map_values(|s: PortSource| s@) == browser_port_sources_of(host_views(hosts@)),
{
    let ghost hv = host_views(hosts@);
    let mut out: Vec<PortSource> = Vec::new();
    let mut i: usize = 0;
    while i < hosts.len()
        invariant
            i <= hosts@.len(),
            hv == host_views(hosts@),
            out@.map_values(|s: PortSource| s@) == browser_port_sources_of(hv.subrange(0, i as int)),
        decreases hosts.len() - i,
    {
        let h = &hosts[i];
        let ghost prev = out@.map_values(|s: PortSource| s@);
        assert(hv.subrange(0, i + 1).drop_last() =~= hv.subrange(0, i as int));
        assert(hv.subrange(0, i + 1).last() == h@);
        let name_lower = to_lower(h.name.as_str());
        let exe_lower = to_lower(h.exe_path.as_str());
        let family = str_contains(name_lower.as_str(), "msedge") || str_contains(exe_lower.as_str(), "msedge");
        if family {
            let role = detect_process_type(h.cmd_args.as_slice());
            if role == "Browser".to_string() {
                match port_source(h.cmd_args.as_slice()) {
                    Some(s) => {
                        let ghost sv = s@;
                        out.push(s);
                        assert(out@.map_values(|s: PortSource| s@) =~= prev.push(sv));
                    },
                    None => {},
                }
            }
        }
        i = i + 1;
    }
    assert(hv.subrange(0, hosts@.len() as int) =~= hv);
    out
}

} // verus!
