//! Character-level text helpers shared by the classifiers and the wire-protocol code.
use vstd::prelude::*;

verus! {

/// `needle` occurs in `s` at position `i`.
pub open spec fn occurs_at<A>(s: Seq<A>, needle: Seq<A>, i: int) -> bool {
    0 <= i && i + needle.len() <= s.len() && s.subrange(i, i + needle.len()) == needle
}

/// `needle` occurs somewhere in `s`.
pub open spec fn contains<A>(s: Seq<A>, needle: Seq<A>) -> bool {
    exists|i: int| occurs_at(s, needle, i)
}

/// `s` begins with `prefix`.
pub open spec fn starts_with<A>(s: Seq<A>, prefix: Seq<A>) -> bool {
    prefix.len() <= s.len() && s.subrange(0, prefix.len() as int) == prefix
}

/// The first position at or after `from` where `needle` occurs in `s`.
pub open spec fn find_from<A>(s: Seq<A>, needle: Seq<A>, from: int) -> Option<int>
    decreases s.len() + 1 - from,
{
    if from < 0 || from + needle.len() > s.len() {
        None
    } else if occurs_at(s, needle, from) {
        Some(from)
    } else {
        find_from(s, needle, from + 1)
    }
}

/// The first position where `needle` occurs in `s`.
pub open spec fn find<A>(s: Seq<A>, needle: Seq<A>) -> Option<int> {
    find_from(s, needle, 0)
}

/// The first position at or after `from` that holds `c`.
pub open spec fn find_char_from<A>(s: Seq<A>, c: A, from: int) -> Option<int>
    decreases s.len() - from,
{
    if from < 0 || from >= s.len() {
        None
    } else if s[from] == c {
        Some(from)
    } else {
        find_char_from(s, c, from + 1)
    }
}

/// The last position that holds `c`.
pub open spec fn rfind_char<A>(s: Seq<A>, c: A) -> Option<int>
    decreases s.len(),
{
    if s.len() == 0 {
        None
    } else if s.last() == c {
        Some(s.len() - 1)
    } else {
        rfind_char(s.drop_last(), c)
    }
}

/// What `find_from` returns is an occurrence, the first one at or after `from`.
pub proof fn lemma_find_from<A>(s: Seq<A>, needle: Seq<A>, from: int)
    requires
        0 <= from,
    ensures
        find_from(s, needle, from) matches Some(i) ==> from <= i && occurs_at(s, needle, i) && (
        forall|j: int| from <= j < i ==> !occurs_at(s, needle, j)),
        find_from(s, needle, from) is None ==> forall|j: int| from <= j ==> !occurs_at(s, needle, j),
    decreases s.len() + 1 - from,
{
    if from + needle.len() > s.len() {
    } else if occurs_at(s, needle, from) {
    } else {
        lemma_find_from(s, needle, from + 1);
    }
}

/// Searching `s` from `pos + j` is searching its suffix from `pos` at `j`, shifted.
pub proof fn lemma_find_shift<A>(s: Seq<A>, needle: Seq<A>, pos: int, j: int)
    requires
        0 <= pos <= s.len(),
        0 <= j,
    ensures
        find_from(s, needle, pos + j) == match find_from(s.subrange(pos, s.len() as int), needle, j) {
            Some(k) => Some(k + pos),
            None => None,
        },
    decreases s.len() + 1 - pos - j,
{
    let sub = s.subrange(pos, s.len() as int);
    if pos + j + needle.len() <= s.len() {
        assert(sub.subrange(j, j + needle.len()) =~= s.subrange(pos + j, pos + j + needle.len()));
        if !occurs_at(s, needle, pos + j) {
            lemma_find_shift(s, needle, pos, j + 1);
        }
    }
}

/// What `rfind_char` returns holds `c`, and nothing after it does.
pub proof fn lemma_rfind_char<A>(s: Seq<A>, c: A)
    ensures
        rfind_char(s, c) matches Some(i) ==> 0 <= i < s.len() && s[i] == c && (forall|j: int|
            i < j < s.len() ==> s[j] != c),
        rfind_char(s, c) is None ==> forall|j: int| 0 <= j < s.len() ==> s[j] != c,
    decreases s.len(),
{
    if s.len() > 0 && s.last() != c {
        lemma_rfind_char(s.drop_last(), c);
        assert forall|j: int| 0 <= j < s.len() - 1 implies s[j] == s.drop_last()[j] by {}
    }
}

/// An occurrence with none before it is what `find` returns.
pub proof fn lemma_find_first<A>(s: Seq<A>, needle: Seq<A>, i: int)
    requires
        occurs_at(s, needle, i),
        forall|j: int| 0 <= j < i ==> !occurs_at(s, needle, j),
    ensures
        find(s, needle) == Some(i),
{
    lemma_find_from(s, needle, 0);
    if find(s, needle) is None {
        assert(!occurs_at(s, needle, i));
    } else {
        let k = find(s, needle).unwrap();
        if k < i {
            assert(!occurs_at(s, needle, k));
        } else if k > i {
            assert(!occurs_at(s, needle, i));
        }
    }
}

/// `find` is `Some` exactly when the needle occurs.
pub proof fn lemma_find_contains<A>(s: Seq<A>, needle: Seq<A>)
    ensures
        find(s, needle) is Some <==> contains(s, needle),
{
    lemma_find_from(s, needle, 0);
    if find(s, needle) is None {
        assert forall|j: int| !occurs_at(s, needle, j) by {
            if 0 <= j {
            }
        }
    }
}

pub proof fn lemma_find_char_from<A>(s: Seq<A>, c: A, from: int)
    requires
        0 <= from,
    ensures
        find_char_from(s, c, from) matches Some(i) ==> from <= i < s.len() && s[i] == c && (
        forall|j: int| from <= j < i ==> s[j] != c),
        find_char_from(s, c, from) is None ==> forall|j: int| from <= j < s.len() ==> s[j] != c,
    decreases s.len() - from,
{
    if from >= s.len() {
    } else if s[from] == c {
    } else {
        lemma_find_char_from(s, c, from + 1);
    }
}

/// The characters of `s`, in order.
///
/// Relies on `str::chars` collected into a `Vec`: one element per char, in order.
#[verifier::external_body]
pub(crate) fn chars_of(s: &str) -> (r: Vec<char>)
    ensures
        r@ == s@,
{
    s.chars().collect()
}

/// What `str::to_lowercase` returns for a string with these characters.
pub uninterp spec fn lower_of(s: Seq<char>) -> Seq<char>;

/// Relies on `str::to_lowercase`: the result depends on the characters alone.
#[verifier::external_body]
pub(crate) fn to_lower(s: &str) -> (r: String)
    ensures
        r@ == lower_of(s@),
{
    s.to_lowercase()
}

/// Whether `needle` occurs in `s` at position `i`.
pub fn matches_at(s: &Vec<char>, needle: &Vec<char>, i: usize) -> (r: bool)
    ensures
        r == occurs_at(s@, needle@, i as int),
{
    if needle.len() > s.len() || i > s.len() - needle.len() {
        return false;
    }
    let mut k: usize = 0;
    while k < needle.len()
        invariant
            k <= needle.len(),
            i + needle.len() <= s.len(),
            s@.subrange(i as int, i + k) == needle@.subrange(0, k as int),
        decreases needle.len() - k,
    {
        if s[i + k] != needle[k] {
            assert(s@.subrange(i as int, i + needle.len())[k as int] != needle@[k as int]);
            return false;
        }
        assert(s@.subrange(i as int, i + k + 1) =~= s@.subrange(i as int, i + k).push(s@[i + k]));
        assert(needle@.subrange(0, k + 1) =~= needle@.subrange(0, k as int).push(needle@[k as int]));
        k = k + 1;
    }
    assert(needle@.subrange(0, needle.len() as int) =~= needle@);
    true
}

/// The first position at or after `from` where `needle` occurs in `s`.
pub fn find_in(s: &Vec<char>, needle: &Vec<char>, from: usize) -> (r: Option<usize>)
    ensures
        r matches Some(i) ==> find_from(s@, needle@, from as int) == Some(i as int),
        r is None ==> find_from(s@, needle@, from as int) is None,
{
    let mut i = from;
    while i <= s.len() && needle.len() <= s.len() - i
        invariant
            from <= i,
            find_from(s@, needle@, from as int) == find_from(s@, needle@, i as int),
        decreases s.len() + 1 - i,
    {
        if matches_at(s, needle, i) {
            return Some(i);
        }
        assert(needle@.len() > 0 ==> i < s.len());
        if needle.len() == 0 {
            assert(s@.subrange(i as int, i as int) =~= needle@);
        }
        i = i + 1;
    }
    None
}

/// The first position at or after `from` that holds `c`.
pub fn find_char_in(s: &Vec<char>, c: char, from: usize) -> (r: Option<usize>)
    ensures
        r matches Some(i) ==> find_char_from(s@, c, from as int) == Some(i as int),
        r is None ==> find_char_from(s@, c, from as int) is None,
{
    let mut i = from;
    while i < s.len()
        invariant
            from <= i,
            find_char_from(s@, c, from as int) == find_char_from(s@, c, i as int),
        decreases s.len() - i,
    {
        if s[i] == c {
            return Some(i);
        }
        i = i + 1;
    }
    None
}

/// Whether `needle` occurs in `s`.
pub fn str_contains(s: &str, needle: &str) -> (r: bool)
    ensures
        r == contains(s@, needle@),
{
    let cs = chars_of(s);
    let ns = chars_of(needle);
    proof {
        lemma_find_contains(s@, needle@);
    }
    find_in(&cs, &ns, 0).is_some()
}

/// Whether `s` begins with `prefix`.
pub fn str_starts_with(s: &str, prefix: &str) -> (r: bool)
    ensures
        r == starts_with(s@, prefix@),
{
    let cs = chars_of(s);
    let ps = chars_of(prefix);
    matches_at(&cs, &ps, 0)
}

/// The characters of `s` from `from` up to `to`.
pub fn slice_string(s: &str, from: usize, to: usize) -> (r: String)
    requires
        from <= to <= s@.len(),
    ensures
        r@ == s@.subrange(from as int, to as int),
{
    s.substring_char(from, to).to_owned()
}

/// What follows `prefix` in `s`, when `s` begins with it.
pub fn strip_prefix(s: &str, prefix: &str) -> (r: Option<String>)
    ensures
        r matches Some(t) ==> starts_with(s@, prefix@) && t@ == s@.subrange(
            prefix@.len() as int,
            s@.len() as int,
        ),
        r is None ==> !starts_with(s@, prefix@),
{
    if str_starts_with(s, prefix) {
        let n = s.unicode_len();
        let p = prefix.unicode_len();
        Some(slice_string(s, p, n))
    } else {
        None
    }
}


/// A line without the carriage return that ends it, if any.
pub open spec fn without_cr(line: Seq<char>) -> Seq<char> {
    if line.len() > 0 && line.last() == '\r' {
        line.drop_last()
    } else {
        line
    }
}

/// The lines of a text as `str::lines` gives them: split at each line feed, a
/// carriage return before the line feed dropped, no empty line after a final
/// line feed.
pub open spec fn lines_of(s: Seq<char>) -> Seq<Seq<char>>
    decreases s.len(),
{
    if s.len() == 0 {
        Seq::empty()
    } else {
        match find_char_from(s, '\n', 0) {
            Some(e) => if 0 <= e < s.len() {
                seq![without_cr(s.subrange(0, e))] + lines_of(s.subrange(e + 1, s.len() as int))
            } else {
                Seq::empty()
            },
            None => seq![s],
        }
    }
}

/// The parts joined with `sep` between neighbours.
pub open spec fn join_with(parts: Seq<Seq<char>>, sep: Seq<char>) -> Seq<char>
    decreases parts.len(),
{
    if parts.len() == 0 {
        Seq::empty()
    } else if parts.len() == 1 {
        parts[0]
    } else {
        join_with(parts.drop_last(), sep) + sep + parts.last()
    }
}

/// The views of a list of strings.
pub open spec fn string_views(v: Seq<String>) -> Seq<Seq<char>> {
    v.map_values(|s: String| s@)
}

/// The parts joined with `sep` between neighbours.
pub fn join_strings(parts: &[String], sep: &str) -> (r: String)
    ensures
        r@ == join_with(string_views(parts@), sep@),
{
    let ghost views = string_views(parts@);
    let mut s = String::new();
    let mut i: usize = 0;
    assert(views.subrange(0, 0) =~= Seq::<Seq<char>>::empty());
    while i < parts.len()
        invariant
            i <= parts.len(),
            views == string_views(parts@),
            s@ == join_with(views.subrange(0, i as int), sep@),
        decreases parts.len() - i,
    {
        let ghost before = views.subrange(0, i as int);
        let ghost after = views.subrange(0, i + 1);
        let ghost s0 = s@;
        assert(after.drop_last() =~= before);
        assert(after.last() == parts@[i as int]@);
        if i > 0 {
            s.append(sep);
            s.append(parts[i].as_str());
            assert(s@ =~= s0 + sep@ + parts@[i as int]@);
        } else {
            s.append(parts[i].as_str());
            assert(s@ =~= parts@[i as int]@);
        }
        i = i + 1;
    }
    assert(views.subrange(0, parts@.len() as int) =~= views);
    s
}

/// The lines of a text; see `lines_of`.
pub fn lines_in(s: &str) -> (r: Vec<String>)
    ensures
        string_views(r@) == lines_of(s@),
{
    let cs = chars_of(s);
    let mut out: Vec<String> = Vec::new();
    let mut pos: usize = 0;
    let n = cs.len();
    assert(s@.subrange(0, n as int) =~= s@);
    while pos < n
        invariant
            pos <= n,
            n == s@.len(),
            cs@ == s@,
            lines_of(s@) == string_views(out@) + lines_of(s@.subrange(pos as int, n as int)),
        decreases n - pos,
    {
        let ghost rest = s@.subrange(pos as int, n as int);
        let ghost prev = string_views(out@);
        match find_char_in(&cs, '\n', pos) {
            Some(e) => {
                proof {
                    lemma_find_char_from(cs@, '\n', pos as int);
                    lemma_find_char_from(rest, '\n', 0);
                    assert forall|j: int| 0 <= j < e - pos implies rest[j] != '\n' by {
                        assert(rest[j] == cs@[pos + j]);
                    }
                    assert(rest[e - pos] == '\n');
                    assert(find_char_from(rest, '\n', 0) == Some(e - pos)) by {
                        let f = find_char_from(rest, '\n', 0);
                        if f is None {
                            assert(rest[e - pos] != '\n');
                        } else {
                            let k = f.unwrap();
                            if k < e - pos {
                                assert(rest[k] != '\n');
                            } else if k > e - pos {
                                assert(rest[e - pos] != '\n');
                            }
                        }
                    }
                }
                let mut end = e;
                if end > pos && cs[end - 1] == '\r' {
                    end = end - 1;
                }
                let line = slice_string(s, pos, end);
                assert(line@ == without_cr(rest.subrange(0, e - pos))) by {
                    assert(rest.subrange(0, e - pos) =~= s@.subrange(pos as int, e as int));
                    if end < e {
                        assert(s@.subrange(pos as int, e as int).drop_last() =~= s@.subrange(pos as int, end as int));
                    }
                }
                assert(rest.subrange(e - pos + 1, rest.len() as int) =~= s@.subrange(e + 1, n as int));
                out.push(line);
                assert(string_views(out@) =~= prev.push(line@));
                assert(prev.push(line@) + lines_of(s@.subrange(e + 1, n as int)) =~= prev + (seq![line@] + lines_of(s@.subrange(e + 1, n as int))));
                pos = e + 1;
            },
            None => {
                proof {
                    lemma_find_char_from(cs@, '\n', pos as int);
                    assert(find_char_from(rest, '\n', 0) is None) by {
                        lemma_find_char_from(rest, '\n', 0);
                        let f = find_char_from(rest, '\n', 0);
                        if f is Some {
                            let k = f.unwrap();
                            assert(rest[k] == cs@[pos + k]);
                        }
                    }
                }
                let line = slice_string(s, pos, n);
                out.push(line);
                assert(string_views(out@) =~= prev.push(line@));
                assert(lines_of(s@.subrange(n as int, n as int)) =~= Seq::<Seq<char>>::empty());
                assert(prev.push(line@) =~= prev + seq![rest]);
                pos = n;
            },
        }
    }
    assert(lines_of(s@.subrange(n as int, n as int)) =~= Seq::<Seq<char>>::empty()) by {
        assert(s@.subrange(n as int, n as int).len() == 0);
    }
    assert(string_views(out@) + Seq::<Seq<char>>::empty() =~= string_views(out@));
    out
}

} // verus!
