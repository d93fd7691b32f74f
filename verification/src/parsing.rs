//! Reading benchmark output: the lines a benchmark prints are matched
//! against the tools' patterns (with the `regex` crate), and the pieces are
//! checked and tidied here. Turning a number's text into an `f64` is left to
//! the caller.

use vstd::prelude::*;
use crate::strutil::{chars_of, push_char, is_space, space_char, trimmed, trim_bounds, string_from, lines_of, trimmed_lines, newline_index, strip_cr, trim_end_index, trim_start_index};
use crate::floattext::{is_float_literal, float_literal};

verus! {

/// What `regex::Regex::captures` gives for `pattern` on `text`: the text of
/// capture group `group` of the leftmost-first match, or `None` when the
/// pattern does not compile, does not match, or the group took no part.
pub uninterp spec fn regex_capture(pattern: Seq<char>, text: Seq<char>, group: nat) -> Option<Seq<char>>;

/// `Regex::new(pattern)`, `captures(text)` and `get(group)` of the `regex`
/// crate, with the group's text copied out. The result is the named
/// `regex_capture` of the arguments; nothing more is claimed.
#[verifier::external_body]
fn capture_group(pattern: &str, text: &str, group: usize) -> (g: Option<String>)
    ensures
        match g {
            Some(t) => regex_capture(pattern@, text@, group as nat) == Some(t@),
            None => regex_capture(pattern@, text@, group as nat) is None,
        },
{
    let re = regex::Regex::new(pattern).ok()?;
    let caps = re.captures(text)?;
    caps.get(group).map(|m| m.as_str().to_string())
}

/// The upper-case mapping of `c` by `char::to_uppercase` (one to three characters).
pub uninterp spec fn char_uppercase(c: char) -> Seq<char>;

/// `char::to_uppercase` of std, collected into a `String`: the named
/// `char_uppercase` of `c`.
#[verifier::external_body]
fn uppercase(c: char) -> (u: String)
    ensures
        u@ == char_uppercase(c),
{
    c.to_uppercase().collect()
}

/// The view of an optional text.
pub open spec fn opt_view(g: Option<String>) -> Option<Seq<char>> {
    match g {
        Some(t) => Some(t@),
        None => None,
    }
}

// ---------------------------------------------------------------- title case

/// `s` with every underscore turned into a space.
pub open spec fn underscores_as_spaces(s: Seq<char>) -> Seq<char> {
    s.map_values(|c: char| if c == '_' { ' ' } else { c })
}

/// The length of the run of non-space characters that `s` starts with.
pub open spec fn word_len(s: Seq<char>) -> int
    decreases s.len(),
{
    if s.len() == 0 || is_space(s[0]) {
        0
    } else {
        1 + word_len(s.drop_first())
    }
}

/// The words of `s` as `str::split_whitespace` gives them.
pub open spec fn words_of(s: Seq<char>) -> Seq<Seq<char>>
    decreases s.len(),
{
    if s.len() == 0 {
        seq![]
    } else if is_space(s[0]) {
        words_of(s.drop_first())
    } else {
        let k = word_len(s);
        if k <= 0 || k > s.len() {
            seq![s]
        } else {
            seq![s.take(k)] + words_of(s.skip(k))
        }
    }
}

/// `w` with its first character upper-cased.
pub open spec fn capitalized(w: Seq<char>) -> Seq<char> {
    if w.len() == 0 {
        w
    } else {
        char_uppercase(w[0]) + w.drop_first()
    }
}

/// The words joined with single spaces.
pub open spec fn join_spaced(ws: Seq<Seq<char>>) -> Seq<char>
    decreases ws.len(),
{
    if ws.len() == 0 {
        seq![]
    } else if ws.len() == 1 {
        ws[0]
    } else {
        join_spaced(ws.drop_last()) + seq![' '] + ws.last()
    }
}

/// A benchmark name as the runner stores it: underscores become spaces, and
/// the words, each with a capital first letter, are joined by one space.
pub open spec fn title_case(s: Seq<char>) -> Seq<char> {
    join_spaced(words_of(underscores_as_spaces(s)).map_values(|w: Seq<char>| capitalized(w)))
}

proof fn lemma_word_len(s: Seq<char>, j: int)
    requires
        0 <= j <= s.len(),
        forall|k: int| 0 <= k < j ==> !is_space(#[trigger] s[k]),
        j < s.len() ==> is_space(s[j]),
    ensures
        word_len(s) == j,
    decreases j,
{
    if j > 0 {
        assert forall|k: int| 0 <= k < j - 1 implies !is_space(#[trigger] s.drop_first()[k]) by {
            assert(s.drop_first()[k] == s[k + 1]);
        }
        lemma_word_len(s.drop_first(), j - 1);
    }
}

/// `name` in title case: see `title_case`.
pub fn title_case_name(name: &str) -> (t: String)
    ensures
        t@ == title_case(name@),
{
    let raw = chars_of(name);
    let mut cs: Vec<char> = Vec::new();
    let mut k: usize = 0;
    while k < raw.len()
        invariant
            k <= raw@.len(),
            raw@ == name@,
            cs@ == underscores_as_spaces(raw@.take(k as int)),
        decreases raw@.len() - k,
    {
        let c = raw[k];
        cs.push(if c == '_' { ' ' } else { c });
        proof {
            assert(underscores_as_spaces(raw@.take(k + 1)) =~= underscores_as_spaces(raw@.take(k as int)).push(
                if c == '_' { ' ' } else { c },
            ));
        }
        k = k + 1;
    }
    proof {
        assert(raw@.take(raw@.len() as int) =~= raw@);
    }
    let ghost all = cs@;
    let n = cs.len();
    let mut out = String::new();
    let ghost mut done: Seq<Seq<char>> = seq![];
    let mut have_word = false;
    let mut i: usize = 0;
    proof {
        assert(all.skip(0) =~= all);
    }
    while i < n
        invariant
            i <= n,
            n == all.len(),
            cs@ == all,
            done + words_of(all.skip(i as int)) == words_of(all),
            have_word == (done.len() > 0),
            out@ == join_spaced(done.map_values(|w: Seq<char>| capitalized(w))),
        decreases n - i,
    {
        if space_char(cs[i]) {
            proof {
                assert(all.skip(i as int)[0] == cs@[i as int]);
                assert(all.skip(i as int).drop_first() =~= all.skip(i + 1));
            }
            i = i + 1;
        } else {
            let mut j: usize = i + 1;
            while j < n && !space_char(cs[j])
                invariant
                    i < j <= n,
                    n == cs@.len(),
                    forall|k: int| i <= k < j ==> !is_space(#[trigger] cs@[k]),
                decreases n - j,
            {
                j = j + 1;
            }
            let ghost rest = all.skip(i as int);
            let ghost w = all.subrange(i as int, j as int);
            proof {
                assert forall|k: int| 0 <= k < j - i implies !is_space(#[trigger] rest[k]) by {
                    assert(rest[k] == all[i + k]);
                }
                if j < n {
                    assert(rest[j - i] == all[j as int]);
                }
                lemma_word_len(rest, j - i);
                assert(rest.take(j - i) =~= w);
                assert(rest.skip(j - i) =~= all.skip(j as int));
                assert(words_of(rest) == seq![w] + words_of(all.skip(j as int)));
            }
            let first = uppercase(cs[i]);
            if have_word {
                push_char(&mut out, ' ');
            }
            let ghost before = out@;
            let mut m: usize = 0;
            let fc = chars_of(first.as_str());
            while m < fc.len()
                invariant
                    m <= fc@.len(),
                    out@ == before + fc@.take(m as int),
                decreases fc@.len() - m,
            {
                push_char(&mut out, fc[m]);
                proof {
                    assert(fc@.take(m + 1) =~= fc@.take(m as int).push(fc@[m as int]));
                }
                m = m + 1;
            }
            let mut q: usize = i + 1;
            while q < j
                invariant
                    i < q <= j <= n,
                    n == cs@.len(),
                    out@ == before + fc@ + cs@.subrange(i + 1, q as int),
                decreases j - q,
            {
                push_char(&mut out, cs[q]);
                proof {
                    assert(cs@.subrange(i + 1, q + 1) =~= cs@.subrange(i + 1, q as int).push(cs@[q as int]));
                }
                q = q + 1;
            }
            proof {
                assert(fc@.take(fc@.len() as int) =~= fc@);
                assert(capitalized(w) =~= fc@ + cs@.subrange(i + 1, j as int));
                let caps = done.map_values(|w: Seq<char>| capitalized(w));
                let done2 = done.push(w);
                assert(done2.map_values(|w: Seq<char>| capitalized(w)) =~= caps.push(capitalized(w)));
                let x = capitalized(w);
                assert(caps.push(x).drop_last() =~= caps);
                assert(caps.push(x).last() == x);
                if done.len() == 0 {
                    assert(join_spaced(caps.push(x)) == x);
                    assert(out@ =~= x);
                } else {
                    assert(join_spaced(caps.push(x)) == join_spaced(caps) + seq![' '] + x);
                    assert(out@ =~= join_spaced(caps) + seq![' '] + x);
                }
                assert(done2 + words_of(all.skip(j as int)) =~= done + words_of(rest));
            }
            proof {
                done = done.push(w);
            }
            have_word = true;
            i = j;
        }
    }
    proof {
        assert(all.skip(n as int) =~= Seq::<char>::empty());
        assert(done =~= words_of(all));
    }
    out
}


// ---------------------------------------------------------------- lines

/// A line (already trimmed) that the runner and `bench` pass over: empty, or
/// a comment or rule starting with `#` or `=`.
pub open spec fn is_skipped(l: Seq<char>) -> bool {
    l.len() == 0 || l[0] == '#' || l[0] == '='
}

/// Whether `line` is one to pass over.
pub fn skipped_line(line: &String) -> (b: bool)
    ensures
        b == is_skipped(line@),
{
    let cs = chars_of(line.as_str());
    cs.len() == 0 || cs[0] == '#' || cs[0] == '='
}

/// What a tool reads from a list of lines, in order: each line is trimmed,
/// empty and `#`/`=` lines are passed over, and `read` says what the rest
/// give.
pub open spec fn line_entries<T>(lines: Seq<Seq<char>>, read: spec_fn(Seq<char>) -> Option<T>) -> Seq<T>
    decreases lines.len(),
{
    if lines.len() == 0 {
        seq![]
    } else {
        let rest = line_entries(lines.drop_last(), read);
        let l = trimmed(lines.last());
        if is_skipped(l) {
            rest
        } else {
            match read(l) {
                Some(e) => rest.push(e),
                None => rest,
            }
        }
    }
}

/// `newline_index` is the position of the first newline, or -1 when there
/// is none.
proof fn lemma_first_newline(s: Seq<char>)
    ensures
        -1 <= newline_index(s) < s.len(),
        newline_index(s) >= 0 ==> s[newline_index(s)] == '\n',
        forall|j: int| 0 <= j < s.len() && (newline_index(s) < 0 || j < newline_index(s)) ==> #[trigger] s[j] != '\n',
    decreases s.len(),
{
    if s.len() > 0 && s[0] != '\n' {
        lemma_first_newline(s.drop_first());
        assert forall|j: int| 0 <= j < s.len() && (newline_index(s) < 0 || j < newline_index(s)) implies #[trigger] s[j] != '\n' by {
            if j > 0 {
                assert(s[j] == s.drop_first()[j - 1]);
            }
        }
    }
}

/// Where a newline sits first, from what lies before it.
proof fn lemma_newline_at(s: Seq<char>, i: int)
    requires
        0 <= i < s.len(),
        s[i] == '\n',
        forall|j: int| 0 <= j < i ==> #[trigger] s[j] != '\n',
    ensures
        newline_index(s) == i,
    decreases i,
{
    if i > 0 {
        assert forall|j: int| 0 <= j < i - 1 implies #[trigger] s.drop_first()[j] != '\n' by {
            assert(s.drop_first()[j] == s[j + 1]);
        }
        lemma_newline_at(s.drop_first(), i - 1);
    }
}

/// Trimming ends no later than the end.
proof fn lemma_trim_end_le(s: Seq<char>)
    ensures
        0 <= trim_end_index(s) <= s.len(),
    decreases s.len(),
{
    if s.len() > 0 {
        lemma_trim_end_le(s.drop_last());
    }
}

/// Trimming starts no later than the end.
proof fn lemma_trim_start_le(s: Seq<char>)
    ensures
        0 <= trim_start_index(s) <= s.len(),
    decreases s.len(),
{
    if s.len() > 0 {
        lemma_trim_start_le(s.drop_first());
    }
}

/// A trailing carriage return makes no difference once a line is trimmed.
proof fn lemma_trim_strip_cr(x: Seq<char>)
    ensures
        trimmed(strip_cr(x)) == trimmed(x),
{
    if x.len() > 0 && x.last() == '\r' {
        let y = x.drop_last();
        assert(is_space(x.last()));
        assert(trim_end_index(x) == trim_end_index(y));
        lemma_trim_end_le(y);
        let e = trim_end_index(y);
        assert(x.take(e) =~= y.take(e));
        lemma_trim_start_le(y.take(e));
        assert(x.subrange(trim_start_index(x.take(e)), e) =~= y.subrange(trim_start_index(y.take(e)), e));
    }
}

/// Reading the lines of two lists one after the other gives what each
/// gives, one after the other.
proof fn lemma_entries_append<T>(xs: Seq<Seq<char>>, ys: Seq<Seq<char>>, read: spec_fn(Seq<char>) -> Option<T>)
    ensures
        line_entries(xs + ys, read) == line_entries(xs, read) + line_entries(ys, read),
    decreases ys.len(),
{
    if ys.len() == 0 {
        assert(xs + ys =~= xs);
        assert(line_entries(xs, read) + line_entries(ys, read) =~= line_entries(xs, read));
    } else {
        lemma_entries_append(xs, ys.drop_last(), read);
        assert((xs + ys).drop_last() =~= xs + ys.drop_last());
        assert((xs + ys).last() == ys.last());
        let l = trimmed(ys.last());
        if !is_skipped(l) {
            match read(l) {
                Some(e) => {
                    assert(line_entries(xs + ys, read) =~= line_entries(xs, read) + line_entries(ys, read));
                },
                None => {},
            }
        }
    }
}

/// What one line gives is the same with a trailing carriage return and
/// without it; an empty line gives nothing.
proof fn lemma_entries_one_line<T>(x: Seq<char>, read: spec_fn(Seq<char>) -> Option<T>)
    ensures
        line_entries(seq![strip_cr(x)], read) == line_entries(seq![x], read),
        x.len() == 0 ==> line_entries(seq![x], read) == Seq::<T>::empty(),
{
    lemma_trim_strip_cr(x);
    assert(seq![strip_cr(x)].drop_last() =~= Seq::<Seq<char>>::empty());
    assert(seq![x].drop_last() =~= Seq::<Seq<char>>::empty());
    assert(seq![strip_cr(x)].last() == strip_cr(x));
    assert(seq![x].last() == x);
    assert(line_entries(seq![strip_cr(x)].drop_last(), read) == line_entries(seq![x].drop_last(), read));
    if x.len() == 0 {
        assert(trim_end_index(x) == 0);
        assert(trimmed(x) =~= Seq::<char>::empty());
    }
}

/// Reading an output made of `a`, a newline and `b` gives what `a` gives,
/// then what `b` gives.
proof fn lemma_entries_of_joined<T>(a: Seq<char>, b: Seq<char>, read: spec_fn(Seq<char>) -> Option<T>)
    ensures
        line_entries(lines_of(a + seq!['\n'] + b), read) == line_entries(lines_of(a), read) + line_entries(
            lines_of(b),
            read,
        ),
    decreases a.len(),
{
    let t = a + seq!['\n'] + b;
    lemma_first_newline(a);
    let k = newline_index(a);
    if k < 0 {
        assert forall|j: int| 0 <= j < a.len() implies #[trigger] t[j] != '\n' by {
            assert(t[j] == a[j]);
        }
        lemma_newline_at(t, a.len() as int);
        assert(t.take(a.len() as int) =~= a);
        assert(t.skip(a.len() as int + 1) =~= b);
        assert(lines_of(t) == seq![strip_cr(a)] + lines_of(b));
        lemma_entries_append(seq![strip_cr(a)], lines_of(b), read);
        lemma_entries_one_line(a, read);
        if a.len() == 0 {
            assert(lines_of(a) =~= Seq::<Seq<char>>::empty());
            assert(line_entries(lines_of(a), read) =~= Seq::<T>::empty());
            assert(line_entries(lines_of(a), read) + line_entries(lines_of(b), read) =~= line_entries(
                lines_of(b),
                read,
            ));
        } else {
            assert(lines_of(a) == seq![a]);
        }
    } else {
        let a1 = a.take(k);
        let a2 = a.skip(k + 1);
        let rest = a2 + seq!['\n'] + b;
        assert forall|j: int| 0 <= j < k implies #[trigger] t[j] != '\n' by {
            assert(t[j] == a[j]);
        }
        assert(t[k] == a[k]);
        lemma_newline_at(t, k);
        assert(t.take(k) =~= a1);
        assert(t.skip(k + 1) =~= rest);
        assert(lines_of(t) == seq![strip_cr(a1)] + lines_of(rest));
        assert(lines_of(a) == seq![strip_cr(a1)] + lines_of(a2));
        lemma_entries_of_joined(a2, b, read);
        lemma_entries_append(seq![strip_cr(a1)], lines_of(rest), read);
        lemma_entries_append(seq![strip_cr(a1)], lines_of(a2), read);
        let e1 = line_entries(seq![strip_cr(a1)], read);
        let e2 = line_entries(lines_of(a2), read);
        let e3 = line_entries(lines_of(b), read);
        assert(e1 + (e2 + e3) =~= (e1 + e2) + e3);
    }
}

// ---------------------------------------------------------------- `bench` lines

/// The `bench` tool's pattern for `Name: 123.45 ms` lines.
pub const TIME_PATTERN: &'static str = r"^([a-zA-Z0-9_ ]+?):\s*([\d.]+)\s*ms";

/// The name (trimmed) and number text of a `bench` time line, from the two
/// capture groups of `TIME_PATTERN`.
pub open spec fn time_fields(name: Option<Seq<char>>, value: Option<Seq<char>>) -> Option<(Seq<char>, Seq<char>)> {
    match (name, value) {
        (Some(n), Some(v)) => Some((trimmed(n), v)),
        _ => None,
    }
}

/// What `bench` reads from one line: the name and the number text, before
/// the number is converted.
pub open spec fn time_line_spec(line: Seq<char>) -> Option<(Seq<char>, Seq<char>)> {
    time_fields(regex_capture(TIME_PATTERN@, line, 1), regex_capture(TIME_PATTERN@, line, 2))
}

/// The view of a pair of texts.
pub open spec fn pair_view(p: Option<(String, String)>) -> Option<(Seq<char>, Seq<char>)> {
    match p {
        Some((a, b)) => Some((a@, b@)),
        None => None,
    }
}

/// `time_fields` on the groups the pattern gave.
pub fn time_line_from_groups(name: Option<String>, value: Option<String>) -> (r: Option<(String, String)>)
    ensures
        pair_view(r) == time_fields(opt_view(name), opt_view(value)),
{
    match (name, value) {
        (Some(n), Some(v)) => {
            let cs = chars_of(n.as_str());
            let (a, b) = trim_bounds(&cs, 0, cs.len());
            proof {
                assert(cs@.subrange(0, cs@.len() as int) =~= cs@);
            }
            Some((string_from(&cs, a, b), v))
        },
        _ => None,
    }
}

/// The name and number text of a `bench` time line, if it is one.
pub fn time_line_fields(line: &str) -> (r: Option<(String, String)>)
    ensures
        pair_view(r) == time_line_spec(line@),
{
    let name = capture_group(TIME_PATTERN, line, 1);
    let value = capture_group(TIME_PATTERN, line, 2);
    time_line_from_groups(name, value)
}

/// The time lines among `lines`, in order, as `time_line_spec` reads them.
pub open spec fn time_entries(lines: Seq<Seq<char>>) -> Seq<(Seq<char>, Seq<char>)> {
    line_entries(lines, |l: Seq<char>| time_line_spec(l))
}

/// `bench` reads an output made of two outputs joined by a newline as the
/// time lines of the first, then those of the second.
pub proof fn time_entries_of_joined_output(a: Seq<char>, b: Seq<char>)
    ensures
        time_entries(lines_of(a + seq!['\n'] + b)) == time_entries(lines_of(a)) + time_entries(lines_of(b)),
{
    lemma_entries_of_joined(a, b, |l: Seq<char>| time_line_spec(l));
}

/// Every time line of a benchmark's output: each line is trimmed, empty and
/// `#`/`=` lines are passed over, and the rest matched with `TIME_PATTERN`.
pub fn time_line_entries(output: &str) -> (entries: Vec<(String, String)>)
    ensures
        entries@.map_values(|p: (String, String)| (p.0@, p.1@)) == time_entries(lines_of(output@)),
{
    let lines = trimmed_lines(output);
    let ghost ls = lines_of(output@);
    let mut entries: Vec<(String, String)> = Vec::new();
    let mut i: usize = 0;
    while i < lines.len()
        invariant
            i <= lines@.len(),
            lines@.len() == ls.len(),
            forall|k: int| 0 <= k < lines@.len() ==> #[trigger] lines@[k]@ == trimmed(ls[k]),
            entries@.map_values(|p: (String, String)| (p.0@, p.1@)) == time_entries(ls.take(i as int)),
        decreases lines@.len() - i,
    {
        let line = &lines[i];
        proof {
            assert(ls.take(i + 1).drop_last() =~= ls.take(i as int));
            assert(ls.take(i + 1).last() == ls[i as int]);
        }
        if !skipped_line(line) {
            match time_line_fields(line.as_str()) {
                Some(e) => {
                    let ghost before = entries@;
                    entries.push(e);
                    proof {
                        assert(entries@.map_values(|p: (String, String)| (p.0@, p.1@)) =~= before.map_values(
                            |p: (String, String)| (p.0@, p.1@),
                        ).push((e.0@, e.1@)));
                    }
                },
                None => {},
            }
        }
        i = i + 1;
    }
    proof {
        assert(ls.take(ls.len() as int) =~= ls);
    }
    entries
}

// ---------------------------------------------------------------- monitor lines

/// The monitor's patterns for a time, tried in this order.
pub const MS_PATTERN: &'static str = r"(\d+\.?\d*)\s*ms";
pub const AVERAGE_PATTERN: &'static str = r"Average\s*time:\s*(\d+\.?\d*)";
pub const MS_AVG_PATTERN: &'static str = r"(\d+\.?\d*)\s*ms\s*avg";

/// The first candidate that is present and reads as a number.
pub open spec fn first_number(cands: Seq<Option<Seq<char>>>) -> Option<Seq<char>>
    decreases cands.len(),
{
    if cands.len() == 0 {
        None
    } else {
        match cands[0] {
            Some(t) => if is_float_literal(t) { Some(t) } else { first_number(cands.drop_first()) },
            None => first_number(cands.drop_first()),
        }
    }
}

/// The time text the monitor reads from a line: group 1 of the first of its
/// patterns whose group 1 reads as a number.
pub open spec fn time_text_spec(line: Seq<char>) -> Option<Seq<char>> {
    first_number(
        seq![
            regex_capture(MS_PATTERN@, line, 1),
            regex_capture(AVERAGE_PATTERN@, line, 1),
            regex_capture(MS_AVG_PATTERN@, line, 1),
        ],
    )
}

/// `first_number` over the candidates found.
pub fn first_number_text(cands: Vec<Option<String>>) -> (r: Option<String>)
    ensures
        opt_view(r) == first_number(cands@.map_values(|c: Option<String>| opt_view(c))),
{
    let ghost views = cands@.map_values(|c: Option<String>| opt_view(c));
    let mut i: usize = 0;
    proof {
        assert(views.skip(0) =~= views);
    }
    while i < cands.len()
        invariant
            i <= cands@.len(),
            views == cands@.map_values(|c: Option<String>| opt_view(c)),
            first_number(views) == first_number(views.skip(i as int)),
        decreases cands@.len() - i,
    {
        proof {
            assert(views.skip(i as int)[0] == opt_view(cands@[i as int]));
            assert(views.skip(i as int).drop_first() =~= views.skip(i + 1));
        }
        match &cands[i] {
            Some(t) => {
                if float_literal(t.as_str()) {
                    return Some(t.clone());
                }
            },
            None => {},
        }
        i = i + 1;
    }
    proof {
        assert(views.skip(i as int).len() == 0);
    }
    None
}

/// The time text of a line for the monitor, if it has one.
pub fn time_text(line: &str) -> (r: Option<String>)
    ensures
        opt_view(r) == time_text_spec(line@),
{
    let mut cands: Vec<Option<String>> = Vec::new();
    cands.push(capture_group(MS_PATTERN, line, 1));
    cands.push(capture_group(AVERAGE_PATTERN, line, 1));
    cands.push(capture_group(MS_AVG_PATTERN, line, 1));
    proof {
        assert(cands@.map_values(|c: Option<String>| opt_view(c)) =~= seq![
            regex_capture(MS_PATTERN@, line@, 1),
            regex_capture(AVERAGE_PATTERN@, line@, 1),
            regex_capture(MS_AVG_PATTERN@, line@, 1),
        ]);
    }
    first_number_text(cands)
}

/// The time texts of all lines of `lines` that have one, in order.
pub open spec fn time_texts_of(lines: Seq<Seq<char>>) -> Seq<Seq<char>>
    decreases lines.len(),
{
    if lines.len() == 0 {
        seq![]
    } else {
        let rest = time_texts_of(lines.drop_last());
        match time_text_spec(trimmed(lines.last())) {
            Some(t) => rest.push(t),
            None => rest,
        }
    }
}

/// The time texts of a benchmark's output, one per line that has one; the
/// monitor averages their values.
pub fn output_time_texts(output: &str) -> (texts: Vec<String>)
    ensures
        texts@.map_values(|t: String| t@) == time_texts_of(lines_of(output@)),
{
    let lines = trimmed_lines(output);
    let ghost ls = lines_of(output@);
    let mut texts: Vec<String> = Vec::new();
    let mut i: usize = 0;
    while i < lines.len()
        invariant
            i <= lines@.len(),
            lines@.len() == ls.len(),
            forall|k: int| 0 <= k < lines@.len() ==> #[trigger] lines@[k]@ == trimmed(ls[k]),
            texts@.map_values(|t: String| t@) == time_texts_of(ls.take(i as int)),
        decreases lines@.len() - i,
    {
        proof {
            assert(ls.take(i + 1).drop_last() =~= ls.take(i as int));
            assert(ls.take(i + 1).last() == ls[i as int]);
        }
        match time_text(lines[i].as_str()) {
            Some(t) => {
                let ghost before = texts@;
                texts.push(t);
                proof {
                    assert(texts@.map_values(|t: String| t@) =~= before.map_values(|t: String| t@).push(t@));
                }
            },
            None => {},
        }
        i = i + 1;
    }
    proof {
        assert(ls.take(ls.len() as int) =~= ls);
    }
    texts
}


// ---------------------------------------------------------------- runner lines

/// The runner's patterns for a result line, tried in this order:
/// `Name: value unit` and `Name value unit`.
pub const COLON_RESULT_PATTERN: &'static str = r"^([a-zA-Z0-9_\- \()]+):\s*([\d.eE+-]+)\s*(ms|ns|ops/sec|elements/sec|GFLOPS|MOPS|GB/s)";
pub const SPACED_RESULT_PATTERN: &'static str = r"^([a-zA-Z0-9_\- \()]+)\s+([\d.eE+-]+)\s+(ms|ns|ops/sec|elements/sec|GFLOPS|MOPS|GB/s)";

/// The text of a group, or `default` when the group is absent.
pub open spec fn or_default(g: Option<Seq<char>>, default: Seq<char>) -> Seq<char> {
    match g {
        Some(t) => t,
        None => default,
    }
}

/// A result line's title-cased name, number text and unit, from whether the
/// pattern matched and its three groups: nothing when it did not match or
/// the number text does not read as a number.
pub open spec fn result_fields(
    matched: bool,
    name: Option<Seq<char>>,
    value: Option<Seq<char>>,
    unit: Option<Seq<char>>,
) -> Option<(Seq<char>, Seq<char>, Seq<char>)> {
    let v = or_default(value, "0"@);
    if matched && is_float_literal(v) {
        Some((title_case(or_default(name, ""@)), v, or_default(unit, "value"@)))
    } else {
        None
    }
}

/// What the runner reads from a line with pattern `p`.
pub open spec fn result_fields_for(p: Seq<char>, line: Seq<char>) -> Option<(Seq<char>, Seq<char>, Seq<char>)> {
    result_fields(
        regex_capture(p, line, 0) is Some,
        regex_capture(p, line, 1),
        regex_capture(p, line, 2),
        regex_capture(p, line, 3),
    )
}

/// What the runner reads from a line: by its first pattern, else its second.
pub open spec fn result_line_spec(line: Seq<char>) -> Option<(Seq<char>, Seq<char>, Seq<char>)> {
    match result_fields_for(COLON_RESULT_PATTERN@, line) {
        Some(f) => Some(f),
        None => result_fields_for(SPACED_RESULT_PATTERN@, line),
    }
}

/// The view of a triple of texts.
pub open spec fn triple_view(t: Option<(String, String, String)>) -> Option<(Seq<char>, Seq<char>, Seq<char>)> {
    match t {
        Some((a, b, c)) => Some((a@, b@, c@)),
        None => None,
    }
}

/// `result_fields` on what a pattern gave.
pub fn result_fields_from_groups(
    matched: bool,
    name: Option<String>,
    value: Option<String>,
    unit: Option<String>,
) -> (r: Option<(String, String, String)>)
    ensures
        triple_view(r) == result_fields(matched, opt_view(name), opt_view(value), opt_view(unit)),
{
    broadcast use vstd::string::group_string_axioms;
    if !matched {
        return None;
    }
    let v = match value {
        Some(t) => t,
        None => "0".to_string(),
    };
    if !float_literal(v.as_str()) {
        return None;
    }
    let n = match name {
        Some(t) => t,
        None => "".to_string(),
    };
    let u = match unit {
        Some(t) => t,
        None => "value".to_string(),
    };
    Some((title_case_name(n.as_str()), v, u))
}

/// The fields of a result line by pattern `p`.
fn result_line_by(p: &str, line: &str) -> (r: Option<(String, String, String)>)
    ensures
        triple_view(r) == result_fields_for(p@, line@),
{
    let matched = capture_group(p, line, 0).is_some();
    let name = capture_group(p, line, 1);
    let value = capture_group(p, line, 2);
    let unit = capture_group(p, line, 3);
    result_fields_from_groups(matched, name, value, unit)
}

/// The title-cased name, number text and unit of a runner result line.
pub fn result_line_fields(line: &str) -> (r: Option<(String, String, String)>)
    ensures
        triple_view(r) == result_line_spec(line@),
{
    match result_line_by(COLON_RESULT_PATTERN, line) {
        Some(f) => Some(f),
        None => result_line_by(SPACED_RESULT_PATTERN, line),
    }
}

/// The result lines among `lines`, in order.
pub open spec fn result_entries(lines: Seq<Seq<char>>) -> Seq<(Seq<char>, Seq<char>, Seq<char>)> {
    line_entries(lines, |l: Seq<char>| result_line_spec(l))
}

/// The runner reads an output made of two outputs joined by a newline as
/// the results of the first, then those of the second.
pub proof fn result_entries_of_joined_output(a: Seq<char>, b: Seq<char>)
    ensures
        result_entries(lines_of(a + seq!['\n'] + b)) == result_entries(lines_of(a)) + result_entries(lines_of(b)),
{
    lemma_entries_of_joined(a, b, |l: Seq<char>| result_line_spec(l));
}

/// Every result line of a benchmark's output, as the runner reads it.
pub fn result_line_entries(output: &str) -> (entries: Vec<(String, String, String)>)
    ensures
        entries@.map_values(|t: (String, String, String)| (t.0@, t.1@, t.2@)) == result_entries(lines_of(output@)),
{
    let lines = trimmed_lines(output);
    let ghost ls = lines_of(output@);
    let mut entries: Vec<(String, String, String)> = Vec::new();
    let mut i: usize = 0;
    while i < lines.len()
        invariant
            i <= lines@.len(),
            lines@.len() == ls.len(),
            forall|k: int| 0 <= k < lines@.len() ==> #[trigger] lines@[k]@ == trimmed(ls[k]),
            entries@.map_values(|t: (String, String, String)| (t.0@, t.1@, t.2@)) == result_entries(ls.take(i as int)),
        decreases lines@.len() - i,
    {
        let line = &lines[i];
        proof {
            assert(ls.take(i + 1).drop_last() =~= ls.take(i as int));
            assert(ls.take(i + 1).last() == ls[i as int]);
        }
        if !skipped_line(line) {
            match result_line_fields(line.as_str()) {
                Some(e) => {
                    let ghost before = entries@;
                    entries.push(e);
                    proof {
                        assert(entries@.map_values(|t: (String, String, String)| (t.0@, t.1@, t.2@)) =~= before.map_values(
                            |t: (String, String, String)| (t.0@, t.1@, t.2@),
                        ).push((e.0@, e.1@, e.2@)));
                    }
                },
                None => {},
            }
        }
        i = i + 1;
    }
    proof {
        assert(ls.take(ls.len() as int) =~= ls);
    }
    entries
}

// ---------------------------------------------------------------- monitor names

/// The name the monitor stores a category's result under.
pub open spec fn category_test_name_spec(category: Seq<char>) -> Seq<char> {
    if category == "matrix"@ {
        "Matrix"@
    } else if category == "sort"@ {
        "Sort"@
    } else if category == "string"@ {
        "String"@
    } else {
        category
    }
}

/// The test name for a category: `Matrix`, `Sort` and `String` for the
/// first three, the category itself otherwise.
pub fn category_test_name(category: &str) -> (name: String)
    ensures
        name@ == category_test_name_spec(category@),
{
    broadcast use vstd::string::group_string_axioms;
    let c = category.to_string();
    if c == "matrix".to_string() {
        "Matrix".to_string()
    } else if c == "sort".to_string() {
        "Sort".to_string()
    } else if c == "string".to_string() {
        "String".to_string()
    } else {
        c
    }
}

} // verus!
