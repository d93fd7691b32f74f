//! Text helpers over the characters of a string: splitting into lines,
//! trimming white space, and finding and counting a substring.

use vstd::prelude::*;

verus! {

/// `String::push` of std: appends one character.
#[verifier::external_body]
pub(crate) fn push_char(s: &mut String, c: char)
    ensures
        final(s)@ == old(s)@.push(c),
{
    s.push(c);
}

/// The characters of `s`, in order.
pub fn chars_of(s: &str) -> (cs: Vec<char>)
    ensures
        cs@ == s@,
{
    let mut cs: Vec<char> = Vec::new();
    let ghost all = s@;
    for c in it: s.chars()
        invariant
            it.seq() == all,
            cs@ == all.take(it.index()),
    {
        proof {
            assert(all.take(it.index() + 1) =~= all.take(it.index()).push(c));
        }
        cs.push(c);
    }
    proof {
        assert(all.take(all.len() as int) =~= all);
    }
    cs
}

/// A `String` holding the characters `cs[from..to]`.
pub fn string_from(cs: &Vec<char>, from: usize, to: usize) -> (s: String)
    requires
        from <= to <= cs@.len(),
    ensures
        s@ == cs@.subrange(from as int, to as int),
{
    let mut s = String::new();
    let mut i: usize = from;
    while i < to
        invariant
            from <= i <= to <= cs@.len(),
            s@ == cs@.subrange(from as int, i as int),
        decreases to - i,
    {
        push_char(&mut s, cs[i]);
        proof {
            assert(cs@.subrange(from as int, i + 1) =~= cs@.subrange(from as int, i as int).push(cs@[i as int]));
        }
        i = i + 1;
    }
    s
}

/// White space in the sense of Unicode's `White_Space` property, the one
/// that `char::is_whitespace`, `str::trim` and `\s` use.
pub open spec fn is_space(c: char) -> bool {
    let u = c as u32;
    (0x09 <= u <= 0x0d) || u == 0x20 || u == 0x85 || u == 0xa0 || u == 0x1680 || (0x2000 <= u <= 0x200a)
        || u == 0x2028 || u == 0x2029 || u == 0x202f || u == 0x205f || u == 0x3000
}

/// Whether `c` is white space.
pub fn space_char(c: char) -> (b: bool)
    ensures
        b == is_space(c),
{
    let u = c as u32;
    (0x09 <= u && u <= 0x0d) || u == 0x20 || u == 0x85 || u == 0xa0 || u == 0x1680 || (0x2000 <= u && u
        <= 0x200a) || u == 0x2028 || u == 0x2029 || u == 0x202f || u == 0x205f || u == 0x3000
}

/// Where the text of `s` starts once leading white space is skipped.
pub open spec fn trim_start_index(s: Seq<char>) -> int
    decreases s.len(),
{
    if s.len() == 0 {
        0
    } else if is_space(s[0]) {
        1 + trim_start_index(s.drop_first())
    } else {
        0
    }
}

/// Where the text of `s` ends once trailing white space is dropped.
pub open spec fn trim_end_index(s: Seq<char>) -> int
    decreases s.len(),
{
    if s.len() == 0 {
        0
    } else if is_space(s.last()) {
        trim_end_index(s.drop_last())
    } else {
        s.len() as int
    }
}

/// `s` without its leading and trailing white space.
pub open spec fn trimmed(s: Seq<char>) -> Seq<char> {
    let e = trim_end_index(s);
    s.subrange(trim_start_index(s.take(e)), e)
}

/// The index where trimming from the start stops, characterised by what
/// lies before it.
proof fn lemma_trim_start_unique(s: Seq<char>, i: int)
    requires
        0 <= i <= s.len(),
        forall|k: int| 0 <= k < i ==> is_space(#[trigger] s[k]),
        i < s.len() ==> !is_space(s[i]),
    ensures
        trim_start_index(s) == i,
    decreases s.len(),
{
    if s.len() > 0 && is_space(s[0]) {
        assert forall|k: int| 0 <= k < i - 1 implies is_space(#[trigger] s.drop_first()[k]) by {
            assert(s.drop_first()[k] == s[k + 1]);
        }
        lemma_trim_start_unique(s.drop_first(), i - 1);
    }
}

/// The index where trimming from the end stops, characterised by what lies
/// after it.
proof fn lemma_trim_end_unique(s: Seq<char>, j: int)
    requires
        0 <= j <= s.len(),
        forall|k: int| j <= k < s.len() ==> is_space(#[trigger] s[k]),
        j > 0 ==> !is_space(s[j - 1]),
    ensures
        trim_end_index(s) == j,
    decreases s.len(),
{
    if s.len() > 0 && is_space(s.last()) {
        assert forall|k: int| j <= k < s.len() - 1 implies is_space(#[trigger] s.drop_last()[k]) by {
            assert(s.drop_last()[k] == s[k]);
        }
        lemma_trim_end_unique(s.drop_last(), j);
    }
}

/// The bounds `(start, end)` of `cs[from..to]` with white space trimmed from
/// both ends.
pub fn trim_bounds(cs: &Vec<char>, from: usize, to: usize) -> (r: (usize, usize))
    requires
        from <= to <= cs@.len(),
    ensures
        from <= r.0 <= r.1 <= to,
        cs@.subrange(r.0 as int, r.1 as int) == trimmed(cs@.subrange(from as int, to as int)),
{
    let ghost s = cs@.subrange(from as int, to as int);
    let mut j: usize = to;
    while j > from && space_char(cs[j - 1])
        invariant
            from <= j <= to <= cs@.len(),
            forall|k: int| j <= k < to ==> is_space(#[trigger] cs@[k]),
        decreases j,
    {
        j = j - 1;
    }
    proof {
        assert forall|k: int| j - from <= k < s.len() implies is_space(#[trigger] s[k]) by {
            assert(s[k] == cs@[from + k]);
        }
        if j > from {
            assert(s[j - from - 1] == cs@[j - 1]);
        }
        lemma_trim_end_unique(s, j - from);
    }
    let mut i: usize = from;
    while i < j && space_char(cs[i])
        invariant
            from <= i <= j <= to <= cs@.len(),
            forall|k: int| from <= k < i ==> is_space(#[trigger] cs@[k]),
        decreases j - i,
    {
        i = i + 1;
    }
    proof {
        let t = s.take(j - from);
        assert forall|k: int| 0 <= k < i - from implies is_space(#[trigger] t[k]) by {
            assert(t[k] == cs@[from + k]);
        }
        if i < j {
            assert(t[i - from] == cs@[i as int]);
        }
        lemma_trim_start_unique(t, i - from);
        assert(cs@.subrange(i as int, j as int) =~= s.subrange(i - from, j - from));
    }
    (i, j)
}


/// Index of the first newline of `s`, or -1 when it has none.
pub open spec fn newline_index(s: Seq<char>) -> int
    decreases s.len(),
{
    if s.len() == 0 {
        -1
    } else if s[0] == '\n' {
        0
    } else {
        let r = newline_index(s.drop_first());
        if r < 0 {
            -1
        } else {
            r + 1
        }
    }
}

/// `s` without one trailing carriage return.
pub open spec fn strip_cr(s: Seq<char>) -> Seq<char> {
    if s.len() > 0 && s.last() == '\r' {
        s.drop_last()
    } else {
        s
    }
}

/// The lines of `s` as `str::lines` gives them: split at `\n` (with a `\r`
/// before it dropped), no final empty line after a trailing newline.
pub open spec fn lines_of(s: Seq<char>) -> Seq<Seq<char>>
    decreases s.len(),
{
    let k = newline_index(s);
    if s.len() == 0 {
        seq![]
    } else if k < 0 || k >= s.len() {
        seq![s]
    } else {
        seq![strip_cr(s.take(k))] + lines_of(s.skip(k + 1))
    }
}

proof fn lemma_newline_index(s: Seq<char>, i: int)
    requires
        0 <= i <= s.len(),
        forall|k: int| 0 <= k < i ==> #[trigger] s[k] != '\n',
    ensures
        i < s.len() && s[i] == '\n' ==> newline_index(s) == i,
        i == s.len() ==> newline_index(s) == -1,
    decreases i,
{
    if i > 0 {
        assert forall|k: int| 0 <= k < i - 1 implies #[trigger] s.drop_first()[k] != '\n' by {
            assert(s.drop_first()[k] == s[k + 1]);
        }
        lemma_newline_index(s.drop_first(), i - 1);
    } else if s.len() > 0 {
    }
}

/// The lines of `text`, each with white space trimmed from both ends.
pub fn trimmed_lines(text: &str) -> (lines: Vec<String>)
    ensures
        lines@.len() == lines_of(text@).len(),
        forall|k: int| 0 <= k < lines@.len() ==> #[trigger] lines@[k]@ == trimmed(lines_of(text@)[k]),
{
    let cs = chars_of(text);
    let n = cs.len();
    let ghost all = cs@;
    let mut lines: Vec<String> = Vec::new();
    let mut start: usize = 0;
    let mut i: usize = 0;
    proof {
        assert(all.skip(0) =~= all);
    }
    while i < n
        invariant
            start <= i <= n,
            n == all.len(),
            cs@ == all,
            all == text@,
            forall|k: int| start <= k < i ==> #[trigger] all[k] != '\n',
            lines@.len() + lines_of(all.skip(start as int)).len() == lines_of(all).len(),
            forall|k: int| 0 <= k < lines@.len() ==> #[trigger] lines@[k]@ == trimmed(lines_of(all)[k]),
            forall|k: int|
                0 <= k < lines_of(all.skip(start as int)).len() ==> #[trigger] lines_of(all.skip(start as int))[k]
                    == lines_of(all)[lines@.len() + k],
        decreases n - i,
    {
        if cs[i] == '\n' {
            let mut end = i;
            if end > start && cs[end - 1] == '\r' {
                end = end - 1;
            }
            let (a, b) = trim_bounds(&cs, start, end);
            let line = string_from(&cs, a, b);
            proof {
                let rest = all.skip(start as int);
                assert forall|k: int| 0 <= k < i - start implies #[trigger] rest[k] != '\n' by {
                    assert(rest[k] == all[start + k]);
                }
                assert(rest[i - start] == all[i as int]);
                lemma_newline_index(rest, i - start);
                assert(rest.take(i - start) =~= all.subrange(start as int, i as int));
                assert(strip_cr(rest.take(i - start)) =~= all.subrange(start as int, end as int));
                assert(rest.skip(i - start + 1) =~= all.skip(i + 1));
                let tail = lines_of(all.skip(i + 1));
                assert(lines_of(rest) == seq![all.subrange(start as int, end as int)] + tail);
                assert(lines_of(rest)[0] == all.subrange(start as int, end as int));
                assert forall|k: int| 0 <= k < tail.len() implies #[trigger] tail[k] == lines_of(all)[lines@.len() + 1 + k] by {
                    assert(tail[k] == lines_of(rest)[k + 1]);
                }
            }
            lines.push(line);
            start = i + 1;
        }
        i = i + 1;
    }
    if start < n {
        let (a, b) = trim_bounds(&cs, start, n);
        let line = string_from(&cs, a, b);
        proof {
            let rest = all.skip(start as int);
            assert forall|k: int| 0 <= k < n - start implies #[trigger] rest[k] != '\n' by {
                assert(rest[k] == all[start + k]);
            }
            lemma_newline_index(rest, n - start);
            assert(rest =~= all.subrange(start as int, n as int));
            assert(lines_of(rest) == seq![rest]);
            assert(lines_of(rest)[0] == rest);
            assert(lines_of(all)[lines@.len() as int + 0] == rest);
        }
        lines.push(line);
    } else {
        proof {
            assert(all.skip(start as int).len() == 0);
        }
    }
    lines
}


/// `needle` occurs in `hay` starting at `i`.
pub open spec fn occurs_at(hay: Seq<char>, needle: Seq<char>, i: int) -> bool {
    0 <= i && i + needle.len() <= hay.len() && hay.subrange(i, i + needle.len()) == needle
}

/// `needle` occurs somewhere in `hay` (`str::contains`).
pub open spec fn contains_text(hay: Seq<char>, needle: Seq<char>) -> bool {
    exists|i: int| occurs_at(hay, needle, i)
}

/// Whether `needle` occurs in `hay`.
pub fn chars_contain(hay: &Vec<char>, needle: &Vec<char>) -> (b: bool)
    ensures
        b == contains_text(hay@, needle@),
{
    let n = hay.len();
    let m = needle.len();
    if m > n {
        proof {
            assert forall|i: int| !occurs_at(hay@, needle@, i) by {}
        }
        return false;
    }
    let mut i: usize = 0;
    while i <= n - m
        invariant
            m <= n,
            n == hay@.len(),
            m == needle@.len(),
            i <= n - m + 1,
            forall|j: int| 0 <= j < i ==> !#[trigger] occurs_at(hay@, needle@, j),
        decreases n - m + 1 - i,
    {
        let mut k: usize = 0;
        while k < m && hay[i + k] == needle[k]
            invariant
                k <= m,
                i + m <= n,
                n == hay@.len(),
                m == needle@.len(),
                forall|t: int| 0 <= t < k ==> hay@[i + t] == #[trigger] needle@[t],
            decreases m - k,
        {
            k = k + 1;
        }
        if k == m {
            proof {
                assert(hay@.subrange(i as int, i + m) =~= needle@);
                assert(occurs_at(hay@, needle@, i as int));
            }
            return true;
        }
        proof {
            assert(hay@.subrange(i as int, i + m)[k as int] == hay@[i + k]);
        }
        i = i + 1;
    }
    proof {
        assert forall|j: int| !occurs_at(hay@, needle@, j) by {
            if 0 <= j < i {
            }
        }
    }
    false
}

/// Whether the text `needle` occurs in `hay`.
pub fn text_contains(hay: &str, needle: &str) -> (b: bool)
    ensures
        b == contains_text(hay@, needle@),
{
    let h = chars_of(hay);
    let n = chars_of(needle);
    chars_contain(&h, &n)
}

/// Whether `needle` occurs in `hay` at position `i`.
fn occurs_at_pos(hay: &Vec<char>, needle: &Vec<char>, i: usize) -> (b: bool)
    requires
        i + needle@.len() <= hay@.len(),
    ensures
        b == occurs_at(hay@, needle@, i as int),
{
    let m = needle.len();
    let mut k: usize = 0;
    while k < m
        invariant
            k <= m,
            m == needle@.len(),
            i + m <= hay.len(),
            forall|t: int| 0 <= t < k ==> hay@[i + t] == #[trigger] needle@[t],
        decreases m - k,
    {
        if hay[i + k] != needle[k] {
            proof {
                assert(hay@.subrange(i as int, i + m)[k as int] == hay@[i + k]);
            }
            return false;
        }
        k = k + 1;
    }
    proof {
        assert(hay@.subrange(i as int, i + m) =~= needle@);
    }
    true
}

/// The occurrences of a non-empty `needle` in `hay` from position `i` on
/// that do not overlap, taken from the left: after one, the search goes on
/// where it ends.
pub open spec fn matches_from(hay: Seq<char>, needle: Seq<char>, i: int) -> nat
    decreases hay.len() - i,
{
    if needle.len() == 0 || i < 0 || i + needle.len() > hay.len() {
        0
    } else if occurs_at(hay, needle, i) {
        1 + matches_from(hay, needle, i + needle.len())
    } else {
        matches_from(hay, needle, i + 1)
    }
}

/// What `str::matches(needle).count()` gives: the non-overlapping
/// occurrences of `needle`, or, for an empty needle, one per position
/// between characters.
pub open spec fn match_count(hay: Seq<char>, needle: Seq<char>) -> nat {
    if needle.len() == 0 {
        hay.len() + 1
    } else {
        matches_from(hay, needle, 0)
    }
}

/// The occurrences counted do not overlap, so together they are no longer
/// than the text; and a text that starts with the needle has one more
/// occurrence than the rest of it.
pub proof fn match_count_laws(hay: Seq<char>, needle: Seq<char>)
    requires
        needle.len() > 0,
    ensures
        match_count(hay, needle) * needle.len() <= hay.len(),
        match_count(needle + hay, needle) == 1 + match_count(hay, needle),
{
    lemma_matches_from_bound(hay, needle, 0);
    let t = needle + hay;
    assert(t.subrange(0, needle.len() as int) =~= needle);
    assert(occurs_at(t, needle, 0));
    lemma_matches_from_shift(needle, hay, 0);
}

proof fn lemma_matches_from_bound(hay: Seq<char>, needle: Seq<char>, i: int)
    requires
        needle.len() > 0,
        0 <= i,
    ensures
        i <= hay.len() ==> matches_from(hay, needle, i) * needle.len() <= hay.len() - i,
        i > hay.len() ==> matches_from(hay, needle, i) == 0,
    decreases hay.len() - i,
{
    let n = needle.len() as int;
    if i + n <= hay.len() {
        if occurs_at(hay, needle, i) {
            lemma_matches_from_bound(hay, needle, i + n);
            let r = matches_from(hay, needle, i + n) as int;
            assert(matches_from(hay, needle, i) == 1 + r);
            assert(r * n <= hay.len() - (i + n));
            assert((1 + r) * n == n + r * n) by (nonlinear_arith);
        } else {
            lemma_matches_from_bound(hay, needle, i + 1);
            assert(matches_from(hay, needle, i) == matches_from(hay, needle, i + 1));
        }
    } else {
        assert(matches_from(hay, needle, i) == 0);
        assert(0 * n == 0);
    }
}

/// Counting in `needle + hay` from past the leading needle is counting in
/// `hay`.
proof fn lemma_matches_from_shift(needle: Seq<char>, hay: Seq<char>, i: int)
    requires
        needle.len() > 0,
        0 <= i,
    ensures
        matches_from(needle + hay, needle, i + needle.len()) == matches_from(hay, needle, i),
    decreases hay.len() - i,
{
    let t = needle + hay;
    let n = needle.len() as int;
    if i + n <= hay.len() {
        assert(t.subrange(i + n, i + n + n) =~= hay.subrange(i, i + n));
        if occurs_at(hay, needle, i) {
            lemma_matches_from_shift(needle, hay, i + n);
        } else {
            lemma_matches_from_shift(needle, hay, i + 1);
        }
    }
}

/// How many times `needle` occurs in `hay`, counted as `str::matches` finds
/// them.
pub fn count_matches(hay: &str, needle: &str) -> (n: usize)
    requires
        hay@.len() < usize::MAX,
    ensures
        n == match_count(hay@, needle@),
{
    let h = chars_of(hay);
    let nd = chars_of(needle);
    let n = h.len();
    let m = nd.len();
    if m == 0 {
        return n + 1;
    }
    let mut count: usize = 0;
    let mut i: usize = 0;
    while i <= n && m <= n - i
        invariant
            0 < m,
            m == nd@.len(),
            n == h@.len(),
            i <= n,
            count <= i,
            count + matches_from(h@, nd@, i as int) == matches_from(h@, nd@, 0),
        decreases n - i,
    {
        if occurs_at_pos(&h, &nd, i) {
            count = count + 1;
            i = i + m;
        } else {
            i = i + 1;
        }
    }
    count
}

} // verus!
