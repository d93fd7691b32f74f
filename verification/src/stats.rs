//! The statistics side of the result store: the SQL text of its queries
//! (with quotes in names doubled, so that a name reads back whole from its
//! string literal) and the choice of the quartiles.

use vstd::prelude::*;
use crate::strutil::{chars_of, push_char};

verus! {

/// `s` with every single quote doubled, as SQL string literals need.
pub open spec fn sql_escaped(s: Seq<char>) -> Seq<char>
    decreases s.len(),
{
    if s.len() == 0 {
        seq![]
    } else if s.last() == '\'' {
        sql_escaped(s.drop_last()) + seq!['\'', '\'']
    } else {
        sql_escaped(s.drop_last()).push(s.last())
    }
}

/// What `sql_escaped` puts for one character.
pub open spec fn escaped_char(c: char) -> Seq<char> {
    if c == '\'' {
        seq!['\'', '\'']
    } else {
        seq![c]
    }
}

/// How SQL reads the inside of a string literal from the start of `t`: a
/// doubled quote stands for one quote, and a single quote closes the
/// literal. The text read and the length used up, closing quote included;
/// `None` when the literal is never closed.
pub open spec fn literal_body(t: Seq<char>) -> Option<(Seq<char>, int)>
    decreases t.len(),
{
    if t.len() == 0 {
        None
    } else if t[0] == '\'' {
        if t.len() >= 2 && t[1] == '\'' {
            match literal_body(t.skip(2)) {
                Some((v, k)) => Some((seq!['\''] + v, k + 2)),
                None => None,
            }
        } else {
            Some((Seq::empty(), 1))
        }
    } else {
        match literal_body(t.skip(1)) {
            Some((v, k)) => Some((seq![t[0]] + v, k + 1)),
            None => None,
        }
    }
}

proof fn lemma_escaped_prepend(c: char, s: Seq<char>)
    ensures
        sql_escaped(seq![c] + s) == escaped_char(c) + sql_escaped(s),
    decreases s.len(),
{
    let t = seq![c] + s;
    if s.len() == 0 {
        assert(t.drop_last() =~= Seq::<char>::empty());
        assert(sql_escaped(Seq::<char>::empty()) =~= Seq::<char>::empty());
        assert(t.last() == c);
        assert(sql_escaped(t) =~= escaped_char(c));
        assert(escaped_char(c) + sql_escaped(s) =~= escaped_char(c));
    } else {
        lemma_escaped_prepend(c, s.drop_last());
        assert(t.drop_last() =~= seq![c] + s.drop_last());
        assert(t.last() == s.last());
        if s.last() == '\'' {
            assert(sql_escaped(t) =~= escaped_char(c) + sql_escaped(s));
        } else {
            assert(sql_escaped(t) =~= escaped_char(c) + sql_escaped(s));
        }
    }
}

/// A name escaped into a string literal reads back whole: SQL finds the
/// name itself, and the literal ends at the quote after it, whatever
/// follows that quote (unless it is another quote, which would pair with
/// it).
pub proof fn escaped_literal_reads_back(s: Seq<char>, rest: Seq<char>)
    requires
        rest.len() == 0 || rest[0] != '\'',
    ensures
        literal_body(sql_escaped(s) + seq!['\''] + rest) == Some((s, sql_escaped(s).len() + 1int)),
    decreases s.len(),
{
    let t = sql_escaped(s) + seq!['\''] + rest;
    if s.len() == 0 {
        assert(t =~= seq!['\''] + rest);
        assert(literal_body(t) == Some((Seq::<char>::empty(), 1int)));
        assert(s =~= Seq::<char>::empty());
    } else {
        let c = s[0];
        let tail = s.skip(1);
        assert(s =~= seq![c] + tail);
        lemma_escaped_prepend(c, tail);
        escaped_literal_reads_back(tail, rest);
        let x = sql_escaped(tail) + seq!['\''] + rest;
        assert(t =~= escaped_char(c) + x);
        if c == '\'' {
            assert(t.skip(2) =~= x);
            assert(seq!['\''] + tail =~= s);
        } else {
            assert(t.skip(1) =~= x);
            assert(seq![c] + tail =~= s);
        }
    }
}

/// Appends `s` to `out` with every single quote doubled.
fn push_escaped(out: &mut String, s: &str)
    ensures
        final(out)@ == old(out)@ + sql_escaped(s@),
{
    let cs = chars_of(s);
    let ghost start = out@;
    let mut i: usize = 0;
    while i < cs.len()
        invariant
            i <= cs@.len(),
            cs@ == s@,
            out@ == start + sql_escaped(cs@.take(i as int)),
        decreases cs@.len() - i,
    {
        let c = cs[i];
        proof {
            assert(cs@.take(i + 1).drop_last() =~= cs@.take(i as int));
            assert(cs@.take(i + 1).last() == c);
        }
        push_char(out, c);
        if c == '\'' {
            push_char(out, '\'');
        }
        proof {
            assert(out@ =~= start + sql_escaped(cs@.take(i + 1)));
        }
        i = i + 1;
    }
    proof {
        assert(cs@.take(cs@.len() as int) =~= cs@);
    }
}

/// `s` with every single quote doubled (`str::replace("'", "''")`).
pub fn escape_sql_quotes(s: &str) -> (e: String)
    ensures
        e@ == sql_escaped(s@),
{
    let mut out = String::new();
    push_escaped(&mut out, s);
    out
}

/// The statistics query for one category, up to the category's name.
pub const STATS_CATEGORY_HEAD: &'static str = "SELECT language, test_name, category,
                        AVG(time_ms) as avg_ms,
                        MIN(time_ms) as min_ms,
                        MAX(time_ms) as max_ms,
                        COUNT(*) as runs
                 FROM benchmark_results
                 WHERE category = '";
/// The statistics query for one category, after the category's name.
pub const STATS_CATEGORY_TAIL: &'static str = "'
                 GROUP BY language, test_name
                 ORDER BY test_name, avg_ms";
/// The statistics query over all categories.
pub const STATS_ALL_QUERY: &'static str = "SELECT language, test_name, category,
                    AVG(time_ms) as avg_ms,
                    MIN(time_ms) as min_ms,
                    MAX(time_ms) as max_ms,
                    COUNT(*) as runs
             FROM benchmark_results
             GROUP BY language, test_name
             ORDER BY category, test_name, avg_ms";
/// The query for one language's times of one test, in three pieces around
/// the language and the test name.
pub const VALUES_HEAD: &'static str = "SELECT time_ms FROM benchmark_results 
                 WHERE language = '";
pub const VALUES_MID: &'static str = "' AND test_name = '";
pub const VALUES_TAIL: &'static str = "'
                 ORDER BY time_ms";

/// The text of the statistics query: for one category (its name escaped),
/// or over all of them.
pub open spec fn stats_query_spec(category: Option<Seq<char>>) -> Seq<char> {
    match category {
        Some(c) => STATS_CATEGORY_HEAD@ + sql_escaped(c) + STATS_CATEGORY_TAIL@,
        None => STATS_ALL_QUERY@,
    }
}

/// The statistics query (average, minimum, maximum and count of the times,
/// per language and test).
pub fn stats_query(category: Option<&str>) -> (q: String)
    ensures
        q@ == stats_query_spec(match category {
            Some(c) => Some(c@),
            None => None,
        }),
{
    broadcast use vstd::string::group_string_axioms;
    match category {
        Some(c) => {
            let mut q = STATS_CATEGORY_HEAD.to_string();
            push_escaped(&mut q, c);
            let tail = STATS_CATEGORY_TAIL.to_string();
            q.append(tail.as_str());
            q
        },
        None => STATS_ALL_QUERY.to_string(),
    }
}

/// The query for the times of `language` on `test_name`, in ascending order.
pub fn values_query(language: &str, test_name: &str) -> (q: String)
    ensures
        q@ == VALUES_HEAD@ + sql_escaped(language@) + VALUES_MID@ + sql_escaped(test_name@) + VALUES_TAIL@,
{
    broadcast use vstd::string::group_string_axioms;
    let mut q = VALUES_HEAD.to_string();
    push_escaped(&mut q, language);
    q.append(VALUES_MID);
    push_escaped(&mut q, test_name);
    q.append(VALUES_TAIL);
    q
}

/// The first and third quartile of `values` (ascending): the entries at
/// `n / 4` and `3n / 4` when there are at least four, else the given
/// minimum and maximum.
pub fn quartiles<T: Copy>(values: &Vec<T>, min: T, max: T) -> (q: (T, T))
    requires
        values@.len() <= usize::MAX / 3,
    ensures
        values@.len() >= 4 ==> q == (values@[(values@.len() / 4) as int], values@[((values@.len() * 3) / 4) as int]),
        values@.len() < 4 ==> q == (min, max),
{
    let n = values.len();
    if n >= 4 {
        let q1_idx = n / 4;
        let q3_idx = (n * 3) / 4;
        (values[q1_idx], values[q3_idx])
    } else {
        (min, max)
    }
}

} // verus!
