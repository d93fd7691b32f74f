//! Which texts `str::parse::<f64>` accepts, by the grammar in std's
//! documentation of `f64: FromStr`:
//!
//! ```text
//! Float  ::= Sign? ( 'inf' | 'infinity' | 'nan' | Number )
//! Number ::= ( Digit+ | Digit+ '.' Digit* | Digit* '.' Digit+ ) Exp?
//! Exp    ::= 'e' Sign? Digit+
//! Sign   ::= [+-]
//! Digit  ::= [0-9]
//! ```
//!
//! matched without regard to ASCII case. The value itself is left to the caller.

use vstd::prelude::*;

verus! {

pub open spec fn is_digit(c: char) -> bool {
    '0' <= c <= '9'
}

pub open spec fn is_sign(c: char) -> bool {
    c == '+' || c == '-'
}

/// ASCII lower case of `c`; other characters unchanged.
pub open spec fn ascii_lower(c: char) -> char {
    if 'A' <= c <= 'Z' {
        ((c as u32) + 32) as char
    } else {
        c
    }
}

/// `s` spells `word` (given in lower case) in any ASCII case.
pub open spec fn spells(s: Seq<char>, word: Seq<char>) -> bool {
    s.len() == word.len() && forall|i: int| 0 <= i < s.len() ==> ascii_lower(#[trigger] s[i]) == word[i]
}

/// Digits and at most one dot, with at least one digit.
pub open spec fn is_mantissa(m: Seq<char>) -> bool {
    &&& forall|i: int| 0 <= i < m.len() ==> is_digit(#[trigger] m[i]) || m[i] == '.'
    &&& forall|i: int, j: int| 0 <= i < j < m.len() && #[trigger] m[i] == '.' ==> #[trigger] m[j] != '.'
    &&& exists|i: int| 0 <= i < m.len() && is_digit(#[trigger] m[i])
}

/// `e` or `E`, an optional sign, then at least one digit.
pub open spec fn is_exponent(e: Seq<char>) -> bool {
    &&& e.len() >= 2
    &&& (e[0] == 'e' || e[0] == 'E')
    &&& digits_from(e, if is_sign(e[1]) { 2 } else { 1 })
}

/// `e[start..]` is a non-empty run of digits.
pub open spec fn digits_from(e: Seq<char>, start: int) -> bool {
    start < e.len() && forall|i: int| start <= i < e.len() ==> is_digit(#[trigger] e[i])
}

/// Index of the first `e` or `E` of `t`, or its length.
pub open spec fn exponent_start(t: Seq<char>) -> int
    decreases t.len(),
{
    if t.len() == 0 {
        0
    } else {
        let r = exponent_start(t.drop_last());
        if r < t.len() - 1 {
            r
        } else if t.last() == 'e' || t.last() == 'E' {
            t.len() - 1
        } else {
            t.len() as int
        }
    }
}

/// `t` is a `Number` of the grammar.
pub open spec fn is_number(t: Seq<char>) -> bool {
    let k = exponent_start(t);
    is_mantissa(t.take(k)) && (k == t.len() || is_exponent(t.skip(k)))
}

/// `s` is accepted by `str::parse::<f64>`.
pub open spec fn is_float_literal(s: Seq<char>) -> bool {
    let t = if s.len() > 0 && is_sign(s[0]) { s.drop_first() } else { s };
    spells(t, seq!['i', 'n', 'f']) || spells(t, seq!['i', 'n', 'f', 'i', 'n', 'i', 't', 'y']) || spells(
        t,
        seq!['n', 'a', 'n'],
    ) || is_number(t)
}

proof fn lemma_exponent_start(t: Seq<char>, k: int)
    requires
        0 <= k <= t.len(),
        forall|i: int| 0 <= i < k ==> #[trigger] t[i] != 'e' && t[i] != 'E',
        k < t.len() ==> (t[k] == 'e' || t[k] == 'E'),
    ensures
        exponent_start(t) == k,
    decreases t.len(),
{
    if t.len() > 0 {
        let r = t.drop_last();
        if k < t.len() {
            if k < t.len() - 1 {
                assert forall|i: int| 0 <= i < k implies #[trigger] r[i] != 'e' && r[i] != 'E' by {
                    assert(r[i] == t[i]);
                }
                assert(r[k] == t[k]);
                lemma_exponent_start(r, k);
            } else {
                assert forall|i: int| 0 <= i < r.len() implies #[trigger] r[i] != 'e' && r[i] != 'E' by {
                    assert(r[i] == t[i]);
                }
                lemma_exponent_start(r, r.len() as int);
            }
        } else {
            assert forall|i: int| 0 <= i < r.len() implies #[trigger] r[i] != 'e' && r[i] != 'E' by {
                assert(r[i] == t[i]);
            }
            lemma_exponent_start(r, r.len() as int);
        }
    }
}

fn digit_char(c: char) -> (b: bool)
    ensures
        b == is_digit(c),
{
    '0' <= c && c <= '9'
}

fn lower_char(c: char) -> (l: char)
    ensures
        l == ascii_lower(c),
{
    if 'A' <= c && c <= 'Z' {
        ((c as u32) + 32) as u8 as char
    } else {
        c
    }
}

/// Whether `cs[from..]` spells `word` (lower case) in any ASCII case.
fn spells_at(cs: &Vec<char>, from: usize, word: &Vec<char>) -> (b: bool)
    requires
        from <= cs@.len(),
    ensures
        b == spells(cs@.skip(from as int), word@),
{
    let n = cs.len();
    if n - from != word.len() {
        return false;
    }
    let mut i: usize = 0;
    while i < word.len()
        invariant
            i <= word@.len(),
            n == cs@.len(),
            from <= cs@.len(),
            cs@.len() - from == word@.len(),
            forall|k: int| 0 <= k < i ==> ascii_lower(#[trigger] cs@.skip(from as int)[k]) == word@[k],
        decreases word@.len() - i,
    {
        assert(cs@.skip(from as int)[i as int] == cs@[from + i]);
        if lower_char(cs[from + i]) != word[i] {
            return false;
        }
        i = i + 1;
    }
    true
}

/// Whether `cs[from..to]` is a mantissa: digits and at most one dot, with a digit.
fn mantissa_at(cs: &Vec<char>, from: usize, to: usize) -> (b: bool)
    requires
        from <= to <= cs@.len(),
    ensures
        b == is_mantissa(cs@.subrange(from as int, to as int)),
{
    let ghost m = cs@.subrange(from as int, to as int);
    let mut dots: usize = 0;
    let mut digits: bool = false;
    let mut i: usize = from;
    while i < to
        invariant
            from <= i <= to <= cs@.len(),
            m == cs@.subrange(from as int, to as int),
            dots <= 1,
            forall|k: int| 0 <= k < i - from ==> is_digit(#[trigger] m[k]) || m[k] == '.',
            forall|a: int, b: int| 0 <= a < b < i - from && #[trigger] m[a] == '.' ==> #[trigger] m[b] != '.',
            dots == 1 <==> exists|k: int| 0 <= k < i - from && #[trigger] m[k] == '.',
            digits <==> exists|k: int| 0 <= k < i - from && is_digit(#[trigger] m[k]),
        decreases to - i,
    {
        let c = cs[i];
        assert(m[i - from] == c);
        if digit_char(c) {
            digits = true;
        } else if c == '.' {
            if dots == 1 {
                proof {
                    let k = choose|k: int| 0 <= k < i - from && #[trigger] m[k] == '.';
                    assert(m[k] == '.' && m[i - from] == '.');
                }
                return false;
            }
            dots = 1;
        } else {
            return false;
        }
        i = i + 1;
    }
    digits
}

/// Whether `cs[from..]` is an exponent.
fn exponent_at(cs: &Vec<char>, from: usize) -> (b: bool)
    requires
        from <= cs@.len(),
    ensures
        b == is_exponent(cs@.skip(from as int)),
{
    let ghost e = cs@.skip(from as int);
    let n = cs.len();
    if n - from < 2 {
        return false;
    }
    if !(cs[from] == 'e' || cs[from] == 'E') {
        return false;
    }
    let start = if cs[from + 1] == '+' || cs[from + 1] == '-' { from + 2 } else { from + 1 };
    proof {
        assert(e[1] == cs@[from + 1]);
    }
    if start >= n {
        return false;
    }
    let mut i: usize = start;
    while i < n
        invariant
            start <= i <= n,
            n == cs@.len(),
            e == cs@.skip(from as int),
            from < start <= from + 2,
            e.len() >= 2,
            (start == from + 2) == is_sign(e[1]),
            forall|k: int| start <= k < i ==> is_digit(#[trigger] cs@[k]),
        decreases n - i,
    {
        if !digit_char(cs[i]) {
            proof {
                assert(e[i - from] == cs@[i as int]);
            }
            return false;
        }
        i = i + 1;
    }
    proof {
        assert forall|k: int| start - from <= k < e.len() implies is_digit(#[trigger] e[k]) by {
            assert(e[k] == cs@[from + k]);
        }
    }
    true
}

/// Every character of `d` is an ASCII digit.
pub open spec fn all_ascii_digits(d: Seq<char>) -> bool {
    forall|i: int| 0 <= i < d.len() ==> '0' <= #[trigger] d[i] <= '9'
}

/// Digits, optionally followed by a dot and more digits.
pub open spec fn decimal(int_part: Seq<char>, dot: bool, frac: Seq<char>) -> Seq<char> {
    if dot {
        int_part + seq!['.'] + frac
    } else {
        int_part
    }
}

proof fn lemma_decimal_shape(int_part: Seq<char>, dot: bool, frac: Seq<char>)
    requires
        int_part.len() > 0,
        all_ascii_digits(int_part),
        all_ascii_digits(frac),
    ensures
        is_mantissa(decimal(int_part, dot, frac)),
        forall|i: int| 0 <= i < decimal(int_part, dot, frac).len() ==> #[trigger] decimal(int_part, dot, frac)[i] != 'e'
            && decimal(int_part, dot, frac)[i] != 'E' && !is_sign(decimal(int_part, dot, frac)[i]),
        decimal(int_part, dot, frac)[0] == int_part[0],
{
    let m = decimal(int_part, dot, frac);
    let n = int_part.len() as int;
    assert forall|i: int| 0 <= i < m.len() implies (is_digit(#[trigger] m[i]) && i != n) || (dot && i == n && m[i] == '.') by {
        if i < n {
            assert(m[i] == int_part[i]);
        } else if i > n {
            assert(m[i] == frac[i - n - 1]);
        }
    }
    assert(is_digit(m[0]));
}

/// `str::parse::<f64>` takes an exponent with or without a sign: digits,
/// an optional dot and digits, then `e` or `E`, then `+`, `-` or nothing,
/// then digits, is a number; without digits after the marker and sign it is
/// not.
pub proof fn exponent_forms(
    int_part: Seq<char>,
    dot: bool,
    frac: Seq<char>,
    marker: char,
    sign: Seq<char>,
    exp: Seq<char>,
)
    requires
        int_part.len() > 0,
        all_ascii_digits(int_part),
        all_ascii_digits(frac),
        marker == 'e' || marker == 'E',
        sign == Seq::<char>::empty() || sign == seq!['+'] || sign == seq!['-'],
        exp.len() > 0,
        all_ascii_digits(exp),
    ensures
        is_float_literal(decimal(int_part, dot, frac) + seq![marker] + sign + exp),
        !is_float_literal(decimal(int_part, dot, frac) + seq![marker] + sign),
{
    let m = decimal(int_part, dot, frac);
    lemma_decimal_shape(int_part, dot, frac);
    let k = m.len() as int;
    // with digits after the exponent
    let t = m + seq![marker] + sign + exp;
    assert forall|i: int| 0 <= i < k implies #[trigger] t[i] != 'e' && t[i] != 'E' by {
        assert(t[i] == m[i]);
    }
    assert(t[k] == marker);
    lemma_exponent_start(t, k);
    assert(t.take(k) =~= m);
    let e = t.skip(k);
    assert(e =~= seq![marker] + sign + exp);
    let start = sign.len() + 1;
    assert(is_sign(e[1]) == (sign.len() == 1)) by {
        if sign.len() == 0 {
            assert(e[1] == exp[0]);
        } else {
            assert(e[1] == sign[0]);
        }
    }
    assert forall|i: int| start <= i < e.len() implies is_digit(#[trigger] e[i]) by {
        assert(e[i] == exp[i - start]);
    }
    assert(is_exponent(e));
    assert(t[0] == m[0]);
    assert(!spells(t, seq!['i', 'n', 'f']));
    assert(!spells(t, seq!['i', 'n', 'f', 'i', 'n', 'i', 't', 'y']));
    assert(!spells(t, seq!['n', 'a', 'n']));
    // without digits after the exponent
    let u = m + seq![marker] + sign;
    assert forall|i: int| 0 <= i < k implies #[trigger] u[i] != 'e' && u[i] != 'E' by {
        assert(u[i] == m[i]);
    }
    assert(u[k] == marker);
    lemma_exponent_start(u, k);
    let f = u.skip(k);
    assert(f =~= seq![marker] + sign);
    if sign.len() == 1 {
        assert(f[1] == sign[0]);
    }
    assert(!is_exponent(f));
    assert(u[0] == m[0]);
    assert(!spells(u, seq!['i', 'n', 'f']));
    assert(!spells(u, seq!['i', 'n', 'f', 'i', 'n', 'i', 't', 'y']));
    assert(!spells(u, seq!['n', 'a', 'n']));
}

/// Whether `str::parse::<f64>` accepts the text `s`.
pub fn float_literal(s: &str) -> (b: bool)
    ensures
        b == is_float_literal(s@),
{
    let cs = chars_of_text(s);
    let n = cs.len();
    let from: usize = if n > 0 && (cs[0] == '+' || cs[0] == '-') { 1 } else { 0 };
    let ghost t = if cs@.len() > 0 && is_sign(cs@[0]) { cs@.drop_first() } else { cs@ };
    proof {
        assert(t =~= cs@.skip(from as int));
    }
    let inf = vec!['i', 'n', 'f'];
    let infinity = vec!['i', 'n', 'f', 'i', 'n', 'i', 't', 'y'];
    let nan = vec!['n', 'a', 'n'];
    if spells_at(&cs, from, &inf) || spells_at(&cs, from, &infinity) || spells_at(&cs, from, &nan) {
        proof {
            assert(inf@ =~= seq!['i', 'n', 'f']);
            assert(infinity@ =~= seq!['i', 'n', 'f', 'i', 'n', 'i', 't', 'y']);
            assert(nan@ =~= seq!['n', 'a', 'n']);
        }
        return true;
    }
    proof {
        assert(inf@ =~= seq!['i', 'n', 'f']);
        assert(infinity@ =~= seq!['i', 'n', 'f', 'i', 'n', 'i', 't', 'y']);
        assert(nan@ =~= seq!['n', 'a', 'n']);
    }
    let mut k: usize = from;
    while k < n && cs[k] != 'e' && cs[k] != 'E'
        invariant
            from <= k <= n,
            n == cs@.len(),
            forall|i: int| from <= i < k ==> #[trigger] cs@[i] != 'e' && cs@[i] != 'E',
        decreases n - k,
    {
        k = k + 1;
    }
    proof {
        assert forall|i: int| 0 <= i < k - from implies #[trigger] t[i] != 'e' && t[i] != 'E' by {
            assert(t[i] == cs@[from + i]);
        }
        if k < n {
            assert(t[k - from] == cs@[k as int]);
        }
        lemma_exponent_start(t, k - from);
        assert(t.take(k - from) =~= cs@.subrange(from as int, k as int));
        assert(t.skip(k - from) =~= cs@.skip(k as int));
    }
    mantissa_at(&cs, from, k) && (k == n || exponent_at(&cs, k))
}

fn chars_of_text(s: &str) -> (cs: Vec<char>)
    ensures
        cs@ == s@,
{
    crate::strutil::chars_of(s)
}

} // verus!
