//! JSON values: numbers, literals, strings and nested arrays and objects.
use vstd::prelude::*;
use vstd::string::*;
use crate::text::{at_word, read_string, skip_ws, skip_ws_at, unescape};

verus! {

/// Nesting deeper than this is refused.
pub const MAX_DEPTH: usize = 128;

/// What a JSON value is to this model: a string, a number kept as its text,
/// `null`, or anything else (a boolean, an array, an object).
pub enum ValueModel {
    Text(Seq<char>),
    Number(Seq<char>),
    Null,
    Other,
}

/// A decoded JSON value.
pub enum Value {
    Text(String),
    Number(String),
    Null,
    Other,
}

impl View for Value {
    type V = ValueModel;

    open spec fn view(&self) -> ValueModel {
        match self {
            Value::Text(s) => ValueModel::Text(s@),
            Value::Number(s) => ValueModel::Number(s@),
            Value::Null => ValueModel::Null,
            Value::Other => ValueModel::Other,
        }
    }
}

pub open spec fn is_digit(c: char) -> bool {
    '0' <= c && c <= '9'
}

/// How many digits follow one another in `s` from position `k` on.
pub open spec fn digit_run(s: Seq<char>, k: int) -> int
    decreases s.len() - k,
{
    if 0 <= k < s.len() && is_digit(s[k]) {
        1 + digit_run(s, k + 1)
    } else {
        0
    }
}

/// End of the integer part that starts at `k`, or -1. A leading zero stands alone.
pub open spec fn int_end(s: Seq<char>, k: int) -> int {
    if digit_run(s, k) == 0 {
        -1
    } else if s[k] == '0' {
        k + 1
    } else {
        k + digit_run(s, k)
    }
}

/// End of the fraction that may start at `k`, or -1.
pub open spec fn frac_end(s: Seq<char>, k: int) -> int {
    if k < s.len() && s[k] == '.' {
        if digit_run(s, k + 1) == 0 {
            -1
        } else {
            k + 1 + digit_run(s, k + 1)
        }
    } else {
        k
    }
}

/// End of the exponent that may start at `k`, or -1.
pub open spec fn exp_end(s: Seq<char>, k: int) -> int {
    if k < s.len() && (s[k] == 'e' || s[k] == 'E') {
        let k1 = if k + 1 < s.len() && (s[k + 1] == '+' || s[k + 1] == '-') {
            k + 2
        } else {
            k + 1
        };
        if digit_run(s, k1) == 0 {
            -1
        } else {
            k1 + digit_run(s, k1)
        }
    } else {
        k
    }
}

/// Length of the JSON number at the start of `s`, or -1 where none stands there.
pub open spec fn number_end(s: Seq<char>) -> int {
    let k0: int = if s.len() > 0 && s[0] == '-' {
        1
    } else {
        0
    };
    let a = int_end(s, k0);
    if a < 0 {
        -1
    } else {
        let b = frac_end(s, a);
        if b < 0 {
            -1
        } else {
            exp_end(s, b)
        }
    }
}

/// `x` is exactly one JSON number.
pub open spec fn is_number_text(x: Seq<char>) -> bool {
    number_end(x) == x.len()
}

/// A character that could carry a number on.
pub open spec fn continues_number(c: char) -> bool {
    is_digit(c) || c == '.' || c == 'e' || c == 'E' || c == '+' || c == '-'
}

pub open spec fn starts_with(s: Seq<char>, w: Seq<char>) -> bool {
    s.len() >= w.len() && s.take(w.len() as int) == w
}

/// Reads one JSON value at the start of `s`: what it is, and what follows it.
/// Arrays and objects may nest `depth` levels deep.
pub open spec fn parse_value(s: Seq<char>, depth: nat) -> Option<(ValueModel, Seq<char>)>
    decreases depth, s.len(), 0nat,
{
    if s.len() == 0 {
        None
    } else if s[0] == '"' {
        match unescape(s.drop_first()) {
            Some((v, r)) => Some((ValueModel::Text(v), r)),
            None => None,
        }
    } else if s[0] == '-' || is_digit(s[0]) {
        let e = number_end(s);
        if e < 0 {
            None
        } else {
            Some((ValueModel::Number(s.take(e)), s.skip(e)))
        }
    } else if starts_with(s, seq!['n', 'u', 'l', 'l']) {
        Some((ValueModel::Null, s.skip(4)))
    } else if starts_with(s, seq!['t', 'r', 'u', 'e']) {
        Some((ValueModel::Other, s.skip(4)))
    } else if starts_with(s, seq!['f', 'a', 'l', 's', 'e']) {
        Some((ValueModel::Other, s.skip(5)))
    } else if (s[0] == '[' || s[0] == '{') && depth > 0 {
        let r = skip_ws(s.drop_first());
        let close = if s[0] == '[' {
            ']'
        } else {
            '}'
        };
        if r.len() > 0 && r[0] == close {
            Some((ValueModel::Other, r.drop_first()))
        } else {
            match parse_entries(r, (depth - 1) as nat, s[0] == '{') {
                Some(rest) => Some((ValueModel::Other, rest)),
                None => None,
            }
        }
    } else {
        None
    }
}

/// Reads the entries of a non-empty array (or, with `keyed`, object) from the
/// first entry through the closing bracket; gives what follows it.
pub open spec fn parse_entries(s: Seq<char>, depth: nat, keyed: bool) -> Option<Seq<char>>
    decreases depth, s.len(), 1nat,
{
    let v = if keyed {
        if s.len() > 0 && s[0] == '"' {
            match unescape(s.drop_first()) {
                Some((_k, r)) => {
                    let r = skip_ws(r);
                    if r.len() > 0 && r[0] == ':' {
                        Some(skip_ws(r.drop_first()))
                    } else {
                        None
                    }
                },
                None => None,
            }
        } else {
            None
        }
    } else {
        Some(s)
    };
    match v {
        Some(vs) => if vs.len() <= s.len() {
            match parse_value(vs, depth) {
                Some((_v, r)) => {
                    let r = skip_ws(r);
                    let close = if keyed {
                        '}'
                    } else {
                        ']'
                    };
                    if r.len() > 0 && r[0] == ',' {
                        let r2 = skip_ws(r.drop_first());
                        if r2.len() < s.len() {
                            parse_entries(r2, depth, keyed)
                        } else {
                            None
                        }
                    } else if r.len() > 0 && r[0] == close {
                        Some(r.drop_first())
                    } else {
                        None
                    }
                },
                None => None,
            }
        } else {
            None
        },
        None => None,
    }
}

fn digit_run_at(t: &str, n: usize, i: usize, k: usize) -> (d: usize)
    requires
        n == t@.len(),
        i <= n,
        k <= n - i,
    ensures
        d as int == digit_run(t@.subrange(i as int, n as int), k as int),
        k + d <= n - i,
{
    let ghost s = t@.subrange(i as int, n as int);
    let mut m: usize = k;
    while m < n - i && is_digit_char(t.get_char(i + m))
        invariant
            n == t@.len(),
            i <= n,
            k <= m <= n - i,
            s == t@.subrange(i as int, n as int),
            digit_run(s, k as int) == (m - k) + digit_run(s, m as int),
        decreases n - i - m,
    {
        assert(s[m as int] == t@[i + m]);
        m += 1;
    }
    if m < n - i {
        assert(s[m as int] == t@[i + m]);
    }
    m - k
}

fn is_digit_char(c: char) -> (r: bool)
    ensures
        r == is_digit(c),
{
    '0' <= c && c <= '9'
}

/// The end of the JSON number that starts at `i`.
pub(crate) fn scan_number_in(t: &str, n: usize, i: usize) -> (r: Option<usize>)
    requires
        n == t@.len(),
        i <= n,
    ensures
        r matches Some(j) ==> i < j <= n && j == i + number_end(t@.subrange(i as int, n as int)),
        r is None <==> number_end(t@.subrange(i as int, n as int)) < 0,
{
    let ghost s = t@.subrange(i as int, n as int);
    let len = n - i;
    let k0: usize = if len > 0 && t.get_char(i) == '-' {
        1
    } else {
        0
    };
    if len > 0 {
        assert(s[0] == t@[i as int]);
    }
    let d = digit_run_at(t, n, i, k0);
    if d == 0 {
        return None;
    }
    assert(s[k0 as int] == t@[i + k0]);
    let a: usize = if t.get_char(i + k0) == '0' {
        k0 + 1
    } else {
        k0 + d
    };
    assert(a == int_end(s, k0 as int));
    let b: usize;
    if a < len && t.get_char(i + a) == '.' {
        assert(s[a as int] == t@[i + a]);
        let d2 = digit_run_at(t, n, i, a + 1);
        if d2 == 0 {
            return None;
        }
        b = a + 1 + d2;
    } else {
        if a < len {
            assert(s[a as int] == t@[i + a]);
        }
        b = a;
    }
    assert(b == frac_end(s, a as int));
    let e: usize;
    if b < len && (t.get_char(i + b) == 'e' || t.get_char(i + b) == 'E') {
        assert(s[b as int] == t@[i + b]);
        let k1: usize = if b + 1 < len && (t.get_char(i + b + 1) == '+' || t.get_char(i + b + 1) == '-') {
            b + 2
        } else {
            b + 1
        };
        if b + 1 < len {
            assert(s[b + 1] == t@[i + b + 1]);
        }
        let d3 = digit_run_at(t, n, i, k1);
        if d3 == 0 {
            return None;
        }
        e = k1 + d3;
    } else {
        if b < len {
            assert(s[b as int] == t@[i + b]);
        }
        e = b;
    }
    assert(e == exp_end(s, b as int));
    Some(i + e)
}

/// Reads the JSON value that starts at `i`: the value and the position just past it.
pub fn read_value(t: &str, n: usize, i: usize, depth: usize) -> (r: Option<(Value, usize)>)
    requires
        n == t@.len(),
        i <= n,
    ensures
        r matches Some((v, j)) ==> i < j <= n && parse_value(t@.subrange(i as int, n as int), depth as nat) == Some(
            (v@, t@.subrange(j as int, n as int)),
        ),
        r is None <==> parse_value(t@.subrange(i as int, n as int), depth as nat) is None,
    decreases depth, n - i, 0int,
{
    let ghost s = t@.subrange(i as int, n as int);
    if i >= n {
        return None;
    }
    let c = t.get_char(i);
    assert(s[0] == c);
    assert(s.drop_first() =~= t@.subrange(i + 1, n as int));
    if c == '"' {
        return match read_string(t, n, i) {
            Some((v, j)) => Some((Value::Text(v), j)),
            None => None,
        };
    } else if c == '-' || is_digit_char(c) {
        match scan_number_in(t, n, i) {
            Some(j) => {
                let text = t.substring_char(i, j).to_owned();
                assert(s.take(j - i) =~= t@.subrange(i as int, j as int));
                assert(s.skip(j - i) =~= t@.subrange(j as int, n as int));
                return Some((Value::Number(text), j));
            },
            None => return None,
        }
    }
    proof {
        reveal_strlit("null");
        reveal_strlit("true");
        reveal_strlit("false");
        assert("null"@ =~= seq!['n', 'u', 'l', 'l']);
        assert("true"@ =~= seq!['t', 'r', 'u', 'e']);
        assert("false"@ =~= seq!['f', 'a', 'l', 's', 'e']);
    }
    if at_word(t, n, i, "null") {
        assert(s.skip(4) =~= t@.subrange(i + 4, n as int));
        Some((Value::Null, i + 4))
    } else if at_word(t, n, i, "true") {
        assert(s.skip(4) =~= t@.subrange(i + 4, n as int));
        Some((Value::Other, i + 4))
    } else if at_word(t, n, i, "false") {
        assert(s.skip(5) =~= t@.subrange(i + 5, n as int));
        Some((Value::Other, i + 5))
    } else if (c == '[' || c == '{') && depth > 0 {
        let k = skip_ws_at(t, n, i + 1);
        let close = if c == '[' {
            ']'
        } else {
            '}'
        };
        if k < n && t.get_char(k) == close {
            assert(t@.subrange(k as int, n as int)[0] == t@[k as int]);
            assert(t@.subrange(k as int, n as int).drop_first() =~= t@.subrange(k + 1, n as int));
            Some((Value::Other, k + 1))
        } else {
            if k < n {
                assert(t@.subrange(k as int, n as int)[0] == t@[k as int]);
            }
            match read_entries(t, n, k, depth - 1, c == '{') {
                Some(j) => Some((Value::Other, j)),
                None => None,
            }
        }
    } else {
        None
    }
}

/// Reads the entries of a non-empty array (or, with `keyed`, object) from the
/// one at `i` through the closing bracket; gives the position just past it.
fn read_entries(t: &str, n: usize, i: usize, depth: usize, keyed: bool) -> (r: Option<usize>)
    requires
        n == t@.len(),
        i <= n,
    ensures
        r matches Some(j) ==> i < j <= n && parse_entries(t@.subrange(i as int, n as int), depth as nat, keyed)
            == Some(t@.subrange(j as int, n as int)),
        r is None <==> parse_entries(t@.subrange(i as int, n as int), depth as nat, keyed) is None,
    decreases depth, n - i, 1int,
{
    let ghost s = t@.subrange(i as int, n as int);
    let vi: usize;
    if keyed {
        if i >= n || t.get_char(i) != '"' {
            return None;
        }
        assert(s[0] == t@[i as int]);
        assert(s.drop_first() =~= t@.subrange(i + 1, n as int));
        match read_string(t, n, i) {
            None => return None,
            Some((_key, r0)) => {
                let r1 = skip_ws_at(t, n, r0);
                if r1 >= n || t.get_char(r1) != ':' {
                    if r1 < n {
                        assert(t@.subrange(r1 as int, n as int)[0] == t@[r1 as int]);
                    }
                    return None;
                }
                assert(t@.subrange(r1 as int, n as int)[0] == t@[r1 as int]);
                assert(t@.subrange(r1 as int, n as int).drop_first() =~= t@.subrange(r1 + 1, n as int));
                vi = skip_ws_at(t, n, r1 + 1);
            },
        }
    } else {
        vi = i;
    }
    match read_value(t, n, vi, depth) {
        None => None,
        Some((_v, r0)) => {
            let r1 = skip_ws_at(t, n, r0);
            let close = if keyed {
                '}'
            } else {
                ']'
            };
            if r1 < n {
                assert(t@.subrange(r1 as int, n as int)[0] == t@[r1 as int]);
                assert(t@.subrange(r1 as int, n as int).drop_first() =~= t@.subrange(r1 + 1, n as int));
            }
            if r1 < n && t.get_char(r1) == ',' {
                let r2 = skip_ws_at(t, n, r1 + 1);
                if r2 > i {
                    read_entries(t, n, r2, depth, keyed)
                } else {
                    None
                }
            } else if r1 < n && t.get_char(r1) == close {
                Some(r1 + 1)
            } else {
                None
            }
        },
    }
}

proof fn lemma_digit_run_take(s: Seq<char>, m: int, k: int)
    requires
        0 <= k <= m <= s.len(),
    ensures
        digit_run(s.take(m), k) == if digit_run(s, k) <= m - k {
            digit_run(s, k)
        } else {
            m - k
        },
    decreases m - k,
{
    lemma_digit_run_bound(s, k);
    lemma_digit_run_bound(s.take(m), k);
    if k < m {
        assert(s.take(m)[k] == s[k]);
        lemma_digit_run_bound(s, k + 1);
        lemma_digit_run_take(s, m, k + 1);
    }
}

proof fn lemma_digit_run_bound(s: Seq<char>, k: int)
    requires
        0 <= k,
    ensures
        0 <= digit_run(s, k),
        k + digit_run(s, k) <= s.len() || digit_run(s, k) == 0,
    decreases s.len() - k,
{
    if 0 <= k < s.len() && is_digit(s[k]) {
        lemma_digit_run_bound(s, k + 1);
    }
}

/// The number at the start of a text, cut out, is one JSON number.
pub proof fn lemma_number_take(s: Seq<char>)
    requires
        number_end(s) >= 0,
    ensures
        is_number_text(s.take(number_end(s))),
{
    let e = number_end(s);
    let x = s.take(e);
    let k0: int = if s.len() > 0 && s[0] == '-' {
        1
    } else {
        0
    };
    lemma_digit_run_bound(s, k0);
    let a = int_end(s, k0);
    lemma_digit_run_bound(s, a + 1);
    let b = frac_end(s, a);
    let k1 = if b + 1 < s.len() && (s[b + 1] == '+' || s[b + 1] == '-') {
        b + 2
    } else {
        b + 1
    };
    lemma_digit_run_bound(s, k1);
    assert(k0 < a <= b <= e <= s.len());
    lemma_digit_run_take(s, e, k0);
    if a < e {
        lemma_digit_run_take(s, e, a + 1);
    }
    if b < e && b + 1 <= e {
        lemma_digit_run_take(s, e, b + 1);
    }
    if b < e && k1 <= e {
        lemma_digit_run_take(s, e, k1);
    }
    assert(x.len() == e);
    assert(forall|j: int| 0 <= j < e ==> x[j] == s[j]);
}

/// A number that `parse_value` reads is one JSON number.
pub proof fn lemma_parsed_number(s: Seq<char>, depth: nat)
    ensures
        parse_value(s, depth) matches Some((ValueModel::Number(x), _)) ==> is_number_text(x),
{
    if s.len() > 0 && (s[0] == '-' || is_digit(s[0])) && number_end(s) >= 0 {
        lemma_number_take(s);
    }
}

proof fn lemma_digit_run_extend(x: Seq<char>, tail: Seq<char>, k: int)
    requires
        0 <= k <= x.len(),
        tail.len() > 0,
        !is_digit(tail[0]),
    ensures
        digit_run(x + tail, k) == digit_run(x, k),
    decreases x.len() - k,
{
    if k < x.len() {
        assert((x + tail)[k] == x[k]);
        lemma_digit_run_extend(x, tail, k + 1);
    } else {
        assert((x + tail)[k] == tail[0]);
    }
}

/// A JSON number followed by a character that cannot carry it on is read whole.
pub proof fn lemma_number_extend(x: Seq<char>, tail: Seq<char>)
    requires
        is_number_text(x),
        tail.len() > 0,
        !continues_number(tail[0]),
    ensures
        number_end(x + tail) == x.len(),
        (x + tail)[0] == '-' || is_digit((x + tail)[0]),
{
    let s = x + tail;
    let k0: int = if x.len() > 0 && x[0] == '-' {
        1
    } else {
        0
    };
    lemma_digit_run_bound(x, k0);
    assert(x.len() > 0);
    assert(s[0] == x[0]);
    lemma_digit_run_extend(x, tail, k0);
    let a = int_end(x, k0);
    assert(s[k0] == x[k0]);
    if a < x.len() {
        assert(s[a] == x[a]);
        lemma_digit_run_bound(x, a + 1);
        lemma_digit_run_extend(x, tail, a + 1);
    } else {
        assert(s[a] == tail[0]);
    }
    let b = frac_end(x, a);
    if b < x.len() {
        assert(s[b] == x[b]);
        if b + 1 < x.len() {
            assert(s[b + 1] == x[b + 1]);
        } else {
            assert(s[b + 1] == tail[0]);
        }
        let k1 = if b + 1 < x.len() && (x[b + 1] == '+' || x[b + 1] == '-') {
            b + 2
        } else {
            b + 1
        };
        lemma_digit_run_bound(x, k1);
        lemma_digit_run_extend(x, tail, k1);
    } else {
        assert(s[b] == tail[0]);
    }
}

} // verus!
