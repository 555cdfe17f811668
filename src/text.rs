//! JSON text primitives: whitespace, string escaping and unescaping.
use vstd::prelude::*;
use vstd::string::*;

verus! {

pub open spec fn is_ws(c: char) -> bool {
    c == ' ' || c == '\t' || c == '\n' || c == '\r'
}

/// What is left of `s` once its leading whitespace is dropped.
pub open spec fn skip_ws(s: Seq<char>) -> Seq<char>
    decreases s.len(),
{
    if s.len() > 0 && is_ws(s[0]) {
        skip_ws(s.drop_first())
    } else {
        s
    }
}

/// The value of a hexadecimal digit, or -1 for any other character.
pub open spec fn hex_value(c: char) -> int {
    if '0' <= c && c <= '9' {
        c as int - '0' as int
    } else if 'a' <= c && c <= 'f' {
        c as int - 'a' as int + 10
    } else if 'A' <= c && c <= 'F' {
        c as int - 'A' as int + 10
    } else {
        -1
    }
}

/// The value of four hexadecimal digits, or -1 if one of them is not a digit.
pub open spec fn hex4(s: Seq<char>) -> int {
    if hex_value(s[0]) < 0 || hex_value(s[1]) < 0 || hex_value(s[2]) < 0 || hex_value(s[3]) < 0 {
        -1
    } else {
        ((hex_value(s[0]) * 16 + hex_value(s[1])) * 16 + hex_value(s[2])) * 16 + hex_value(s[3])
    }
}

/// The lower-case hexadecimal digit for `d` in `0..16`.
pub open spec fn hex_digit(d: int) -> char {
    if d < 10 {
        ((d + '0' as int) as u8) as char
    } else {
        ((d - 10 + 'a' as int) as u8) as char
    }
}

/// The Unicode scalar value of `c`.
pub open spec fn code_of(c: char) -> int {
    c as int
}

/// The character whose Unicode scalar value is `u`, if there is one.
pub open spec fn code_char(u: int) -> Option<char> {
    if 0 <= u && u <= 0x10FFFF && !(0xD800 <= u && u <= 0xDFFF) {
        Some(choose|c: char| code_of(c) == u)
    } else {
        None
    }
}

/// The character that a one-letter escape `\e` stands for.
pub open spec fn simple_escape(e: char) -> Option<char> {
    if e == '"' {
        Some('"')
    } else if e == '\\' {
        Some('\\')
    } else if e == '/' {
        Some('/')
    } else if e == 'b' {
        Some('\u{8}')
    } else if e == 'f' {
        Some('\u{c}')
    } else if e == 'n' {
        Some('\n')
    } else if e == 'r' {
        Some('\r')
    } else if e == 't' {
        Some('\t')
    } else {
        None
    }
}

/// Puts `p` in front of the decoded text of a parse result.
pub open spec fn prepend(p: Seq<char>, r: Option<(Seq<char>, Seq<char>)>) -> Option<(Seq<char>, Seq<char>)> {
    match r {
        Some((v, rest)) => Some((p + v, rest)),
        None => None,
    }
}

/// Decodes the body of a JSON string, `s` starting just after its opening quote:
/// the text it stands for and what follows its closing quote, or `None` where
/// the body is not well formed (an unknown escape, an unpaired surrogate, a raw
/// control character, no closing quote).
pub open spec fn unescape(s: Seq<char>) -> Option<(Seq<char>, Seq<char>)>
    decreases s.len(),
{
    if s.len() == 0 {
        None
    } else if s[0] == '"' {
        Some((Seq::empty(), s.drop_first()))
    } else if s[0] == '\\' {
        if s.len() < 2 {
            None
        } else if s[1] == 'u' {
            if s.len() < 6 {
                None
            } else {
                let u = hex4(s.subrange(2, 6));
                if u < 0 {
                    None
                } else if 0xD800 <= u && u < 0xDC00 {
                    if s.len() < 12 || s[6] != '\\' || s[7] != 'u' {
                        None
                    } else {
                        let l = hex4(s.subrange(8, 12));
                        if 0xDC00 <= l && l < 0xE000 {
                            match code_char(0x10000 + (u - 0xD800) * 0x400 + (l - 0xDC00)) {
                                Some(c) => prepend(seq![c], unescape(s.subrange(12, s.len() as int))),
                                None => None,
                            }
                        } else {
                            None
                        }
                    }
                } else {
                    match code_char(u) {
                        Some(c) => prepend(seq![c], unescape(s.subrange(6, s.len() as int))),
                        None => None,
                    }
                }
            }
        } else {
            match simple_escape(s[1]) {
                Some(c) => prepend(seq![c], unescape(s.subrange(2, s.len() as int))),
                None => None,
            }
        }
    } else if (s[0] as u32) < 0x20 {
        None
    } else {
        prepend(seq![s[0]], unescape(s.drop_first()))
    }
}

/// How one character is written inside a JSON string.
pub open spec fn escape_char(c: char) -> Seq<char> {
    if c == '"' {
        seq!['\\', '"']
    } else if c == '\\' {
        seq!['\\', '\\']
    } else if (c as u32) < 0x20 {
        seq!['\\', 'u', '0', '0', hex_digit(c as int / 16), hex_digit(c as int % 16)]
    } else {
        seq![c]
    }
}

/// The body of the JSON string for `s`, quotes left out.
pub open spec fn escape(s: Seq<char>) -> Seq<char>
    decreases s.len(),
{
    if s.len() == 0 {
        Seq::empty()
    } else {
        escape(s.drop_last()) + escape_char(s.last())
    }
}

/// The JSON string literal for `s`.
pub open spec fn quoted(s: Seq<char>) -> Seq<char> {
    seq!['"'] + escape(s) + seq!['"']
}

proof fn lemma_hex_digit(d: int)
    requires
        0 <= d < 16,
    ensures
        hex_value(hex_digit(d)) == d,
{
}

proof fn lemma_code_char(c: char)
    ensures
        code_char(c as int) == Some(c),
{
    let x = choose|x: char| code_of(x) == c as int;
    assert(code_of(c) == c as int);
    assert(code_of(x) == c as int);
}

pub proof fn lemma_prepend_prepend(a: Seq<char>, b: Seq<char>, r: Option<(Seq<char>, Seq<char>)>)
    ensures
        prepend(a, prepend(b, r)) == prepend(a + b, r),
{
    if let Some((v, rest)) = r {
        assert(a + (b + v) =~= (a + b) + v);
    }
}

/// Decoding the escaped form of one character gives that character back.
proof fn lemma_unescape_char(c: char, tail: Seq<char>)
    ensures
        unescape(escape_char(c) + tail) == prepend(seq![c], unescape(tail)),
{
    let s = escape_char(c) + tail;
    if c == '"' || c == '\\' {
        assert(s.subrange(2, s.len() as int) =~= tail);
    } else if (c as u32) < 0x20 {
        lemma_hex_digit(c as int / 16);
        lemma_hex_digit(c as int % 16);
        assert(s.subrange(2, 6) =~= seq!['0', '0', hex_digit(c as int / 16), hex_digit(c as int % 16)]);
        assert(hex4(s.subrange(2, 6)) == c as int);
        lemma_code_char(c);
        assert(s.subrange(6, s.len() as int) =~= tail);
    } else {
        assert(s.drop_first() =~= tail);
    }
}

/// Decoding an escaped text followed by `tail` gives the text back, then what `tail` gives.
pub proof fn lemma_unescape_escape(s: Seq<char>, tail: Seq<char>)
    ensures
        unescape(escape(s) + tail) == prepend(s, unescape(tail)),
    decreases s.len(),
{
    if s.len() == 0 {
        assert(escape(s) + tail =~= tail);
        if let Some((v, r)) = unescape(tail) {
            assert(s + v =~= v);
        }
    } else {
        let init = s.drop_last();
        let c = s.last();
        assert(escape(s) + tail =~= escape(init) + (escape_char(c) + tail));
        lemma_unescape_escape(init, escape_char(c) + tail);
        lemma_unescape_char(c, tail);
        lemma_prepend_prepend(init, seq![c], unescape(tail));
        assert(init + seq![c] =~= s);
    }
}

/// The JSON string literal for `s`, then `tail`, reads back as `s` with `tail` left over.
pub proof fn lemma_read_quoted(s: Seq<char>, tail: Seq<char>)
    ensures
        (quoted(s) + tail)[0] == '"',
        unescape((quoted(s) + tail).drop_first()) == Some((s, tail)),
{
    assert((quoted(s) + tail).drop_first() =~= escape(s) + (seq!['"'] + tail));
    lemma_unescape_escape(s, seq!['"'] + tail);
    assert((seq!['"'] + tail).drop_first() =~= tail);
    assert(s + Seq::<char>::empty() =~= s);
}

/// Relies on String::push: the character is appended at the end.
#[verifier::external_body]
pub(crate) fn push_char(s: &mut String, c: char)
    ensures
        final(s)@ == old(s)@.push(c),
{
    s.push(c)
}

/// Relies on char::from_u32: `Some` exactly for a Unicode scalar value, holding
/// the character with that value.
#[verifier::external_body]
fn char_from_code(u: u32) -> (r: Option<char>)
    ensures
        r == code_char(u as int),
{
    char::from_u32(u)
}

fn hex_char(d: u32) -> (c: char)
    requires
        d < 16,
    ensures
        c == hex_digit(d as int),
{
    if d < 10 {
        (d as u8 + 48u8) as char
    } else {
        (d as u8 - 10u8 + 97u8) as char
    }
}

fn hex_val(c: char) -> (r: Option<u32>)
    ensures
        r matches Some(v) ==> v as int == hex_value(c) && v < 16,
        r is None <==> hex_value(c) < 0,
{
    if '0' <= c && c <= '9' {
        Some(c as u32 - '0' as u32)
    } else if 'a' <= c && c <= 'f' {
        Some(c as u32 - 'a' as u32 + 10)
    } else if 'A' <= c && c <= 'F' {
        Some(c as u32 - 'A' as u32 + 10)
    } else {
        None
    }
}

fn read_hex4(t: &str, n: usize, k: usize) -> (r: Option<u32>)
    requires
        n == t@.len(),
        k + 4 <= n,
    ensures
        r matches Some(u) ==> u as int == hex4(t@.subrange(k as int, k + 4)) && u < 0x10000,
        r is None <==> hex4(t@.subrange(k as int, k + 4)) < 0,
{
    let ghost h = t@.subrange(k as int, k + 4);
    assert(h[0] == t@[k as int] && h[1] == t@[k + 1] && h[2] == t@[k + 2] && h[3] == t@[k + 3]);
    let a = match hex_val(t.get_char(k)) { Some(v) => v, None => return None };
    let b = match hex_val(t.get_char(k + 1)) { Some(v) => v, None => return None };
    let c = match hex_val(t.get_char(k + 2)) { Some(v) => v, None => return None };
    let d = match hex_val(t.get_char(k + 3)) { Some(v) => v, None => return None };
    Some(((a * 16 + b) * 16 + c) * 16 + d)
}

/// Appends the JSON string literal for `s` to `out`.
pub fn write_quoted(out: &mut String, s: &str)
    ensures
        final(out)@ == old(out)@ + quoted(s@),
{
    let ghost start = out@;
    push_char(out, '"');
    let n = s.unicode_len();
    let mut i: usize = 0;
    while i < n
        invariant
            n == s@.len(),
            i <= n,
            out@ == start + seq!['"'] + escape(s@.take(i as int)),
        decreases n - i,
    {
        let c = s.get_char(i);
        let ghost before = out@;
        if c == '"' || c == '\\' {
            push_char(out, '\\');
            push_char(out, c);
        } else if (c as u32) < 0x20 {
            push_char(out, '\\');
            push_char(out, 'u');
            push_char(out, '0');
            push_char(out, '0');
            push_char(out, hex_char(c as u32 / 16));
            push_char(out, hex_char(c as u32 % 16));
        } else {
            push_char(out, c);
        }
        proof {
            assert(s@.take(i + 1).drop_last() =~= s@.take(i as int));
            assert(s@.take(i + 1).last() == c);
            assert(out@ =~= before + escape_char(c));
        }
        i += 1;
    }
    push_char(out, '"');
    assert(s@.take(n as int) =~= s@);
    assert(out@ =~= start + quoted(s@));
}

/// Reads the escape sequence whose backslash stands at `k`: the character it
/// stands for and the position just past it.
#[verifier::rlimit(40)]
fn read_escape(t: &str, n: usize, k: usize) -> (r: Option<(char, usize)>)
    requires
        n == t@.len(),
        k < n,
        t@[k as int] == '\\',
    ensures
        r matches Some((ch, next)) ==> k < next <= n && unescape(t@.subrange(k as int, n as int)) == prepend(
            seq![ch],
            unescape(t@.subrange(next as int, n as int)),
        ),
        r is None ==> unescape(t@.subrange(k as int, n as int)) is None,
{
    let ghost s = t@.subrange(k as int, n as int);
    assert(s[0] == '\\');
    if n - k < 2 {
        return None;
    }
    let e = t.get_char(k + 1);
    assert(s[1] == e);
    if e == 'u' {
        if n - k < 6 {
            return None;
        }
        assert(s.subrange(2, 6) =~= t@.subrange(k + 2, k + 6));
        let u = match read_hex4(t, n, k + 2) { Some(u) => u, None => return None };
        let code: u32;
        let next: usize;
        if 0xD800 <= u && u < 0xDC00 {
            if n - k < 12 || t.get_char(k + 6) != '\\' || t.get_char(k + 7) != 'u' {
                return None;
            }
            assert(s[6] == t@[k + 6] && s[7] == t@[k + 7]);
            assert(s.subrange(8, 12) =~= t@.subrange(k + 8, k + 12));
            let l = match read_hex4(t, n, k + 8) { Some(l) => l, None => return None };
            if !(0xDC00 <= l && l < 0xE000) {
                return None;
            }
            code = 0x10000 + (u - 0xD800) * 0x400 + (l - 0xDC00);
            next = k + 12;
        } else {
            code = u;
            next = k + 6;
        }
        let ch = match char_from_code(code) { Some(ch) => ch, None => return None };
        assert(s.subrange(next - k, s.len() as int) =~= t@.subrange(next as int, n as int));
        Some((ch, next))
    } else {
        let ch = if e == '"' {
            '"'
        } else if e == '\\' {
            '\\'
        } else if e == '/' {
            '/'
        } else if e == 'b' {
            '\u{8}'
        } else if e == 'f' {
            '\u{c}'
        } else if e == 'n' {
            '\n'
        } else if e == 'r' {
            '\r'
        } else if e == 't' {
            '\t'
        } else {
            return None;
        };
        assert(s.subrange(2, s.len() as int) =~= t@.subrange(k + 2, n as int));
        Some((ch, k + 2))
    }
}

/// Reads the JSON string whose opening quote stands at `i`: its text and the
/// position just past its closing quote.
pub fn read_string(t: &str, n: usize, i: usize) -> (r: Option<(String, usize)>)
    requires
        n == t@.len(),
        i < n,
    ensures
        r matches Some((v, j)) ==> i < j <= n && unescape(t@.subrange(i + 1, n as int)) == Some(
            (v@, t@.subrange(j as int, n as int)),
        ),
        r is None <==> unescape(t@.subrange(i + 1, n as int)) is None,
{
    let mut out = String::new();
    let mut k: usize = i + 1;
    assert(out@ + Seq::<char>::empty() =~= Seq::<char>::empty());
    while k < n
        invariant
            n == t@.len(),
            i < k <= n,
            unescape(t@.subrange(i + 1, n as int)) == prepend(out@, unescape(t@.subrange(k as int, n as int))),
        decreases n - k,
    {
        let ghost s = t@.subrange(k as int, n as int);
        let c = t.get_char(k);
        assert(s[0] == c);
        if c == '"' {
            assert(out@ + Seq::<char>::empty() =~= out@);
            assert(s.drop_first() =~= t@.subrange(k + 1, n as int));
            return Some((out, k + 1));
        } else if c == '\\' {
            let (ch, next) = match read_escape(t, n, k) { Some(p) => p, None => return None };
            proof { lemma_prepend_prepend(out@, seq![ch], unescape(t@.subrange(next as int, n as int))); }
            push_char(&mut out, ch);
            k = next;
        } else if (c as u32) < 0x20 {
            return None;
        } else {
            assert(s.drop_first() =~= t@.subrange(k + 1, n as int));
            proof { lemma_prepend_prepend(out@, seq![c], unescape(t@.subrange(k + 1, n as int))); }
            push_char(&mut out, c);
            k = k + 1;
        }
    }
    None
}

/// The first position at or after `i` that holds no whitespace.
pub fn skip_ws_at(t: &str, n: usize, i: usize) -> (j: usize)
    requires
        n == t@.len(),
        i <= n,
    ensures
        i <= j <= n,
        t@.subrange(j as int, n as int) == skip_ws(t@.subrange(i as int, n as int)),
{
    let mut j: usize = i;
    loop
        invariant
            n == t@.len(),
            i <= j <= n,
            skip_ws(t@.subrange(i as int, n as int)) == skip_ws(t@.subrange(j as int, n as int)),
        ensures
            i <= j <= n,
            skip_ws(t@.subrange(i as int, n as int)) == t@.subrange(j as int, n as int),
        decreases n - j,
    {
        if j >= n {
            assert(t@.subrange(j as int, n as int).len() == 0);
            break;
        }
        let c = t.get_char(j);
        assert(t@.subrange(j as int, n as int)[0] == c);
        if !(c == ' ' || c == '\t' || c == '\n' || c == '\r') {
            break;
        }
        assert(t@.subrange(j + 1, n as int) =~= t@.subrange(j as int, n as int).drop_first());
        j += 1;
    }
    j
}

/// Whether the text from `i` on starts with `w`.
pub fn at_word(t: &str, n: usize, i: usize, w: &str) -> (r: bool)
    requires
        n == t@.len(),
        i <= n,
    ensures
        r == (t@.subrange(i as int, n as int).len() >= w@.len() && t@.subrange(i as int, n as int).take(
            w@.len() as int,
        ) == w@),
{
    let m = w.unicode_len();
    if n - i < m {
        return false;
    }
    let mut k: usize = 0;
    while k < m
        invariant
            n == t@.len(),
            m == w@.len(),
            i + m <= n,
            k <= m,
            forall|q: int| 0 <= q < k ==> t@[i + q] == w@[q],
        decreases m - k,
    {
        if t.get_char(i + k) != w.get_char(k) {
            assert(t@.subrange(i as int, n as int).take(m as int)[k as int] != w@[k as int]);
            return false;
        }
        k += 1;
    }
    assert(t@.subrange(i as int, n as int).take(m as int) =~= w@);
    true
}

/// Whether `a` and `b` hold the same text.
pub fn same_text(a: &str, b: &str) -> (r: bool)
    ensures
        r == (a@ == b@),
{
    let n = a.unicode_len();
    if n != b.unicode_len() {
        return false;
    }
    let mut k: usize = 0;
    while k < n
        invariant
            n == a@.len(),
            n == b@.len(),
            k <= n,
            forall|q: int| 0 <= q < k ==> a@[q] == b@[q],
        decreases n - k,
    {
        if a.get_char(k) != b.get_char(k) {
            return false;
        }
        k += 1;
    }
    assert(a@ =~= b@);
    true
}

} // verus!
