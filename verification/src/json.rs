//! The character-level building blocks of the wire format.
//!
//! Encoders are specified by spec functions that give the exact character
//! sequence produced: in a string, `"` and `\` are escaped with a backslash,
//! control characters as `\u00XX`, and every other character stands for
//! itself; arrays are written without whitespace.
//!
//! Decoders are specified by spec parsers that consume a prefix of a
//! character sequence and return the parsed value and the remainder; each
//! executable parser is proved to agree with its spec parser. The decoders
//! accept the JSON grammar: whitespace between tokens, the full escape set
//! (`\"`, `\\`, `\/`, `\b`, `\f`, `\n`, `\r`, `\t`, `\uXXXX` with surrogate
//! pairs), and decimal integers in the `i32` range. A generic value skipper
//! consumes any JSON value, so object decoders can ignore unknown fields.

use vstd::prelude::*;
use vstd::utf8::char_u32_cast;

verus! {

/// The characters of `s` from index `i` to the end.
pub open spec fn suffix_of(s: Seq<char>, i: int) -> Seq<char> {
    s.subrange(i, s.len() as int)
}

/// JSON insignificant whitespace.
pub open spec fn is_ws(c: char) -> bool {
    c == ' ' || c == '\t' || c == '\n' || c == '\r'
}

/// `s` with its leading whitespace removed.
pub open spec fn sp_ws(s: Seq<char>) -> Seq<char>
    decreases s.len(),
{
    if s.len() > 0 && is_ws(s[0]) {
        sp_ws(s.skip(1))
    } else {
        s
    }
}

pub open spec fn is_digit(c: char) -> bool {
    48 <= c as u32 <= 57
}

pub open spec fn digit_val(c: char) -> int {
    c as u32 - 48
}

/// The value of a hexadecimal digit, or -1 for any other character.
pub open spec fn hex_val(c: char) -> int {
    if 48 <= c as u32 <= 57 {
        c as u32 - 48
    } else if 97 <= c as u32 <= 102 {
        c as u32 - 87
    } else if 65 <= c as u32 <= 70 {
        c as u32 - 55
    } else {
        -1
    }
}

pub open spec fn is_hex(c: char) -> bool {
    hex_val(c) >= 0
}

/// The value of the four hexadecimal digits of `s` starting at `k`.
pub open spec fn hex4_at(s: Seq<char>, k: int) -> int {
    hex_val(s[k]) * 4096 + hex_val(s[k + 1]) * 256 + hex_val(s[k + 2]) * 16 + hex_val(s[k + 3])
}

/// The lowercase hexadecimal digit for a value below sixteen.
pub open spec fn hex_digit(d: int) -> char {
    if d == 0 {
        '0'
    } else if d == 1 {
        '1'
    } else if d == 2 {
        '2'
    } else if d == 3 {
        '3'
    } else if d == 4 {
        '4'
    } else if d == 5 {
        '5'
    } else if d == 6 {
        '6'
    } else if d == 7 {
        '7'
    } else if d == 8 {
        '8'
    } else if d == 9 {
        '9'
    } else if d == 10 {
        'a'
    } else if d == 11 {
        'b'
    } else if d == 12 {
        'c'
    } else if d == 13 {
        'd'
    } else if d == 14 {
        'e'
    } else {
        'f'
    }
}

/// The character a short escape after a backslash stands for, if any.
pub open spec fn esc_code(c: char) -> Option<char> {
    if c == '"' {
        Some('"')
    } else if c == '\\' {
        Some('\\')
    } else if c == '/' {
        Some('/')
    } else if c == 'b' {
        Some('\u{8}')
    } else if c == 'f' {
        Some('\u{c}')
    } else if c == 'n' {
        Some('\n')
    } else if c == 'r' {
        Some('\r')
    } else if c == 't' {
        Some('\t')
    } else {
        None
    }
}

/// The escape this module's encoders write for one character.
pub open spec fn esc_char(c: char) -> Seq<char> {
    if c == '"' {
        seq!['\\', '"']
    } else if c == '\\' {
        seq!['\\', '\\']
    } else if (c as u32) < 32 {
        seq!['\\', 'u', '0', '0', hex_digit(c as u32 as int / 16), hex_digit(c as u32 as int % 16)]
    } else {
        seq![c]
    }
}

/// The encoded form of a whole string body.
pub open spec fn esc(s: Seq<char>) -> Seq<char>
    decreases s.len(),
{
    if s.len() == 0 {
        Seq::empty()
    } else {
        esc_char(s[0]) + esc(s.skip(1))
    }
}

/// A string as this module's encoders write it: quoted and escaped.
pub open spec fn quoted(s: Seq<char>) -> Seq<char> {
    seq!['"'] + (esc(s) + seq!['"'])
}

/// The items of a string array together with the closing bracket, as the
/// encoders write them.
pub open spec fn str_items_enc(vs: Seq<Seq<char>>) -> Seq<char>
    decreases vs.len(),
{
    if vs.len() == 0 {
        seq![']']
    } else if vs.len() == 1 {
        quoted(vs[0]) + seq![']']
    } else {
        quoted(vs[0]) + (seq![','] + str_items_enc(vs.skip(1)))
    }
}

/// A string array as the encoders write it.
pub open spec fn str_array_enc(vs: Seq<Seq<char>>) -> Seq<char> {
    seq!['['] + str_items_enc(vs)
}

proof fn lemma_esc_push(s: Seq<char>, c: char)
    ensures
        esc(s.push(c)) == esc(s) + esc_char(c),
    decreases s.len(),
{
    if s.len() == 0 {
        reveal_with_fuel(esc, 2);
        assert(s.push(c)[0] == c);
        assert(s.push(c).skip(1) =~= Seq::<char>::empty());
        assert(esc(s.push(c)) =~= esc(s) + esc_char(c));
    } else {
        assert(s.push(c)[0] == s[0]);
        assert(s.push(c).skip(1) =~= s.skip(1).push(c));
        lemma_esc_push(s.skip(1), c);
        assert(esc(s.push(c)) =~= esc(s) + esc_char(c));
    }
}

/// Appends the characters of the literal `l` to `out`.
pub fn write_lit(out: &mut Vec<char>, l: &str)
    ensures
        final(out)@ == old(out)@ + l@,
{
    let n: usize = l.unicode_len();
    let mut j: usize = 0;
    while j < n
        invariant
            j <= n,
            n == l@.len(),
            out@ == old(out)@ + l@.take(j as int),
        decreases n - j,
    {
        out.push(l.get_char(j));
        proof {
            assert(l@.take(j as int).push(l@[j as int]) =~= l@.take(j as int + 1));
        }
        j = j + 1;
    }
    proof {
        assert(l@.take(n as int) =~= l@);
    }
}

fn hex_digit_char(d: u32) -> (c: char)
    requires
        d < 16,
    ensures
        c == hex_digit(d as int),
{
    if d == 0 {
        '0'
    } else if d == 1 {
        '1'
    } else if d == 2 {
        '2'
    } else if d == 3 {
        '3'
    } else if d == 4 {
        '4'
    } else if d == 5 {
        '5'
    } else if d == 6 {
        '6'
    } else if d == 7 {
        '7'
    } else if d == 8 {
        '8'
    } else if d == 9 {
        '9'
    } else if d == 10 {
        'a'
    } else if d == 11 {
        'b'
    } else if d == 12 {
        'c'
    } else if d == 13 {
        'd'
    } else if d == 14 {
        'e'
    } else {
        'f'
    }
}

/// Appends the quoted, escaped form of `s` to `out`.
pub fn write_quoted(out: &mut Vec<char>, s: &Vec<char>)
    ensures
        final(out)@ == old(out)@ + quoted(s@),
{
    out.push('"');
    let mut j: usize = 0;
    while j < s.len()
        invariant
            j <= s@.len(),
            out@ == old(out)@ + seq!['"'] + esc(s@.take(j as int)),
        decreases s@.len() - j,
    {
        let c = s[j];
        if c == '"' || c == '\\' {
            out.push('\\');
            out.push(c);
        } else {
            let cv = c as u32;
            if cv < 32 {
                out.push('\\');
                out.push('u');
                out.push('0');
                out.push('0');
                out.push(hex_digit_char(cv / 16));
                out.push(hex_digit_char(cv % 16));
            } else {
                out.push(c);
            }
        }
        proof {
            lemma_esc_push(s@.take(j as int), c);
            assert(s@.take(j as int).push(c) =~= s@.take(j as int + 1));
            assert(out@ =~= old(out)@ + seq!['"'] + esc(s@.take(j as int + 1)));
        }
        j = j + 1;
    }
    out.push('"');
    proof {
        assert(s@.take(s@.len() as int) =~= s@);
        assert(out@ =~= old(out)@ + quoted(s@));
    }
}

fn write_str_items(out: &mut Vec<char>, vs: &Vec<Vec<char>>, i: usize)
    requires
        i <= vs@.len(),
    ensures
        final(out)@ == old(out)@ + str_items_enc(vs@.map_values(|v: Vec<char>| v@).skip(i as int)),
    decreases vs@.len() - i,
{
    let ghost m = vs@.map_values(|v: Vec<char>| v@);
    if i == vs.len() {
        out.push(']');
        proof {
            assert(m.skip(i as int).len() == 0);
            assert(out@ =~= old(out)@ + str_items_enc(m.skip(i as int)));
        }
    } else if i + 1 == vs.len() {
        write_quoted(out, &vs[i]);
        out.push(']');
        proof {
            assert(m.skip(i as int)[0] == vs@[i as int]@);
            assert(out@ =~= old(out)@ + str_items_enc(m.skip(i as int)));
        }
    } else {
        write_quoted(out, &vs[i]);
        out.push(',');
        write_str_items(out, vs, i + 1);
        proof {
            assert(m.skip(i as int)[0] == vs@[i as int]@);
            assert(m.skip(i as int).skip(1) =~= m.skip(i as int + 1));
            assert(out@ =~= old(out)@ + str_items_enc(m.skip(i as int)));
        }
    }
}

/// Appends the array form of `vs` to `out`.
pub fn write_str_array(out: &mut Vec<char>, vs: &Vec<Vec<char>>)
    ensures
        final(out)@ == old(out)@ + str_array_enc(vs@.map_values(|v: Vec<char>| v@)),
{
    out.push('[');
    write_str_items(out, vs, 0);
    proof {
        let m = vs@.map_values(|v: Vec<char>| v@);
        assert(m.skip(0) =~= m);
        assert(out@ =~= old(out)@ + str_array_enc(m));
    }
}

/// Consumes the literal `l` from the front of `s`.
pub open spec fn sp_lit(s: Seq<char>, l: Seq<char>) -> Option<Seq<char>> {
    if l.len() <= s.len() && s.take(l.len() as int) == l {
        Some(s.skip(l.len() as int))
    } else {
        None
    }
}

/// Consumes a string body up to and including the closing quote, decoding
/// the JSON escapes; unescaped control characters are refused.
pub open spec fn sp_str_body(s: Seq<char>) -> Option<(Seq<char>, Seq<char>)>
    decreases s.len(),
{
    if s.len() == 0 {
        None
    } else if s[0] == '"' {
        Some((Seq::empty(), s.skip(1)))
    } else if s[0] == '\\' {
        if s.len() < 2 {
            None
        } else if esc_code(s[1]) is Some {
            match sp_str_body(s.skip(2)) {
                Some(p) => Some((seq![esc_code(s[1])->Some_0] + p.0, p.1)),
                None => None,
            }
        } else if s[1] == 'u' {
            if s.len() >= 6 && is_hex(s[2]) && is_hex(s[3]) && is_hex(s[4]) && is_hex(s[5]) {
                let v = hex4_at(s, 2);
                if 0xD800 <= v < 0xDC00 {
                    if s.len() >= 12 && s[6] == '\\' && s[7] == 'u' && is_hex(s[8]) && is_hex(s[9])
                        && is_hex(s[10]) && is_hex(s[11]) {
                        let w = hex4_at(s, 8);
                        if 0xDC00 <= w < 0xE000 {
                            let cp = 0x10000 + (v - 0xD800) * 0x400 + (w - 0xDC00);
                            match sp_str_body(s.skip(12)) {
                                Some(p) => Some((seq![(cp as u32) as char] + p.0, p.1)),
                                None => None,
                            }
                        } else {
                            None
                        }
                    } else {
                        None
                    }
                } else if 0xDC00 <= v < 0xE000 {
                    None
                } else {
                    match sp_str_body(s.skip(6)) {
                        Some(p) => Some((seq![(v as u32) as char] + p.0, p.1)),
                        None => None,
                    }
                }
            } else {
                None
            }
        } else {
            None
        }
    } else if (s[0] as u32) < 32 {
        None
    } else {
        match sp_str_body(s.skip(1)) {
            Some(p) => Some((seq![s[0]] + p.0, p.1)),
            None => None,
        }
    }
}

/// Consumes a quoted string from the front of `s`.
pub open spec fn sp_string(s: Seq<char>) -> Option<(Seq<char>, Seq<char>)> {
    if s.len() > 0 && s[0] == '"' {
        sp_str_body(s.skip(1))
    } else {
        None
    }
}

/// Consumes a run of digits, accumulating left to right onto `acc`; fails
/// if the value would pass the magnitude of the smallest `i32`.
pub open spec fn sp_digits(s: Seq<char>, acc: int) -> Option<(int, Seq<char>)>
    decreases s.len(),
{
    if s.len() > 0 && is_digit(s[0]) {
        if acc * 10 + digit_val(s[0]) <= 2147483648 {
            sp_digits(s.skip(1), acc * 10 + digit_val(s[0]))
        } else {
            None
        }
    } else {
        Some((acc, s))
    }
}

/// Consumes an unsigned decimal: a lone `0`, or a nonzero digit followed by
/// more digits.
pub open spec fn sp_uint(s: Seq<char>) -> Option<(int, Seq<char>)> {
    if s.len() == 0 || !is_digit(s[0]) {
        None
    } else if s[0] == '0' {
        Some((0, s.skip(1)))
    } else {
        sp_digits(s, 0)
    }
}

/// Consumes a signed decimal in the `i32` range.
pub open spec fn sp_int(s: Seq<char>) -> Option<(i32, Seq<char>)> {
    if s.len() > 0 && s[0] == '-' {
        match sp_uint(s.skip(1)) {
            Some(p) => if p.0 <= 2147483648 {
                Some(((0 - p.0) as i32, p.1))
            } else {
                None
            },
            None => None,
        }
    } else {
        match sp_uint(s) {
            Some(p) => if p.0 <= 2147483647 {
                Some((p.0 as i32, p.1))
            } else {
                None
            },
            None => None,
        }
    }
}

/// Consumes the items of a nonempty integer array up to and including the
/// closing bracket, with whitespace around the separators.
pub open spec fn sp_int_items(s: Seq<char>) -> Option<(Seq<i32>, Seq<char>)>
    decreases s.len(),
{
    match sp_int(s) {
        None => None,
        Some(p) => {
            let r = sp_ws(p.1);
            if r.len() > 0 && r[0] == ',' {
                let nxt = sp_ws(r.skip(1));
                if nxt.len() >= s.len() {
                    None
                } else {
                    match sp_int_items(nxt) {
                        Some(q) => Some((seq![p.0] + q.0, q.1)),
                        None => None,
                    }
                }
            } else if r.len() > 0 && r[0] == ']' {
                Some((seq![p.0], r.skip(1)))
            } else {
                None
            }
        },
    }
}

/// Consumes an integer array from the front of `s`.
pub open spec fn sp_int_array(s: Seq<char>) -> Option<(Seq<i32>, Seq<char>)> {
    if s.len() > 0 && s[0] == '[' {
        let r = sp_ws(s.skip(1));
        if r.len() > 0 && r[0] == ']' {
            Some((Seq::empty(), r.skip(1)))
        } else {
            sp_int_items(r)
        }
    } else {
        None
    }
}

/// Consumes the items of a nonempty string array up to and including the
/// closing bracket, with whitespace around the separators.
pub open spec fn sp_str_items(s: Seq<char>) -> Option<(Seq<Seq<char>>, Seq<char>)>
    decreases s.len(),
{
    match sp_string(s) {
        None => None,
        Some(p) => {
            let r = sp_ws(p.1);
            if r.len() > 0 && r[0] == ',' {
                let nxt = sp_ws(r.skip(1));
                if nxt.len() >= s.len() {
                    None
                } else {
                    match sp_str_items(nxt) {
                        Some(q) => Some((seq![p.0] + q.0, q.1)),
                        None => None,
                    }
                }
            } else if r.len() > 0 && r[0] == ']' {
                Some((seq![p.0], r.skip(1)))
            } else {
                None
            }
        },
    }
}

/// Consumes a string array from the front of `s`.
pub open spec fn sp_str_array(s: Seq<char>) -> Option<(Seq<Seq<char>>, Seq<char>)> {
    if s.len() > 0 && s[0] == '[' {
        let r = sp_ws(s.skip(1));
        if r.len() > 0 && r[0] == ']' {
            Some((Seq::empty(), r.skip(1)))
        } else {
            sp_str_items(r)
        }
    } else {
        None
    }
}

/// `s` with a leading run of digits removed.
pub open spec fn sp_skip_digits(s: Seq<char>) -> Seq<char>
    decreases s.len(),
{
    if s.len() > 0 && is_digit(s[0]) {
        sp_skip_digits(s.skip(1))
    } else {
        s
    }
}

/// Consumes the exponent part of a JSON number, if one is present.
pub open spec fn sp_skip_exp(s: Seq<char>) -> Option<Seq<char>> {
    if s.len() > 0 && (s[0] == 'e' || s[0] == 'E') {
        let t = if s.len() >= 2 && (s[1] == '+' || s[1] == '-') {
            s.skip(2)
        } else {
            s.skip(1)
        };
        if t.len() > 0 && is_digit(t[0]) {
            Some(sp_skip_digits(t))
        } else {
            None
        }
    } else {
        Some(s)
    }
}

/// Consumes a JSON number without computing its value.
pub open spec fn sp_skip_number(s: Seq<char>) -> Option<Seq<char>> {
    let a = if s.len() > 0 && s[0] == '-' {
        s.skip(1)
    } else {
        s
    };
    if a.len() == 0 || !is_digit(a[0]) {
        None
    } else {
        let b = if a[0] == '0' {
            a.skip(1)
        } else {
            sp_skip_digits(a)
        };
        if b.len() > 0 && b[0] == '.' {
            if b.len() >= 2 && is_digit(b[1]) {
                sp_skip_exp(sp_skip_digits(b.skip(1)))
            } else {
                None
            }
        } else {
            sp_skip_exp(b)
        }
    }
}

/// Consumes any one JSON value without interpreting it.
pub open spec fn sp_skip_value(s: Seq<char>) -> Option<Seq<char>>
    decreases s.len(), 0int,
{
    if s.len() == 0 {
        None
    } else if s[0] == '"' {
        match sp_str_body(s.skip(1)) {
            Some(p) => Some(p.1),
            None => None,
        }
    } else if s[0] == '{' {
        let r = sp_ws(s.skip(1));
        if r.len() > 0 && r[0] == '}' {
            Some(r.skip(1))
        } else if r.len() < s.len() {
            sp_skip_members(r)
        } else {
            None
        }
    } else if s[0] == '[' {
        let r = sp_ws(s.skip(1));
        if r.len() > 0 && r[0] == ']' {
            Some(r.skip(1))
        } else if r.len() < s.len() {
            sp_skip_elements(r)
        } else {
            None
        }
    } else if s[0] == 't' {
        sp_lit(s, "true"@)
    } else if s[0] == 'f' {
        sp_lit(s, "false"@)
    } else if s[0] == 'n' {
        sp_lit(s, "null"@)
    } else if s[0] == '-' || is_digit(s[0]) {
        sp_skip_number(s)
    } else {
        None
    }
}

/// Consumes the members of a nonempty object, values uninterpreted, up to
/// and including the closing brace.
pub open spec fn sp_skip_members(s: Seq<char>) -> Option<Seq<char>>
    decreases s.len(), 1int,
{
    match sp_string(s) {
        None => None,
        Some(p) => {
            let r1 = sp_ws(p.1);
            if r1.len() == 0 || r1[0] != ':' {
                None
            } else {
                let r2 = sp_ws(r1.skip(1));
                if r2.len() >= s.len() {
                    None
                } else {
                    match sp_skip_value(r2) {
                        None => None,
                        Some(r3) => {
                            let r4 = sp_ws(r3);
                            if r4.len() > 0 && r4[0] == ',' {
                                let r5 = sp_ws(r4.skip(1));
                                if r5.len() >= s.len() {
                                    None
                                } else {
                                    sp_skip_members(r5)
                                }
                            } else if r4.len() > 0 && r4[0] == '}' {
                                Some(r4.skip(1))
                            } else {
                                None
                            }
                        },
                    }
                }
            }
        },
    }
}

/// Consumes the elements of a nonempty array, values uninterpreted, up to
/// and including the closing bracket.
pub open spec fn sp_skip_elements(s: Seq<char>) -> Option<Seq<char>>
    decreases s.len(), 1int,
{
    match sp_skip_value(s) {
        None => None,
        Some(r0) => {
            let r = sp_ws(r0);
            if r.len() > 0 && r[0] == ',' {
                let nxt = sp_ws(r.skip(1));
                if nxt.len() >= s.len() {
                    None
                } else {
                    sp_skip_elements(nxt)
                }
            } else if r.len() > 0 && r[0] == ']' {
                Some(r.skip(1))
            } else {
                None
            }
        },
    }
}

proof fn lemma_suffix_skip(s: Seq<char>, i: int, k: int)
    requires
        0 <= i,
        0 <= k,
        i + k <= s.len(),
    ensures
        suffix_of(s, i).skip(k) == suffix_of(s, i + k),
{
    assert(suffix_of(s, i).skip(k) =~= suffix_of(s, i + k));
}

/// Advances past JSON whitespace.
pub fn skip_ws(s: &Vec<char>, i: usize) -> (j: usize)
    requires
        i <= s@.len(),
    ensures
        i <= j <= s@.len(),
        sp_ws(suffix_of(s@, i as int)) == suffix_of(s@, j as int),
    decreases s@.len() - i,
{
    if i == s.len() {
        return i;
    }
    let c = s[i];
    proof {
        assert(suffix_of(s@, i as int)[0] == s@[i as int]);
    }
    if c == ' ' || c == '\t' || c == '\n' || c == '\r' {
        proof {
            lemma_suffix_skip(s@, i as int, 1);
        }
        skip_ws(s, i + 1)
    } else {
        i
    }
}

/// Advances past a run of digits.
fn skip_digits(s: &Vec<char>, i: usize) -> (j: usize)
    requires
        i <= s@.len(),
    ensures
        i <= j <= s@.len(),
        sp_skip_digits(suffix_of(s@, i as int)) == suffix_of(s@, j as int),
        i < s@.len() && is_digit(s@[i as int]) ==> i < j,
    decreases s@.len() - i,
{
    if i == s.len() {
        return i;
    }
    let cv = s[i] as u32;
    proof {
        assert(suffix_of(s@, i as int)[0] == s@[i as int]);
    }
    if 48 <= cv && cv <= 57 {
        proof {
            lemma_suffix_skip(s@, i as int, 1);
        }
        skip_digits(s, i + 1)
    } else {
        i
    }
}

/// Matches the literal `l` at position `i` of `s`.
pub fn parse_lit(s: &Vec<char>, i: usize, l: &str) -> (r: Option<usize>)
    requires
        i <= s@.len(),
    ensures
        match r {
            Some(j) => i <= j <= s@.len() && sp_lit(suffix_of(s@, i as int), l@) == Some(
                suffix_of(s@, j as int),
            ),
            None => sp_lit(suffix_of(s@, i as int), l@) is None,
        },
{
    let n: usize = l.unicode_len();
    if n > s.len() - i {
        return None;
    }
    let mut k: usize = 0;
    while k < n
        invariant
            k <= n,
            n == l@.len(),
            i <= s@.len(),
            s@.len() <= usize::MAX,
            n <= s@.len() - i,
            forall|t: int| 0 <= t < k ==> s@[i + t] == l@[t],
        decreases n - k,
    {
        if s[i + k] != l.get_char(k) {
            proof {
                assert(suffix_of(s@, i as int).take(n as int)[k as int] == s@[i + k]);
                assert(suffix_of(s@, i as int).take(n as int) != l@);
            }
            return None;
        }
        k = k + 1;
    }
    proof {
        assert(suffix_of(s@, i as int).take(n as int) =~= l@);
        lemma_suffix_skip(s@, i as int, n as int);
    }
    Some(i + n)
}

/// Compares the contents of `v` with the literal `l`.
pub fn eq_lit(v: &Vec<char>, l: &str) -> (r: bool)
    ensures
        r == (v@ == l@),
{
    let n: usize = l.unicode_len();
    if n != v.len() {
        return false;
    }
    let mut k: usize = 0;
    while k < n
        invariant
            k <= n,
            n == l@.len(),
            n == v@.len(),
            forall|t: int| 0 <= t < k ==> v@[t] == l@[t],
        decreases n - k,
    {
        if v[k] != l.get_char(k) {
            return false;
        }
        k = k + 1;
    }
    proof {
        assert(v@ =~= l@);
    }
    true
}

/// Relies on char::from_u32: it returns Some exactly for the code points
/// that are valid Unicode scalar values (not surrogates, at most 0x10FFFF),
/// and the returned character has the given code point.
pub assume_specification[ char::from_u32 ](v: u32) -> (r: Option<char>)
    ensures
        r is Some <==> (v < 0xD800 || (0xE000 <= v && v <= 0x10FFFF)),
        (r matches Some(c) ==> c as u32 == v),
;

fn hex_val_of(c: char) -> (r: i32)
    ensures
        r == hex_val(c),
        -1 <= r < 16,
{
    let cv = c as u32;
    if 48 <= cv && cv <= 57 {
        (cv - 48) as i32
    } else if 97 <= cv && cv <= 102 {
        (cv - 87) as i32
    } else if 65 <= cv && cv <= 70 {
        (cv - 55) as i32
    } else {
        -1
    }
}

fn esc_code_of(c: char) -> (r: Option<char>)
    ensures
        r == esc_code(c),
{
    if c == '"' {
        Some('"')
    } else if c == '\\' {
        Some('\\')
    } else if c == '/' {
        Some('/')
    } else if c == 'b' {
        Some('\u{8}')
    } else if c == 'f' {
        Some('\u{c}')
    } else if c == 'n' {
        Some('\n')
    } else if c == 'r' {
        Some('\r')
    } else if c == 't' {
        Some('\t')
    } else {
        None
    }
}

/// Reads the four hexadecimal digits at position `k`, if they are there.
fn hex4_of(s: &Vec<char>, k: usize) -> (r: Option<u32>)
    requires
        k + 4 <= s@.len(),
    ensures
        match r {
            Some(v) => is_hex(s@[k as int]) && is_hex(s@[k as int + 1]) && is_hex(
                s@[k as int + 2],
            ) && is_hex(s@[k as int + 3]) && v == hex4_at(s@, k as int) && v <= 0xFFFF,
            None => !(is_hex(s@[k as int]) && is_hex(s@[k as int + 1]) && is_hex(
                s@[k as int + 2],
            ) && is_hex(s@[k as int + 3])),
        },
{
    let n = s.len();
    proof {
        assert(k + 4 <= n);
    }
    let h0 = hex_val_of(s[k]);
    let h1 = hex_val_of(s[k + 1]);
    let h2 = hex_val_of(s[k + 2]);
    let h3 = hex_val_of(s[k + 3]);
    if h0 < 0 || h1 < 0 || h2 < 0 || h3 < 0 {
        return None;
    }
    Some((h0 as u32) * 4096 + (h1 as u32) * 256 + (h2 as u32) * 16 + (h3 as u32))
}

fn parse_str_body(s: &Vec<char>, i: usize) -> (r: Option<(Vec<char>, usize)>)
    requires
        i <= s@.len(),
    ensures
        match r {
            Some(p) => i < p.1 <= s@.len() && sp_str_body(suffix_of(s@, i as int)) == Some(
                (p.0@, suffix_of(s@, p.1 as int)),
            ),
            None => sp_str_body(suffix_of(s@, i as int)) is None,
        },
    decreases s@.len() - i,
{
    if i == s.len() {
        return None;
    }
    let c = s[i];
    proof {
        assert(suffix_of(s@, i as int)[0] == s@[i as int]);
    }
    if c == '"' {
        proof {
            lemma_suffix_skip(s@, i as int, 1);
        }
        Some((Vec::new(), i + 1))
    } else if c == '\\' {
        if i + 1 == s.len() {
            return None;
        }
        let c2 = s[i + 1];
        proof {
            assert(suffix_of(s@, i as int)[1] == s@[i as int + 1]);
        }
        match esc_code_of(c2) {
            Some(ec) => {
                proof {
                    lemma_suffix_skip(s@, i as int, 2);
                }
                match parse_str_body(s, i + 2) {
                    Some(p) => {
                        let (mut v, j) = p;
                        let ghost v0 = v@;
                        v.insert(0, ec);
                        proof {
                            assert(v@ =~= seq![ec] + v0);
                        }
                        Some((v, j))
                    },
                    None => None,
                }
            },
            None => {
                if c2 != 'u' {
                    return None;
                }
                if s.len() - i < 6 {
                    return None;
                }
                proof {
                    assert(suffix_of(s@, i as int)[2] == s@[i as int + 2]);
                    assert(suffix_of(s@, i as int)[3] == s@[i as int + 3]);
                    assert(suffix_of(s@, i as int)[4] == s@[i as int + 4]);
                    assert(suffix_of(s@, i as int)[5] == s@[i as int + 5]);
                    assert(hex4_at(suffix_of(s@, i as int), 2) == hex4_at(s@, i as int + 2));
                }
                let v = match hex4_of(s, i + 2) {
                    Some(v) => v,
                    None => { return None; },
                };
                if 0xD800 <= v && v < 0xDC00 {
                    if s.len() - i < 12 {
                        return None;
                    }
                    proof {
                        assert(suffix_of(s@, i as int)[6] == s@[i as int + 6]);
                        assert(suffix_of(s@, i as int)[7] == s@[i as int + 7]);
                        assert(suffix_of(s@, i as int)[8] == s@[i as int + 8]);
                        assert(suffix_of(s@, i as int)[9] == s@[i as int + 9]);
                        assert(suffix_of(s@, i as int)[10] == s@[i as int + 10]);
                        assert(suffix_of(s@, i as int)[11] == s@[i as int + 11]);
                        assert(hex4_at(suffix_of(s@, i as int), 8) == hex4_at(s@, i as int + 8));
                    }
                    if s[i + 6] != '\\' || s[i + 7] != 'u' {
                        return None;
                    }
                    let w = match hex4_of(s, i + 8) {
                        Some(w) => w,
                        None => { return None; },
                    };
                    if !(0xDC00 <= w && w < 0xE000) {
                        return None;
                    }
                    let cp: u32 = 0x10000 + (v - 0xD800) * 0x400 + (w - 0xDC00);
                    let ch = char::from_u32(cp).unwrap();
                    proof {
                        char_u32_cast(ch, cp);
                        lemma_suffix_skip(s@, i as int, 12);
                    }
                    match parse_str_body(s, i + 12) {
                        Some(p) => {
                            let (mut vv, j) = p;
                            let ghost v0 = vv@;
                            vv.insert(0, ch);
                            proof {
                                assert(vv@ =~= seq![ch] + v0);
                            }
                            Some((vv, j))
                        },
                        None => None,
                    }
                } else if 0xDC00 <= v && v < 0xE000 {
                    None
                } else {
                    let ch = char::from_u32(v).unwrap();
                    proof {
                        char_u32_cast(ch, v);
                        lemma_suffix_skip(s@, i as int, 6);
                    }
                    match parse_str_body(s, i + 6) {
                        Some(p) => {
                            let (mut vv, j) = p;
                            let ghost v0 = vv@;
                            vv.insert(0, ch);
                            proof {
                                assert(vv@ =~= seq![ch] + v0);
                            }
                            Some((vv, j))
                        },
                        None => None,
                    }
                }
            },
        }
    } else if (c as u32) < 32 {
        None
    } else {
        proof {
            lemma_suffix_skip(s@, i as int, 1);
        }
        match parse_str_body(s, i + 1) {
            Some(p) => {
                let (mut v, j) = p;
                let ghost v0 = v@;
                v.insert(0, c);
                proof {
                    assert(v@ =~= seq![c] + v0);
                }
                Some((v, j))
            },
            None => None,
        }
    }
}

/// Parses a quoted string at position `i` of `s`.
pub fn parse_string(s: &Vec<char>, i: usize) -> (r: Option<(Vec<char>, usize)>)
    requires
        i <= s@.len(),
    ensures
        match r {
            Some(p) => i < p.1 <= s@.len() && sp_string(suffix_of(s@, i as int)) == Some(
                (p.0@, suffix_of(s@, p.1 as int)),
            ),
            None => sp_string(suffix_of(s@, i as int)) is None,
        },
{
    if i == s.len() {
        return None;
    }
    let c = s[i];
    proof {
        assert(suffix_of(s@, i as int)[0] == s@[i as int]);
    }
    if c == '"' {
        proof {
            lemma_suffix_skip(s@, i as int, 1);
        }
        parse_str_body(s, i + 1)
    } else {
        None
    }
}

fn parse_digits(s: &Vec<char>, i: usize, acc: u64) -> (r: Option<(u64, usize)>)
    requires
        i <= s@.len(),
        acc <= 2147483648,
    ensures
        match r {
            Some(p) => i <= p.1 <= s@.len() && p.0 <= 2147483648 && sp_digits(
                suffix_of(s@, i as int),
                acc as int,
            ) == Some((p.0 as int, suffix_of(s@, p.1 as int))),
            None => sp_digits(suffix_of(s@, i as int), acc as int) is None,
        },
    decreases s@.len() - i,
{
    if i == s.len() {
        return Some((acc, i));
    }
    let c = s[i];
    proof {
        assert(suffix_of(s@, i as int)[0] == s@[i as int]);
    }
    let cv = c as u32;
    if 48 <= cv && cv <= 57 {
        let d = (cv - 48) as u64;
        let next = acc * 10 + d;
        if next <= 2147483648 {
            proof {
                lemma_suffix_skip(s@, i as int, 1);
            }
            parse_digits(s, i + 1, next)
        } else {
            None
        }
    } else {
        Some((acc, i))
    }
}

fn parse_uint(s: &Vec<char>, i: usize) -> (r: Option<(u64, usize)>)
    requires
        i <= s@.len(),
    ensures
        match r {
            Some(p) => i < p.1 <= s@.len() && p.0 <= 2147483648 && sp_uint(
                suffix_of(s@, i as int),
            ) == Some((p.0 as int, suffix_of(s@, p.1 as int))),
            None => sp_uint(suffix_of(s@, i as int)) is None,
        },
{
    if i == s.len() {
        return None;
    }
    let c = s[i];
    proof {
        assert(suffix_of(s@, i as int)[0] == s@[i as int]);
    }
    let cv = c as u32;
    if !(48 <= cv && cv <= 57) {
        return None;
    }
    if c == '0' {
        proof {
            lemma_suffix_skip(s@, i as int, 1);
        }
        Some((0, i + 1))
    } else {
        let d = (cv - 48) as u64;
        proof {
            lemma_suffix_skip(s@, i as int, 1);
            assert(sp_digits(suffix_of(s@, i as int), 0) == sp_digits(
                suffix_of(s@, i as int + 1),
                d as int,
            ));
        }
        match parse_digits(s, i + 1, d) {
            Some(p) => Some((p.0, p.1)),
            None => None,
        }
    }
}

/// Parses a signed decimal in the `i32` range at position `i` of `s`.
pub fn parse_int(s: &Vec<char>, i: usize) -> (r: Option<(i32, usize)>)
    requires
        i <= s@.len(),
    ensures
        match r {
            Some(p) => i < p.1 <= s@.len() && sp_int(suffix_of(s@, i as int)) == Some(
                (p.0, suffix_of(s@, p.1 as int)),
            ),
            None => sp_int(suffix_of(s@, i as int)) is None,
        },
{
    if i == s.len() {
        return None;
    }
    let c = s[i];
    proof {
        assert(suffix_of(s@, i as int)[0] == s@[i as int]);
    }
    if c == '-' {
        proof {
            lemma_suffix_skip(s@, i as int, 1);
        }
        match parse_uint(s, i + 1) {
            Some(p) => {
                let (v, j) = p;
                let out: i32 = if v == 2147483648 {
                    -2147483647i32 - 1
                } else {
                    0i32 - (v as i32)
                };
                Some((out, j))
            },
            None => None,
        }
    } else {
        match parse_uint(s, i) {
            Some(p) => {
                let (v, j) = p;
                if v <= 2147483647 {
                    Some((v as i32, j))
                } else {
                    None
                }
            },
            None => None,
        }
    }
}

/// Parses an integer array at position `i` of `s`.
pub fn parse_int_array(s: &Vec<char>, i: usize) -> (r: Option<(Vec<i32>, usize)>)
    requires
        i <= s@.len(),
    ensures
        match r {
            Some(p) => i < p.1 <= s@.len() && sp_int_array(suffix_of(s@, i as int)) == Some(
                (p.0@, suffix_of(s@, p.1 as int)),
            ),
            None => sp_int_array(suffix_of(s@, i as int)) is None,
        },
{
    if i == s.len() {
        return None;
    }
    let c = s[i];
    proof {
        assert(suffix_of(s@, i as int)[0] == s@[i as int]);
    }
    if c != '[' {
        return None;
    }
    proof {
        lemma_suffix_skip(s@, i as int, 1);
    }
    let j = skip_ws(s, i + 1);
    if j < s.len() && s[j] == ']' {
        proof {
            assert(suffix_of(s@, j as int)[0] == s@[j as int]);
            lemma_suffix_skip(s@, j as int, 1);
        }
        return Some((Vec::new(), j + 1));
    }
    proof {
        if j < s.len() {
            assert(suffix_of(s@, j as int)[0] == s@[j as int]);
        }
    }
    parse_int_items(s, j)
}

fn parse_int_items(s: &Vec<char>, i: usize) -> (r: Option<(Vec<i32>, usize)>)
    requires
        i <= s@.len(),
    ensures
        match r {
            Some(p) => i < p.1 <= s@.len() && sp_int_items(suffix_of(s@, i as int)) == Some(
                (p.0@, suffix_of(s@, p.1 as int)),
            ),
            None => sp_int_items(suffix_of(s@, i as int)) is None,
        },
    decreases s@.len() - i,
{
    match parse_int(s, i) {
        None => None,
        Some(p) => {
            let (v, j) = p;
            let k = skip_ws(s, j);
            if k < s.len() && s[k] == ',' {
                proof {
                    assert(suffix_of(s@, k as int)[0] == s@[k as int]);
                    lemma_suffix_skip(s@, k as int, 1);
                }
                let n = skip_ws(s, k + 1);
                match parse_int_items(s, n) {
                    Some(q) => {
                        let (mut vs, m) = q;
                        let ghost vs0 = vs@;
                        vs.insert(0, v);
                        proof {
                            assert(vs@ =~= seq![v] + vs0);
                        }
                        Some((vs, m))
                    },
                    None => None,
                }
            } else if k < s.len() && s[k] == ']' {
                proof {
                    assert(suffix_of(s@, k as int)[0] == s@[k as int]);
                    lemma_suffix_skip(s@, k as int, 1);
                }
                let mut vs: Vec<i32> = Vec::new();
                vs.push(v);
                proof {
                    assert(vs@ =~= seq![v]);
                }
                Some((vs, k + 1))
            } else {
                proof {
                    if k < s.len() {
                        assert(suffix_of(s@, k as int)[0] == s@[k as int]);
                    }
                }
                None
            }
        },
    }
}

/// Parses a string array at position `i` of `s`.
pub fn parse_str_array(s: &Vec<char>, i: usize) -> (r: Option<(Vec<Vec<char>>, usize)>)
    requires
        i <= s@.len(),
    ensures
        match r {
            Some(p) => i < p.1 <= s@.len() && sp_str_array(suffix_of(s@, i as int)) == Some(
                (p.0@.map_values(|v: Vec<char>| v@), suffix_of(s@, p.1 as int)),
            ),
            None => sp_str_array(suffix_of(s@, i as int)) is None,
        },
{
    if i == s.len() {
        return None;
    }
    let c = s[i];
    proof {
        assert(suffix_of(s@, i as int)[0] == s@[i as int]);
    }
    if c != '[' {
        return None;
    }
    proof {
        lemma_suffix_skip(s@, i as int, 1);
    }
    let j = skip_ws(s, i + 1);
    if j < s.len() && s[j] == ']' {
        proof {
            assert(suffix_of(s@, j as int)[0] == s@[j as int]);
            lemma_suffix_skip(s@, j as int, 1);
        }
        let vs: Vec<Vec<char>> = Vec::new();
        proof {
            assert(vs@.map_values(|v: Vec<char>| v@) =~= Seq::<Seq<char>>::empty());
        }
        return Some((vs, j + 1));
    }
    proof {
        if j < s.len() {
            assert(suffix_of(s@, j as int)[0] == s@[j as int]);
        }
    }
    parse_str_items(s, j)
}

fn parse_str_items(s: &Vec<char>, i: usize) -> (r: Option<(Vec<Vec<char>>, usize)>)
    requires
        i <= s@.len(),
    ensures
        match r {
            Some(p) => i < p.1 <= s@.len() && sp_str_items(suffix_of(s@, i as int)) == Some(
                (p.0@.map_values(|v: Vec<char>| v@), suffix_of(s@, p.1 as int)),
            ),
            None => sp_str_items(suffix_of(s@, i as int)) is None,
        },
    decreases s@.len() - i,
{
    match parse_string(s, i) {
        None => None,
        Some(p) => {
            let (v, j) = p;
            let k = skip_ws(s, j);
            if k < s.len() && s[k] == ',' {
                proof {
                    assert(suffix_of(s@, k as int)[0] == s@[k as int]);
                    lemma_suffix_skip(s@, k as int, 1);
                }
                let n = skip_ws(s, k + 1);
                match parse_str_items(s, n) {
                    Some(q) => {
                        let (mut vs, m) = q;
                        let ghost vs0 = vs@;
                        let ghost vview = v@;
                        vs.insert(0, v);
                        proof {
                            assert(vs@.map_values(|x: Vec<char>| x@) =~= seq![vview]
                                + vs0.map_values(|x: Vec<char>| x@));
                        }
                        Some((vs, m))
                    },
                    None => None,
                }
            } else if k < s.len() && s[k] == ']' {
                proof {
                    assert(suffix_of(s@, k as int)[0] == s@[k as int]);
                    lemma_suffix_skip(s@, k as int, 1);
                }
                let ghost vview = v@;
                let mut vs: Vec<Vec<char>> = Vec::new();
                vs.push(v);
                proof {
                    assert(vs@.map_values(|x: Vec<char>| x@) =~= seq![vview]);
                }
                Some((vs, k + 1))
            } else {
                proof {
                    if k < s.len() {
                        assert(suffix_of(s@, k as int)[0] == s@[k as int]);
                    }
                }
                None
            }
        },
    }
}

fn skip_exp(s: &Vec<char>, i: usize) -> (r: Option<usize>)
    requires
        i <= s@.len(),
    ensures
        match r {
            Some(j) => i <= j <= s@.len() && sp_skip_exp(suffix_of(s@, i as int)) == Some(
                suffix_of(s@, j as int),
            ),
            None => sp_skip_exp(suffix_of(s@, i as int)) is None,
        },
{
    if i == s.len() {
        return Some(i);
    }
    let c = s[i];
    proof {
        assert(suffix_of(s@, i as int)[0] == s@[i as int]);
    }
    if c != 'e' && c != 'E' {
        return Some(i);
    }
    let t: usize = if i + 1 < s.len() && (s[i + 1] == '+' || s[i + 1] == '-') {
        proof {
            assert(suffix_of(s@, i as int)[1] == s@[i as int + 1]);
            lemma_suffix_skip(s@, i as int, 2);
        }
        i + 2
    } else {
        proof {
            if i + 1 < s.len() {
                assert(suffix_of(s@, i as int)[1] == s@[i as int + 1]);
            }
            lemma_suffix_skip(s@, i as int, 1);
        }
        i + 1
    };
    if t == s.len() {
        return None;
    }
    let cv = s[t] as u32;
    proof {
        assert(suffix_of(s@, t as int)[0] == s@[t as int]);
    }
    if 48 <= cv && cv <= 57 {
        Some(skip_digits(s, t))
    } else {
        None
    }
}

/// Consumes a JSON number at position `i` of `s`.
fn skip_number(s: &Vec<char>, i: usize) -> (r: Option<usize>)
    requires
        i <= s@.len(),
    ensures
        match r {
            Some(j) => i < j <= s@.len() && sp_skip_number(suffix_of(s@, i as int)) == Some(
                suffix_of(s@, j as int),
            ),
            None => sp_skip_number(suffix_of(s@, i as int)) is None,
        },
{
    let a: usize = if i < s.len() && s[i] == '-' {
        proof {
            assert(suffix_of(s@, i as int)[0] == s@[i as int]);
            lemma_suffix_skip(s@, i as int, 1);
        }
        i + 1
    } else {
        proof {
            if i < s.len() {
                assert(suffix_of(s@, i as int)[0] == s@[i as int]);
            }
        }
        i
    };
    if a == s.len() {
        return None;
    }
    let c = s[a];
    proof {
        assert(suffix_of(s@, a as int)[0] == s@[a as int]);
    }
    let cv = c as u32;
    if !(48 <= cv && cv <= 57) {
        return None;
    }
    let b: usize = if c == '0' {
        proof {
            lemma_suffix_skip(s@, a as int, 1);
        }
        a + 1
    } else {
        skip_digits(s, a)
    };
    if b < s.len() && s[b] == '.' {
        proof {
            assert(suffix_of(s@, b as int)[0] == s@[b as int]);
        }
        if b + 1 < s.len() {
            let dv = s[b + 1] as u32;
            proof {
                assert(suffix_of(s@, b as int)[1] == s@[b as int + 1]);
            }
            if 48 <= dv && dv <= 57 {
                proof {
                    lemma_suffix_skip(s@, b as int, 1);
                }
                let f = skip_digits(s, b + 1);
                skip_exp(s, f)
            } else {
                None
            }
        } else {
            None
        }
    } else {
        proof {
            if b < s.len() {
                assert(suffix_of(s@, b as int)[0] == s@[b as int]);
            }
        }
        skip_exp(s, b)
    }
}

/// Consumes any one JSON value at position `i` of `s`.
pub fn skip_value(s: &Vec<char>, i: usize) -> (r: Option<usize>)
    requires
        i <= s@.len(),
    ensures
        match r {
            Some(j) => i < j <= s@.len() && sp_skip_value(suffix_of(s@, i as int)) == Some(
                suffix_of(s@, j as int),
            ),
            None => sp_skip_value(suffix_of(s@, i as int)) is None,
        },
    decreases s@.len() - i, 0int,
{
    if i == s.len() {
        return None;
    }
    let c = s[i];
    proof {
        assert(suffix_of(s@, i as int)[0] == s@[i as int]);
    }
    if c == '"' {
        proof {
            lemma_suffix_skip(s@, i as int, 1);
        }
        match parse_str_body(s, i + 1) {
            Some(p) => Some(p.1),
            None => None,
        }
    } else if c == '{' {
        proof {
            lemma_suffix_skip(s@, i as int, 1);
        }
        let j = skip_ws(s, i + 1);
        if j < s.len() && s[j] == '}' {
            proof {
                assert(suffix_of(s@, j as int)[0] == s@[j as int]);
                lemma_suffix_skip(s@, j as int, 1);
            }
            Some(j + 1)
        } else {
            proof {
                if j < s.len() {
                    assert(suffix_of(s@, j as int)[0] == s@[j as int]);
                }
            }
            skip_members(s, j)
        }
    } else if c == '[' {
        proof {
            lemma_suffix_skip(s@, i as int, 1);
        }
        let j = skip_ws(s, i + 1);
        if j < s.len() && s[j] == ']' {
            proof {
                assert(suffix_of(s@, j as int)[0] == s@[j as int]);
                lemma_suffix_skip(s@, j as int, 1);
            }
            Some(j + 1)
        } else {
            proof {
                if j < s.len() {
                    assert(suffix_of(s@, j as int)[0] == s@[j as int]);
                }
            }
            skip_elements(s, j)
        }
    } else if c == 't' {
        proof {
            reveal_strlit("true");
        }
        parse_lit(s, i, "true")
    } else if c == 'f' {
        proof {
            reveal_strlit("false");
        }
        parse_lit(s, i, "false")
    } else if c == 'n' {
        proof {
            reveal_strlit("null");
        }
        parse_lit(s, i, "null")
    } else {
        let cv = c as u32;
        if c == '-' || (48 <= cv && cv <= 57) {
            skip_number(s, i)
        } else {
            None
        }
    }
}

#[verifier::rlimit(60)]
fn skip_members(s: &Vec<char>, i: usize) -> (r: Option<usize>)
    requires
        i <= s@.len(),
    ensures
        match r {
            Some(j) => i < j <= s@.len() && sp_skip_members(suffix_of(s@, i as int)) == Some(
                suffix_of(s@, j as int),
            ),
            None => sp_skip_members(suffix_of(s@, i as int)) is None,
        },
    decreases s@.len() - i, 1int,
{
    match parse_string(s, i) {
        None => None,
        Some(p) => {
            let j = p.1;
            let k = skip_ws(s, j);
            if k == s.len() {
                return None;
            }
            proof {
                assert(suffix_of(s@, k as int)[0] == s@[k as int]);
            }
            if s[k] != ':' {
                return None;
            }
            proof {
                lemma_suffix_skip(s@, k as int, 1);
            }
            let m = skip_ws(s, k + 1);
            match skip_value(s, m) {
                None => None,
                Some(n) => {
                    let q = skip_ws(s, n);
                    if q < s.len() && s[q] == ',' {
                        proof {
                            assert(suffix_of(s@, q as int)[0] == s@[q as int]);
                            lemma_suffix_skip(s@, q as int, 1);
                        }
                        let t = skip_ws(s, q + 1);
                        skip_members(s, t)
                    } else if q < s.len() && s[q] == '}' {
                        proof {
                            assert(suffix_of(s@, q as int)[0] == s@[q as int]);
                            lemma_suffix_skip(s@, q as int, 1);
                        }
                        Some(q + 1)
                    } else {
                        proof {
                            if q < s.len() {
                                assert(suffix_of(s@, q as int)[0] == s@[q as int]);
                            }
                        }
                        None
                    }
                },
            }
        },
    }
}

fn skip_elements(s: &Vec<char>, i: usize) -> (r: Option<usize>)
    requires
        i <= s@.len(),
    ensures
        match r {
            Some(j) => i < j <= s@.len() && sp_skip_elements(suffix_of(s@, i as int)) == Some(
                suffix_of(s@, j as int),
            ),
            None => sp_skip_elements(suffix_of(s@, i as int)) is None,
        },
    decreases s@.len() - i, 1int,
{
    match skip_value(s, i) {
        None => None,
        Some(n) => {
            let q = skip_ws(s, n);
            if q < s.len() && s[q] == ',' {
                proof {
                    assert(suffix_of(s@, q as int)[0] == s@[q as int]);
                    lemma_suffix_skip(s@, q as int, 1);
                }
                let t = skip_ws(s, q + 1);
                skip_elements(s, t)
            } else if q < s.len() && s[q] == ']' {
                proof {
                    assert(suffix_of(s@, q as int)[0] == s@[q as int]);
                    lemma_suffix_skip(s@, q as int, 1);
                }
                Some(q + 1)
            } else {
                proof {
                    if q < s.len() {
                        assert(suffix_of(s@, q as int)[0] == s@[q as int]);
                    }
                }
                None
            }
        },
    }
}

} // verus!
