//! Parsing JSON text: the grammar as recursive spec functions over the input
//! characters, and the recursive-descent parser proved to compute them.
use vstd::prelude::*;
use crate::json::{JVal, Json, json_view, entries_view, items_view};
use crate::json_text::{is_digit, is_num_char, key_lt, valid_number};
use crate::text::{decimal, is_scalar_value};

verus! {

/// Why a text is not accepted as JSON; positions count characters from 0.
#[derive(Debug, Clone, Copy, PartialEq, Eq)]
pub enum JsonError {
    /// Characters remain after the value.
    TrailingCharacters(usize),
    /// A value cannot start with this character.
    UnexpectedToken(char, usize),
    /// The input ends where a value is expected.
    UnexpectedEnd,
    /// An object key is not followed by `:`.
    ExpectedColon(usize),
    /// An object entry is followed by neither `,` nor `}`.
    ExpectedCommaOrBrace(usize),
    /// An array element is followed by neither `,` nor `]`.
    ExpectedCommaOrBracket(usize),
    /// A string (or an object key) does not start with `"`.
    ExpectedQuote(usize),
    /// The input ends right after a backslash.
    TruncatedEscape,
    /// The input ends inside a `\u` escape.
    TruncatedUnicode,
    /// A `\u` escape holds a character that is not a hexadecimal digit.
    InvalidHex,
    /// A backslash is followed by a character that starts no escape.
    UnknownEscape(char),
    /// The input ends inside a string.
    UnterminatedString,
    /// A value starting with `t` or `f` is neither `true` nor `false`.
    InvalidBool(usize),
    /// A value starting with `n` is not `null`.
    InvalidNull(usize),
    /// The number characters from the first position to the second do not
    /// form a number.
    InvalidNumber(usize, usize),
}

/// Whitespace between tokens: the characters with the Unicode `White_Space`
/// property (as `char::is_whitespace`).
pub open spec fn is_ws(c: char) -> bool {
    ||| ('\u{9}' <= c <= '\u{d}')
    ||| c == ' '
    ||| c == '\u{85}'
    ||| c == '\u{a0}'
    ||| c == '\u{1680}'
    ||| ('\u{2000}' <= c <= '\u{200a}')
    ||| c == '\u{2028}'
    ||| c == '\u{2029}'
    ||| c == '\u{202f}'
    ||| c == '\u{205f}'
    ||| c == '\u{3000}'
}

/// Position of the first non-whitespace character at or after `pos`.
pub open spec fn skip_ws(s: Seq<char>, pos: int) -> int
    decreases s.len() - pos,
{
    if 0 <= pos < s.len() && is_ws(s[pos]) {
        skip_ws(s, pos + 1)
    } else {
        pos
    }
}

/// Position just past the run of number characters that starts at `i`.
pub open spec fn num_end(s: Seq<char>, i: int) -> int
    decreases s.len() - i,
{
    if 0 <= i < s.len() && is_num_char(s[i]) {
        num_end(s, i + 1)
    } else {
        i
    }
}

/// `lit` stands in `s` at position `p`.
pub open spec fn lit_at(s: Seq<char>, p: int, lit: Seq<char>) -> bool {
    0 <= p && p + lit.len() <= s.len() && s.subrange(p, p + lit.len()) == lit
}

/// Value of a hexadecimal digit (either case).
pub open spec fn hex_val(c: char) -> Option<int> {
    if '0' <= c <= '9' {
        Some(c as int - 48)
    } else if 'a' <= c <= 'f' {
        Some(c as int - 87)
    } else if 'A' <= c <= 'F' {
        Some(c as int - 55)
    } else {
        None
    }
}

/// Every hexadecimal digit has its value, in either case: `0`–`9` are 0–9,
/// and `a`–`f` and `A`–`F` alike are 10–15; nothing else is a digit.
pub proof fn law_hex_digits(d: int)
    requires
        0 <= d < 16,
    ensures
        d < 10 ==> hex_val(((48 + d) as char)) == Some(d),
        d >= 10 ==> hex_val(((87 + d) as char)) == Some(d),
        d >= 10 ==> hex_val(((55 + d) as char)) == Some(d),
        d >= 10 ==> hex_val(((55 + d) as char)) == hex_val(((87 + d) as char)),
        hex_val('g') is None && hex_val('G') is None && hex_val(' ') is None,
{
}

/// Reads `n` hexadecimal digits from position `q`, accumulating onto `acc`.
pub open spec fn hex_run(s: Seq<char>, q: int, n: nat, acc: int) -> Result<int, JsonError>
    decreases n,
{
    if n == 0 {
        Ok(acc)
    } else if q < 0 || q >= s.len() {
        Err(JsonError::TruncatedUnicode)
    } else {
        match hex_val(s[q]) {
            None => Err(JsonError::InvalidHex),
            Some(d) => hex_run(s, q + 1, (n - 1) as nat, acc * 16 + d),
        }
    }
}

/// Four hexadecimal digits read as a `\u` escape give their value, most
/// significant first, whatever the case of their letters.
pub proof fn law_hex_run(s: Seq<char>, q: int, v0: int, v1: int, v2: int, v3: int)
    requires
        0 <= q && q + 4 <= s.len(),
        hex_val(s[q]) == Some(v0),
        hex_val(s[q + 1]) == Some(v1),
        hex_val(s[q + 2]) == Some(v2),
        hex_val(s[q + 3]) == Some(v3),
    ensures
        hex_run(s, q, 4, 0) == Ok::<int, JsonError>(v0 * 4096 + v1 * 256 + v2 * 16 + v3),
{
    reveal_with_fuel(hex_run, 5);
}

/// The character a `\u` escape stands for: the code point itself, or U+FFFD
/// when the code is not a Unicode scalar value.
pub open spec fn decode_code(code: int) -> char {
    if is_scalar_value(code) { code as char } else { '\u{fffd}' }
}

/// The character of a one-letter escape `\e`.
pub open spec fn simple_escape(e: char) -> Option<char> {
    if e == '"' {
        Some('"')
    } else if e == '\\' {
        Some('\\')
    } else if e == '/' {
        Some('/')
    } else if e == 'n' {
        Some('\n')
    } else if e == 'r' {
        Some('\r')
    } else if e == 't' {
        Some('\t')
    } else if e == 'b' {
        Some('\u{8}')
    } else if e == 'f' {
        Some('\u{c}')
    } else {
        None
    }
}

/// The rest of a string after its opening quote: characters decoded so far in
/// `acc`, reading from `pos`; yields the characters and the position after the
/// closing quote.
pub open spec fn p_string_body(s: Seq<char>, pos: int, acc: Seq<char>) -> Result<
    (Seq<char>, int),
    JsonError,
>
    decreases s.len() - pos,
{
    if pos < 0 || pos >= s.len() {
        Err(JsonError::UnterminatedString)
    } else {
        let c = s[pos];
        if c == '"' {
            Ok((acc, pos + 1))
        } else if c == '\\' {
            if pos + 1 >= s.len() {
                Err(JsonError::TruncatedEscape)
            } else {
                let e = s[pos + 1];
                match simple_escape(e) {
                    Some(d) => p_string_body(s, pos + 2, acc.push(d)),
                    None => if e == 'u' {
                        proof {
                            lemma_hex_run_len(s, pos + 2, 4, 0);
                        }
                        match hex_run(s, pos + 2, 4, 0) {
                            Err(err) => Err(err),
                            Ok(code) => p_string_body(s, pos + 6, acc.push(decode_code(code))),
                        }
                    } else {
                        Err(JsonError::UnknownEscape(e))
                    },
                }
            }
        } else {
            p_string_body(s, pos + 1, acc.push(c))
        }
    }
}

/// Where reading `n` hexadecimal digits from `q` leaves the cursor when it
/// fails: at the end of the input, or just past the first non-digit.
pub open spec fn hex_stop(s: Seq<char>, q: int, n: nat) -> int
    decreases n,
{
    if n == 0 || q < 0 || q >= s.len() {
        q
    } else {
        match hex_val(s[q]) {
            None => q + 1,
            Some(_) => hex_stop(s, q + 1, (n - 1) as nat),
        }
    }
}

/// Where reading the rest of a string from `pos` leaves the cursor when it
/// fails: at the end of the input when it ends inside the string, just past
/// the escape character when that is unknown, where the hexadecimal digits
/// of a `\u` escape fail.
pub open spec fn string_body_stop(s: Seq<char>, pos: int) -> int
    decreases s.len() - pos,
{
    if pos < 0 || pos >= s.len() {
        pos
    } else {
        let c = s[pos];
        if c == '"' {
            pos + 1
        } else if c == '\\' {
            if pos + 1 >= s.len() {
                pos + 1
            } else {
                let e = s[pos + 1];
                match simple_escape(e) {
                    Some(_) => string_body_stop(s, pos + 2),
                    None => if e == 'u' {
                        proof {
                            lemma_hex_run_len(s, pos + 2, 4, 0);
                        }
                        match hex_run(s, pos + 2, 4, 0) {
                            Err(_) => hex_stop(s, pos + 2, 4),
                            Ok(_) => string_body_stop(s, pos + 6),
                        }
                    } else {
                        pos + 2
                    },
                }
            }
        } else {
            string_body_stop(s, pos + 1)
        }
    }
}

/// Where reading a string at `p` leaves the cursor when it fails: past the
/// character read in place of the opening quote (or at the end), else as
/// [`string_body_stop`] says.
pub open spec fn string_stop(s: Seq<char>, p: int) -> int {
    if p < 0 || p >= s.len() {
        p
    } else if s[p] != '"' {
        p + 1
    } else {
        string_body_stop(s, p + 1)
    }
}

/// A string at position `p`: its characters and the position after it.
pub open spec fn p_string(s: Seq<char>, p: int) -> Result<(Seq<char>, int), JsonError> {
    if p < 0 || p >= s.len() {
        Err(JsonError::ExpectedQuote(p as usize))
    } else if s[p] != '"' {
        Err(JsonError::ExpectedQuote((p + 1) as usize))
    } else {
        p_string_body(s, p + 1, Seq::empty())
    }
}

/// `true` or `false` at position `p`.
pub open spec fn p_bool(s: Seq<char>, p: int) -> Result<(JVal, int), JsonError> {
    if lit_at(s, p, seq!['t', 'r', 'u', 'e']) {
        Ok((JVal::Bool(true), p + 4))
    } else if lit_at(s, p, seq!['f', 'a', 'l', 's', 'e']) {
        Ok((JVal::Bool(false), p + 5))
    } else {
        Err(JsonError::InvalidBool(p as usize))
    }
}

/// `null` at position `p`.
pub open spec fn p_null(s: Seq<char>, p: int) -> Result<(JVal, int), JsonError> {
    if lit_at(s, p, seq!['n', 'u', 'l', 'l']) {
        Ok((JVal::Null, p + 4))
    } else {
        Err(JsonError::InvalidNull(p as usize))
    }
}

/// A number at position `p`: the longest run of number characters, which
/// must follow the number grammar.
pub open spec fn p_number(s: Seq<char>, p: int) -> Result<(JVal, int), JsonError> {
    let e = num_end(s, p);
    let t = s.subrange(p, e);
    if valid_number(t) {
        Ok((JVal::Num(t), e))
    } else {
        Err(JsonError::InvalidNumber(p as usize, e as usize))
    }
}

/// Index of the first entry whose key is not below `k`, scanning from `i`.
pub open spec fn lower_bound<V>(es: Seq<(Seq<char>, V)>, k: Seq<char>, i: int) -> int
    decreases es.len() - i,
{
    if 0 <= i < es.len() && key_lt(es[i].0, k) {
        lower_bound(es, k, i + 1)
    } else {
        i
    }
}

/// Ordered-map insertion: the entry for `k` takes value `v`, replacing the
/// value of an entry with the same key, else inserted before the first
/// greater key.
pub open spec fn obj_insert<V>(es: Seq<(Seq<char>, V)>, k: Seq<char>, v: V) -> Seq<(Seq<char>, V)> {
    let i = lower_bound(es, k, 0);
    if i < es.len() && es[i].0 == k {
        es.update(i, (k, v))
    } else {
        es.insert(i, (k, v))
    }
}

/// A value at `pos` (after optional whitespace): the value and the position
/// after it.
pub open spec fn p_value(s: Seq<char>, pos: int) -> Result<(JVal, int), JsonError>
    decreases s.len() - pos, 2int,
{
    let p = skip_ws(s, pos);
    proof {
        lemma_skip_ws(s, pos);
    }
    if p < 0 || p >= s.len() {
        Err(JsonError::UnexpectedEnd)
    } else {
        let c = s[p];
        if c == '{' {
            p_object(s, p)
        } else if c == '[' {
            p_array(s, p)
        } else if c == '"' {
            match p_string(s, p) {
                Ok((t, q)) => Ok((JVal::Str(t), q)),
                Err(e) => Err(e),
            }
        } else if c == 't' || c == 'f' {
            p_bool(s, p)
        } else if c == 'n' {
            p_null(s, p)
        } else if c == '-' || is_digit(c) {
            p_number(s, p)
        } else {
            Err(JsonError::UnexpectedToken(c, p as usize))
        }
    }
}

/// An object whose `{` is at position `p`.
pub open spec fn p_object(s: Seq<char>, p: int) -> Result<(JVal, int), JsonError>
    decreases s.len() - p, 1int,
{
    if p < 0 || p >= s.len() {
        Err(JsonError::UnexpectedEnd)
    } else {
        let q = skip_ws(s, p + 1);
        if 0 <= q < s.len() && s[q] == '}' {
            Ok((JVal::Obj(Seq::empty()), q + 1))
        } else {
            p_members(s, p + 1, Seq::empty())
        }
    }
}

/// The entries of an object from `pos` on, after the entries `acc`.
pub open spec fn p_members(s: Seq<char>, pos: int, acc: Seq<(Seq<char>, JVal)>) -> Result<
    (JVal, int),
    JsonError,
>
    decreases s.len() - pos, 3int,
{
    let q = skip_ws(s, pos);
    proof {
        lemma_skip_ws(s, pos);
    }
    match p_string(s, q) {
        Err(e) => Err(e),
        Ok((key, q1)) => {
            let q2 = skip_ws(s, q1);
            proof {
                lemma_p_string_advances(s, q);
                lemma_skip_ws(s, q1);
            }
            if q2 < 0 || q2 >= s.len() {
                Err(JsonError::ExpectedColon(q2 as usize))
            } else if s[q2] != ':' {
                Err(JsonError::ExpectedColon((q2 + 1) as usize))
            } else {
                match p_value(s, q2 + 1) {
                    Err(e) => Err(e),
                    Ok((v, q3)) => {
                        let acc2 = obj_insert(acc, key, v);
                        let q4 = skip_ws(s, q3);
                        if q4 < 0 || q4 >= s.len() {
                            Err(JsonError::ExpectedCommaOrBrace(q4 as usize))
                        } else if s[q4] == ',' {
                            if pos < q4 + 1 {
                                p_members(s, q4 + 1, acc2)
                            } else {
                                Err(JsonError::UnexpectedEnd)
                            }
                        } else if s[q4] == '}' {
                            Ok((JVal::Obj(acc2), q4 + 1))
                        } else {
                            Err(JsonError::ExpectedCommaOrBrace((q4 + 1) as usize))
                        }
                    },
                }
            }
        },
    }
}

/// An array whose `[` is at position `p`.
pub open spec fn p_array(s: Seq<char>, p: int) -> Result<(JVal, int), JsonError>
    decreases s.len() - p, 1int,
{
    if p < 0 || p >= s.len() {
        Err(JsonError::UnexpectedEnd)
    } else {
        let q = skip_ws(s, p + 1);
        if 0 <= q < s.len() && s[q] == ']' {
            Ok((JVal::Arr(Seq::empty()), q + 1))
        } else {
            p_elements(s, p + 1, Seq::empty())
        }
    }
}

/// The elements of an array from `pos` on, after the elements `acc`.
pub open spec fn p_elements(s: Seq<char>, pos: int, acc: Seq<JVal>) -> Result<(JVal, int), JsonError>
    decreases s.len() - pos, 3int,
{
    match p_value(s, pos) {
        Err(e) => Err(e),
        Ok((v, q)) => {
            let acc2 = acc.push(v);
            let q2 = skip_ws(s, q);
            if q2 < 0 || q2 >= s.len() {
                Err(JsonError::ExpectedCommaOrBracket(q2 as usize))
            } else if s[q2] == ',' {
                if pos < q2 + 1 {
                    p_elements(s, q2 + 1, acc2)
                } else {
                    Err(JsonError::UnexpectedEnd)
                }
            } else if s[q2] == ']' {
                Ok((JVal::Arr(acc2), q2 + 1))
            } else {
                Err(JsonError::ExpectedCommaOrBracket((q2 + 1) as usize))
            }
        },
    }
}

/// A whole JSON text: one value, with only whitespace around it.
pub open spec fn p_json(s: Seq<char>) -> Result<JVal, JsonError> {
    match p_value(s, 0) {
        Err(e) => Err(e),
        Ok((v, q)) => {
            let q2 = skip_ws(s, q);
            if q2 != s.len() {
                Err(JsonError::TrailingCharacters(q2 as usize))
            } else {
                Ok(v)
            }
        },
    }
}

// ----------------------------------------------------------------------- //
// Basic facts about positions
// ----------------------------------------------------------------------- //

/// Skipping whitespace never moves backwards, nor past the end.
pub proof fn lemma_skip_ws(s: Seq<char>, pos: int)
    ensures
        skip_ws(s, pos) >= pos,
        0 <= pos <= s.len() ==> skip_ws(s, pos) <= s.len(),
    decreases s.len() - pos,
{
    if 0 <= pos < s.len() && is_ws(s[pos]) {
        lemma_skip_ws(s, pos + 1);
    }
}

/// Reading `n` digits succeeds only when `n` characters remain.
pub proof fn lemma_hex_run_len(s: Seq<char>, q: int, n: nat, acc: int)
    ensures
        hex_run(s, q, n, acc) is Ok && n > 0 ==> q + n <= s.len(),
    decreases n,
{
    if n > 0 && 0 <= q < s.len() {
        if let Some(d) = hex_val(s[q]) {
            lemma_hex_run_len(s, q + 1, (n - 1) as nat, acc * 16 + d);
            if n == 1 {
                assert(q + 1 <= s.len());
            }
        }
    }
}

/// A string body ends strictly after where it starts, within the input.
pub proof fn lemma_p_string_body_advances(s: Seq<char>, pos: int, acc: Seq<char>)
    ensures
        p_string_body(s, pos, acc) matches Ok((_, q)) ==> pos < q <= s.len(),
    decreases s.len() - pos,
{
    if 0 <= pos < s.len() {
        let c = s[pos];
        if c == '\\' && pos + 1 < s.len() {
            let e = s[pos + 1];
            match simple_escape(e) {
                Some(d) => lemma_p_string_body_advances(s, pos + 2, acc.push(d)),
                None => if e == 'u' {
                    lemma_hex_run_len(s, pos + 2, 4, 0);
                    match hex_run(s, pos + 2, 4, 0) {
                        Err(err) => {},
                        Ok(code) => lemma_p_string_body_advances(s, pos + 6, acc.push(decode_code(code))),
                    }
                },
            }
        } else if c != '"' && c != '\\' {
            lemma_p_string_body_advances(s, pos + 1, acc.push(c));
        }
    }
}

/// A string ends strictly after where it starts, within the input.
pub proof fn lemma_p_string_advances(s: Seq<char>, p: int)
    ensures
        p_string(s, p) matches Ok((_, q)) ==> p < q <= s.len(),
{
    if 0 <= p < s.len() && s[p] == '"' {
        lemma_p_string_body_advances(s, p + 1, Seq::empty());
    }
}


// ----------------------------------------------------------------------- //
// Executable scanners
// ----------------------------------------------------------------------- //

/// `c` is whitespace in the sense of [`is_ws`].
pub fn is_whitespace_char(c: char) -> (r: bool)
    ensures
        r == is_ws(c),
{
    ('\u{9}' <= c && c <= '\u{d}') || c == ' ' || c == '\u{85}' || c == '\u{a0}'
        || c == '\u{1680}' || ('\u{2000}' <= c && c <= '\u{200a}') || c == '\u{2028}'
        || c == '\u{2029}' || c == '\u{202f}' || c == '\u{205f}' || c == '\u{3000}'
}

/// Position of the first non-whitespace character at or after `pos`.
fn skip_ws_at(cs: &Vec<char>, pos: usize) -> (q: usize)
    requires
        pos <= cs@.len(),
    ensures
        q as int == skip_ws(cs@, pos as int),
        pos <= q <= cs@.len(),
{
    let mut q = pos;
    while q < cs.len() && is_whitespace_char(cs[q])
        invariant
            pos <= q <= cs@.len(),
            skip_ws(cs@, q as int) == skip_ws(cs@, pos as int),
        decreases cs@.len() - q,
    {
        q = q + 1;
    }
    q
}

/// Value of a hexadecimal digit.
fn hex_value(c: char) -> (r: Option<u32>)
    ensures
        match hex_val(c) {
            Some(d) => r == Some(d as u32),
            None => r is None,
        },
{
    if '0' <= c && c <= '9' {
        Some((c as u32) - 48)
    } else if 'a' <= c && c <= 'f' {
        Some((c as u32) - 87)
    } else if 'A' <= c && c <= 'F' {
        Some((c as u32) - 55)
    } else {
        None
    }
}

/// The four hexadecimal digits of a `\u` escape starting at `q`.
fn read_hex4(cs: &Vec<char>, q: usize) -> (r: Result<u32, (JsonError, usize)>)
    requires
        q <= cs@.len(),
    ensures
        match r {
            Ok(code) => hex_run(cs@, q as int, 4, 0) == Ok::<int, JsonError>(code as int) && code < 0x10000,
            Err((e, stop)) => hex_run(cs@, q as int, 4, 0) == Err::<int, JsonError>(e) && stop == hex_stop(
                cs@,
                q as int,
                4,
            ),
        },
{
    let mut code: u32 = 0;
    let mut k: usize = 0;
    while k < 4
        invariant
            k <= 4,
            q <= cs@.len(),
            code < (if k == 0 { 1int } else if k == 1 { 16int } else if k == 2 { 256int } else if k == 3 { 4096int } else { 65536int }),
            hex_run(cs@, q as int, 4, 0) == hex_run(cs@, q + k, (4 - k) as nat, code as int),
            hex_stop(cs@, q as int, 4) == hex_stop(cs@, q + k, (4 - k) as nat),
            q + k <= cs@.len(),
        decreases 4 - k,
    {
        if k >= cs.len() - q {
            return Err((JsonError::TruncatedUnicode, q + k));
        }
        match hex_value(cs[q + k]) {
            None => {
                return Err((JsonError::InvalidHex, q + k + 1));
            },
            Some(d) => {
                code = code * 16 + d;
            },
        }
        k = k + 1;
    }
    Ok(code)
}

/// The character a `\u` escape stands for.
fn decode_escape_code(code: u32) -> (c: char)
    ensures
        c == decode_code(code as int),
{
    match crate::text::char_from_u32(code) {
        Some(c) => {
            assert(c == (code as int) as char);
            c
        },
        None => '\u{fffd}',
    }
}

/// The character of a one-letter escape.
fn simple_escape_char(e: char) -> (r: Option<char>)
    ensures
        r == simple_escape(e),
{
    if e == '"' {
        Some('"')
    } else if e == '\\' {
        Some('\\')
    } else if e == '/' {
        Some('/')
    } else if e == 'n' {
        Some('\n')
    } else if e == 'r' {
        Some('\r')
    } else if e == 't' {
        Some('\t')
    } else if e == 'b' {
        Some('\u{8}')
    } else if e == 'f' {
        Some('\u{c}')
    } else {
        None
    }
}

/// A string at position `p`: its characters and the position after it.
fn parse_string_at(cs: &Vec<char>, p: usize) -> (r: Result<(String, usize), (JsonError, usize)>)
    requires
        p <= cs@.len(),
    ensures
        match r {
            Ok((t, q)) => p_string(cs@, p as int) == Ok::<(Seq<char>, int), JsonError>((t@, q as int)),
            Err((e, stop)) => p_string(cs@, p as int) == Err::<(Seq<char>, int), JsonError>(e) && stop
                == string_stop(cs@, p as int),
        },
        r matches Ok((_, q)) ==> p < q <= cs@.len(),
{
    proof {
        lemma_p_string_advances(cs@, p as int);
    }
    if p >= cs.len() {
        return Err((JsonError::ExpectedQuote(p), p));
    }
    if cs[p] != '"' {
        return Err((JsonError::ExpectedQuote(p + 1), p + 1));
    }
    let mut acc: Vec<char> = Vec::new();
    let mut pos = p + 1;
    loop
        invariant
            p < pos <= cs@.len(),
            p_string_body(cs@, pos as int, acc@) == p_string(cs@, p as int),
            string_body_stop(cs@, pos as int) == string_stop(cs@, p as int),
        decreases cs@.len() - pos,
    {
        if pos >= cs.len() {
            return Err((JsonError::UnterminatedString, pos));
        }
        let c = cs[pos];
        if c == '"' {
            let t = crate::text::string_from_chars(acc.as_slice());
            return Ok((t, pos + 1));
        } else if c == '\\' {
            if pos + 1 >= cs.len() {
                return Err((JsonError::TruncatedEscape, pos + 1));
            }
            let e = cs[pos + 1];
            match simple_escape_char(e) {
                Some(d) => {
                    acc.push(d);
                    pos = pos + 2;
                },
                None => {
                    if e == 'u' {
                        proof {
                            lemma_hex_run_len(cs@, pos + 2, 4, 0);
                        }
                        match read_hex4(cs, pos + 2) {
                            Err(err) => {
                                return Err(err);
                            },
                            Ok(code) => {
                                acc.push(decode_escape_code(code));
                                pos = pos + 6;
                            },
                        }
                    } else {
                        return Err((JsonError::UnknownEscape(e), pos + 2));
                    }
                },
            }
        } else {
            acc.push(c);
            pos = pos + 1;
        }
    }
}

/// Position just past the run of number characters at `p`.
fn num_end_at(cs: &Vec<char>, p: usize) -> (e: usize)
    requires
        p <= cs@.len(),
    ensures
        e as int == num_end(cs@, p as int),
        p <= e <= cs@.len(),
{
    let mut e = p;
    while e < cs.len() && is_num_character(cs[e])
        invariant
            p <= e <= cs@.len(),
            num_end(cs@, e as int) == num_end(cs@, p as int),
        decreases cs@.len() - e,
    {
        e = e + 1;
    }
    e
}

fn is_num_character(c: char) -> (r: bool)
    ensures
        r == is_num_char(c),
{
    ('0' <= c && c <= '9') || c == '.' || c == 'e' || c == 'E' || c == '+' || c == '-'
}

fn is_digit_character(c: char) -> (r: bool)
    ensures
        r == is_digit(c),
{
    '0' <= c && c <= '9'
}

/// Index of the first non-digit of `t` at or after `i`.
fn digits_end_at(t: &Vec<char>, i: usize) -> (e: usize)
    requires
        i <= t@.len(),
    ensures
        e as int == crate::json_text::digits_end(t@, i as int),
        i <= e <= t@.len(),
{
    let mut e = i;
    while e < t.len() && is_digit_character(t[e])
        invariant
            i <= e <= t@.len(),
            crate::json_text::digits_end(t@, e as int) == crate::json_text::digits_end(t@, i as int),
        decreases t@.len() - e,
    {
        e = e + 1;
    }
    e
}

/// `t` follows the number grammar (see [`valid_number`]).
pub fn is_valid_number(t: &Vec<char>) -> (r: bool)
    ensures
        r == valid_number(t@),
{
    if t.len() == 0 {
        return false;
    }
    if !(t[0] == '-' || is_digit_character(t[0])) {
        return false;
    }
    let s: usize = if t[0] == '-' { 1 } else { 0 };
    let i1 = digits_end_at(t, s);
    let mut mantissa_ok = i1 > s;
    let mut j = i1;
    if i1 < t.len() && t[i1] == '.' {
        let i2 = digits_end_at(t, i1 + 1);
        mantissa_ok = i1 > s || i2 > i1 + 1;
        j = i2;
    }
    if !mantissa_ok {
        return false;
    }
    let ghost ee = crate::json_text::exponent_end(t@, j as int);
    if j < t.len() && (t[j] == 'e' || t[j] == 'E') {
        let k = if j + 1 < t.len() && (t[j + 1] == '+' || t[j + 1] == '-') { j + 2 } else { j + 1 };
        let k2 = digits_end_at(t, k);
        k2 > k && k2 == t.len()
    } else {
        j == t.len()
    }
}

/// The characters of `cs` from `a` to `b`.
pub(crate) fn slice_chars(cs: &Vec<char>, a: usize, b: usize) -> (t: Vec<char>)
    requires
        a <= b <= cs@.len(),
    ensures
        t@ == cs@.subrange(a as int, b as int),
{
    let mut t: Vec<char> = Vec::new();
    let mut i = a;
    while i < b
        invariant
            a <= i <= b <= cs@.len(),
            t@ == cs@.subrange(a as int, i as int),
        decreases b - i,
    {
        t.push(cs[i]);
        assert(cs@.subrange(a as int, i + 1) == cs@.subrange(a as int, i as int).push(cs@[i as int]));
        i = i + 1;
    }
    t
}

/// `lit` stands in `cs` at `p`.
pub(crate) fn lit_at_exec(cs: &Vec<char>, p: usize, lit: &[char]) -> (r: bool)
    requires
        p <= cs@.len(),
    ensures
        r == lit_at(cs@, p as int, lit@),
{
    let n = cs.len();
    if lit.len() > n - p {
        return false;
    }
    let mut i: usize = 0;
    while i < lit.len()
        invariant
            n == cs@.len(),
            i <= lit@.len(),
            p <= cs@.len(),
            p + lit@.len() <= cs@.len(),
            forall|k: int| 0 <= k < i ==> cs@[p + k] == lit@[k],
        decreases lit@.len() - i,
    {
        if cs[p + i] != lit[i] {
            assert(cs@.subrange(p as int, p + lit@.len())[i as int] != lit@[i as int]);
            return false;
        }
        i = i + 1;
    }
    assert(cs@.subrange(p as int, p + lit@.len()) =~= lit@);
    true
}


// ----------------------------------------------------------------------- //
// Ordered insertion into object entries
// ----------------------------------------------------------------------- //

/// `a` comes before `b` in the key order.
pub fn key_less(a: &Vec<char>, b: &Vec<char>) -> (r: bool)
    ensures
        r == key_lt(a@, b@),
{
    let mut i: usize = 0;
    assert(a@.skip(0) == a@);
    assert(b@.skip(0) == b@);
    while i < a.len() && i < b.len() && a[i] == b[i]
        invariant
            i <= a@.len(),
            i <= b@.len(),
            key_lt(a@, b@) == key_lt(a@.skip(i as int), b@.skip(i as int)),
        decreases a@.len() - i,
    {
        assert(a@.skip(i as int).drop_first() == a@.skip(i + 1));
        assert(b@.skip(i as int).drop_first() == b@.skip(i + 1));
        i = i + 1;
    }
    let ghost sa = a@.skip(i as int);
    let ghost sb = b@.skip(i as int);
    if i == a.len() {
        assert(sa.len() == 0);
        i < b.len()
    } else if i == b.len() {
        assert(sb.len() == 0);
        false
    } else {
        assert(sa[0] == a@[i as int] && sb[0] == b@[i as int]);
        a[i] < b[i]
    }
}

/// Models of entries after replacing one entry.
proof fn lemma_entries_view_update(s: Seq<(String, Json)>, i: int, x: (String, Json))
    requires
        0 <= i < s.len(),
    ensures
        entries_view(s.update(i, x)) == entries_view(s).update(i, (x.0@, x.1@)),
{
    crate::json::lemma_entries_view(s);
    crate::json::lemma_entries_view(s.update(i, x));
    assert(entries_view(s.update(i, x)) =~= entries_view(s).update(i, (x.0@, x.1@)));
}

/// Models of entries after inserting one entry.
proof fn lemma_entries_view_insert(s: Seq<(String, Json)>, i: int, x: (String, Json))
    requires
        0 <= i <= s.len(),
    ensures
        entries_view(s.insert(i, x)) == entries_view(s).insert(i, (x.0@, x.1@)),
{
    crate::json::lemma_entries_view(s);
    crate::json::lemma_entries_view(s.insert(i, x));
    assert(entries_view(s.insert(i, x)) =~= entries_view(s).insert(i, (x.0@, x.1@)));
}

/// Inserts `key: v` into entries sorted by key (see [`obj_insert`]).
pub(crate) fn obj_insert_exec(entries: &mut Vec<(String, Json)>, key: String, v: Json)
    ensures
        entries_view(final(entries)@) == obj_insert(entries_view(old(entries)@), key@, v@),
{
    let ghost es = entries_view(entries@);
    proof {
        crate::json::lemma_entries_view(entries@);
    }
    let kc = crate::text::str_chars(key.as_str());
    let mut i: usize = 0;
    while i < entries.len() && key_less(&crate::text::str_chars(entries[i].0.as_str()), &kc)
        invariant
            i <= entries@.len(),
            *entries == *old(entries),
            es == entries_view(entries@),
            es.len() == entries@.len(),
            forall|k: int| 0 <= k < es.len() ==> #[trigger] es[k] == (entries@[k].0@, json_view(entries@[k].1)),
            kc@ == key@,
            lower_bound(es, key@, 0) == lower_bound(es, key@, i as int),
        decreases entries@.len() - i,
    {
        i = i + 1;
    }
    if i < entries.len() && entries[i].0 == key {
        proof {
            lemma_entries_view_update(entries@, i as int, (key, v));
        }
        let ghost before = entries@;
        entries.remove(i);
        entries.insert(i, (key, v));
        assert(entries@ =~= before.update(i as int, (key, v)));
    } else {
        proof {
            lemma_entries_view_insert(entries@, i as int, (key, v));
        }
        entries.insert(i, (key, v));
    }
}


// ----------------------------------------------------------------------- //
// The recursive-descent parser
// ----------------------------------------------------------------------- //

/// An executable parse result agrees with the grammar's result.
pub open spec fn parsed_as(r: Result<(Json, usize), JsonError>, g: Result<(JVal, int), JsonError>) -> bool {
    match r {
        Ok((j, q)) => g == Ok::<(JVal, int), JsonError>((j@, q as int)),
        Err(e) => g == Err::<(JVal, int), JsonError>(e),
    }
}

fn parse_bool_at(cs: &Vec<char>, p: usize) -> (r: Result<(Json, usize), JsonError>)
    requires
        p <= cs@.len(),
    ensures
        parsed_as(r, p_bool(cs@, p as int)),
        r matches Ok((_, q)) ==> p < q <= cs@.len(),
{
    let _n = cs.len();
    if lit_at_exec(cs, p, &['t', 'r', 'u', 'e']) {
        Ok((Json::Bool(true), p + 4))
    } else if lit_at_exec(cs, p, &['f', 'a', 'l', 's', 'e']) {
        Ok((Json::Bool(false), p + 5))
    } else {
        Err(JsonError::InvalidBool(p))
    }
}

fn parse_null_at(cs: &Vec<char>, p: usize) -> (r: Result<(Json, usize), JsonError>)
    requires
        p <= cs@.len(),
    ensures
        parsed_as(r, p_null(cs@, p as int)),
        r matches Ok((_, q)) ==> p < q <= cs@.len(),
{
    let _n = cs.len();
    if lit_at_exec(cs, p, &['n', 'u', 'l', 'l']) {
        Ok((Json::Null, p + 4))
    } else {
        Err(JsonError::InvalidNull(p))
    }
}

fn parse_number_at(cs: &Vec<char>, p: usize) -> (r: Result<(Json, usize), JsonError>)
    requires
        p <= cs@.len(),
    ensures
        parsed_as(r, p_number(cs@, p as int)),
        r matches Ok((_, q)) ==> p < q <= cs@.len(),
{
    let e = num_end_at(cs, p);
    let t = slice_chars(cs, p, e);
    if is_valid_number(&t) {
        let text = crate::text::string_from_chars(t.as_slice());
        Ok((Json::Num(text), e))
    } else {
        Err(JsonError::InvalidNumber(p, e))
    }
}

fn parse_value_at(cs: &Vec<char>, pos: usize) -> (r: Result<(Json, usize), JsonError>)
    requires
        pos <= cs@.len(),
    ensures
        parsed_as(r, p_value(cs@, pos as int)),
        r matches Ok((_, q)) ==> pos < q <= cs@.len(),
    decreases cs@.len() - pos, 2int,
{
    let p = skip_ws_at(cs, pos);
    if p >= cs.len() {
        return Err(JsonError::UnexpectedEnd);
    }
    let c = cs[p];
    if c == '{' {
        parse_object_at(cs, p)
    } else if c == '[' {
        parse_array_at(cs, p)
    } else if c == '"' {
        match parse_string_at(cs, p) {
            Ok((t, q)) => Ok((Json::Str(t), q)),
            Err((e, _)) => Err(e),
        }
    } else if c == 't' || c == 'f' {
        parse_bool_at(cs, p)
    } else if c == 'n' {
        parse_null_at(cs, p)
    } else if c == '-' || is_digit_character(c) {
        parse_number_at(cs, p)
    } else {
        Err(JsonError::UnexpectedToken(c, p))
    }
}

fn parse_object_at(cs: &Vec<char>, p: usize) -> (r: Result<(Json, usize), JsonError>)
    requires
        p < cs@.len(),
    ensures
        parsed_as(r, p_object(cs@, p as int)),
        r matches Ok((_, q)) ==> p < q <= cs@.len(),
    decreases cs@.len() - p, 1int,
{
    let _n = cs.len();
    let q = skip_ws_at(cs, p + 1);
    if q < cs.len() && cs[q] == '}' {
        return Ok((Json::Obj(Vec::new()), q + 1));
    }
    let mut entries: Vec<(String, Json)> = Vec::new();
    let mut pos = p + 1;
    loop
        invariant
            p < pos <= cs@.len(),
            p_members(cs@, pos as int, entries_view(entries@)) == p_object(cs@, p as int),
        decreases cs@.len() - pos,
    {
        let q = skip_ws_at(cs, pos);
        proof {
            lemma_p_string_advances(cs@, q as int);
        }
        let (key, q1) = match parse_string_at(cs, q) {
            Err((e, _)) => {
                return Err(e);
            },
            Ok(x) => x,
        };
        let q2 = skip_ws_at(cs, q1);
        if q2 >= cs.len() {
            return Err(JsonError::ExpectedColon(q2));
        }
        if cs[q2] != ':' {
            return Err(JsonError::ExpectedColon(q2 + 1));
        }
        let (v, q3) = match parse_value_at(cs, q2 + 1) {
            Err(e) => {
                return Err(e);
            },
            Ok(x) => x,
        };
        obj_insert_exec(&mut entries, key, v);
        let q4 = skip_ws_at(cs, q3);
        if q4 >= cs.len() {
            return Err(JsonError::ExpectedCommaOrBrace(q4));
        }
        if cs[q4] == ',' {
            pos = q4 + 1;
        } else if cs[q4] == '}' {
            return Ok((Json::Obj(entries), q4 + 1));
        } else {
            return Err(JsonError::ExpectedCommaOrBrace(q4 + 1));
        }
    }
}

fn parse_array_at(cs: &Vec<char>, p: usize) -> (r: Result<(Json, usize), JsonError>)
    requires
        p < cs@.len(),
    ensures
        parsed_as(r, p_array(cs@, p as int)),
        r matches Ok((_, q)) ==> p < q <= cs@.len(),
    decreases cs@.len() - p, 1int,
{
    let _n = cs.len();
    let q = skip_ws_at(cs, p + 1);
    if q < cs.len() && cs[q] == ']' {
        return Ok((Json::Arr(Vec::new()), q + 1));
    }
    let mut items: Vec<Json> = Vec::new();
    let mut pos = p + 1;
    loop
        invariant
            p < pos <= cs@.len(),
            p_elements(cs@, pos as int, items_view(items@)) == p_array(cs@, p as int),
        decreases cs@.len() - pos,
    {
        let (v, q1) = match parse_value_at(cs, pos) {
            Err(e) => {
                return Err(e);
            },
            Ok(x) => x,
        };
        proof {
            crate::json::lemma_items_view_push(items@, v);
        }
        items.push(v);
        let q2 = skip_ws_at(cs, q1);
        if q2 >= cs.len() {
            return Err(JsonError::ExpectedCommaOrBracket(q2));
        }
        if cs[q2] == ',' {
            pos = q2 + 1;
        } else if cs[q2] == ']' {
            return Ok((Json::Arr(items), q2 + 1));
        } else {
            return Err(JsonError::ExpectedCommaOrBracket(q2 + 1));
        }
    }
}


// ----------------------------------------------------------------------- //
// Whole texts and error messages
// ----------------------------------------------------------------------- //

/// Text of the characters from `a` to `b`, or nothing when that is no range
/// of the input.
pub open spec fn range_text(s: Seq<char>, a: int, b: int) -> Seq<char> {
    if 0 <= a <= b <= s.len() { s.subrange(a, b) } else { Seq::empty() }
}

/// The message that reports `e` for the input `s`.
pub open spec fn error_message(e: JsonError, s: Seq<char>) -> Seq<char> {
    match e {
        JsonError::TrailingCharacters(p) => "caractères superflus à la position "@ + decimal(p as nat),
        JsonError::UnexpectedToken(c, p) => "token inattendu '"@ + seq![c] + "' à la position "@
            + decimal(p as nat),
        JsonError::UnexpectedEnd => "fin d'entrée inattendue"@,
        JsonError::ExpectedColon(p) => "':' attendu à la position "@ + decimal(p as nat),
        JsonError::ExpectedCommaOrBrace(p) => "',' ou '}' attendu à la position "@ + decimal(p as nat),
        JsonError::ExpectedCommaOrBracket(p) => "',' ou ']' attendu à la position "@ + decimal(
            p as nat,
        ),
        JsonError::ExpectedQuote(p) => "'\"' attendu à la position "@ + decimal(p as nat),
        JsonError::TruncatedEscape => "échappement tronqué"@,
        JsonError::TruncatedUnicode => "\\u tronqué"@,
        JsonError::InvalidHex => "hex invalide dans \\u"@,
        JsonError::UnknownEscape(c) => "échappement inconnu \\"@ + seq![c],
        JsonError::UnterminatedString => "chaîne non terminée"@,
        JsonError::InvalidBool(p) => "littéral booléen invalide à la position "@ + decimal(p as nat),
        JsonError::InvalidNull(p) => "littéral null invalide à la position "@ + decimal(p as nat),
        JsonError::InvalidNumber(a, b) => "nombre invalide '"@ + range_text(s, a as int, b as int)
            + "'"@,
    }
}

/// `lit` followed by the decimal notation of `p`.
fn text_at_position(lit: &str, p: usize) -> (m: String)
    ensures
        m@ == lit@ + decimal(p as nat),
{
    let mut m = String::from_str(lit);
    crate::text::push_decimal(&mut m, p as u64);
    m
}

impl JsonError {
    /// The message reporting this error for the input `input`.
    pub fn message(&self, input: &Vec<char>) -> (m: String)
        ensures
            m@ == error_message(*self, input@),
    {
        match self {
            JsonError::TrailingCharacters(p) => text_at_position("caractères superflus à la position ", *p),
            JsonError::UnexpectedToken(c, p) => {
                let mut m = String::from_str("token inattendu '");
                crate::text::push_char(&mut m, *c);
                m.append("' à la position ");
                crate::text::push_decimal(&mut m, *p as u64);
                m
            },
            JsonError::UnexpectedEnd => String::from_str("fin d'entrée inattendue"),
            JsonError::ExpectedColon(p) => text_at_position("':' attendu à la position ", *p),
            JsonError::ExpectedCommaOrBrace(p) => text_at_position("',' ou '}' attendu à la position ", *p),
            JsonError::ExpectedCommaOrBracket(p) => text_at_position("',' ou ']' attendu à la position ", *p),
            JsonError::ExpectedQuote(p) => text_at_position("'\"' attendu à la position ", *p),
            JsonError::TruncatedEscape => String::from_str("échappement tronqué"),
            JsonError::TruncatedUnicode => String::from_str("\\u tronqué"),
            JsonError::InvalidHex => String::from_str("hex invalide dans \\u"),
            JsonError::UnknownEscape(c) => {
                let mut m = String::from_str("échappement inconnu \\");
                crate::text::push_char(&mut m, *c);
                m
            },
            JsonError::UnterminatedString => String::from_str("chaîne non terminée"),
            JsonError::InvalidBool(p) => text_at_position("littéral booléen invalide à la position ", *p),
            JsonError::InvalidNull(p) => text_at_position("littéral null invalide à la position ", *p),
            JsonError::InvalidNumber(a, b) => {
                let mut m = String::from_str("nombre invalide '");
                if *a <= *b && *b <= input.len() {
                    let t = slice_chars(input, *a, *b);
                    crate::text::push_chars(&mut m, t.as_slice());
                }
                m.append("'");
                m
            },
        }
    }
}

impl Json {
    /// Parses a JSON text: one value, optionally surrounded by whitespace.
    /// On failure, the error and its position (see [`JsonError`]).
    pub fn parse_chars(cs: &Vec<char>) -> (r: Result<Json, JsonError>)
        ensures
            match r {
                Ok(j) => p_json(cs@) == Ok::<JVal, JsonError>(j@),
                Err(e) => p_json(cs@) == Err::<JVal, JsonError>(e),
            },
    {
        let (v, q) = match parse_value_at(cs, 0) {
            Err(e) => {
                return Err(e);
            },
            Ok(x) => x,
        };
        let q2 = skip_ws_at(cs, q);
        if q2 != cs.len() {
            return Err(JsonError::TrailingCharacters(q2));
        }
        Ok(v)
    }

    /// Parses a JSON text; on failure, a message that says what is wrong and
    /// where.
    pub fn parse(input: &str) -> (r: Result<Json, String>)
        ensures
            match p_json(input@) {
                Ok(v) => r matches Ok(j) && j@ == v,
                Err(e) => r matches Err(m) && m@ == error_message(e, input@),
            },
    {
        let cs = crate::text::str_chars(input);
        match Json::parse_chars(&cs) {
            Ok(j) => Ok(j),
            Err(e) => Err(e.message(&cs)),
        }
    }
}

// ----------------------------------------------------------------------- //
// A cursor over the input
// ----------------------------------------------------------------------- //

/// A position in the characters of a JSON text, moved forward by the
/// scanning operations.
pub struct Parser {
    pub chars: Vec<char>,
    pub pos: usize,
}

impl Parser {
    /// A cursor at the start of `input`.
    pub fn new(input: &str) -> (p: Parser)
        ensures
            p.chars@ == input@,
            p.pos == 0,
    {
        Parser { chars: crate::text::str_chars(input), pos: 0 }
    }

    /// The character under the cursor, if any.
    pub fn peek(&self) -> (r: Option<char>)
        ensures
            r == (if self.pos < self.chars@.len() {
                Some(self.chars@[self.pos as int])
            } else {
                None::<char>
            }),
    {
        if self.pos < self.chars.len() {
            Some(self.chars[self.pos])
        } else {
            None
        }
    }

    /// The character under the cursor, if any, moving past it.
    pub fn next(&mut self) -> (r: Option<char>)
        ensures
            final(self).chars == old(self).chars,
            r == (if old(self).pos < old(self).chars@.len() {
                Some(old(self).chars@[old(self).pos as int])
            } else {
                None::<char>
            }),
            final(self).pos == (if r is Some { old(self).pos + 1 } else { old(self).pos as int }),
    {
        if self.pos < self.chars.len() {
            let c = self.chars[self.pos];
            self.pos = self.pos + 1;
            Some(c)
        } else {
            None
        }
    }

    /// Moves past whitespace.
    pub fn skip_ws(&mut self)
        requires
            old(self).pos <= old(self).chars@.len(),
        ensures
            final(self).chars == old(self).chars,
            final(self).pos == skip_ws(old(self).chars@, old(self).pos as int),
    {
        self.pos = skip_ws_at(&self.chars, self.pos);
    }

    /// Reads a string starting at the cursor and moves past it; on failure
    /// the cursor stops where the reading failed (see [`string_stop`]).
    pub fn parse_string(&mut self) -> (r: Result<String, JsonError>)
        requires
            old(self).pos <= old(self).chars@.len(),
        ensures
            final(self).chars == old(self).chars,
            match p_string(old(self).chars@, old(self).pos as int) {
                Ok((t, q)) => r matches Ok(x) && x@ == t && final(self).pos == q,
                Err(e) => r == Err::<String, JsonError>(e) && final(self).pos == string_stop(
                    old(self).chars@,
                    old(self).pos as int,
                ),
            },
    {
        match parse_string_at(&self.chars, self.pos) {
            Ok((t, q)) => {
                self.pos = q;
                Ok(t)
            },
            Err((e, stop)) => {
                self.pos = stop;
                Err(e)
            },
        }
    }

    /// When the characters of `lit` stand at the cursor, moves past them and
    /// returns `true`; else leaves the cursor and returns `false`. A literal
    /// with a character outside ASCII never matches.
    pub fn match_literal(&mut self, lit: &str) -> (r: bool)
        requires
            old(self).pos <= old(self).chars@.len(),
        ensures
            final(self).chars == old(self).chars,
            r == ((forall|i: int| 0 <= i < lit@.len() ==> #[trigger] lit@[i] < '\u{80}')
                && lit_at(old(self).chars@, old(self).pos as int, lit@)),
            final(self).pos == (if r { old(self).pos + lit@.len() } else { old(self).pos as int }),
    {
        let lc = crate::text::str_chars(lit);
        let mut i: usize = 0;
        while i < lc.len()
            invariant
                i <= lc@.len(),
                lc@ == lit@,
                forall|k: int| 0 <= k < i ==> #[trigger] lit@[k] < '\u{80}',
            decreases lc@.len() - i,
        {
            if lc[i] >= '\u{80}' {
                return false;
            }
            i = i + 1;
        }
        let n = self.chars.len();
        if lit_at_exec(&self.chars, self.pos, lc.as_slice()) {
            assert(self.pos + lc@.len() <= n);
            self.pos = self.pos + lc.len();
            true
        } else {
            false
        }
    }
}

} // verus!
