//! The JSON text of a value: its compact serialization, the order of object
//! keys, the grammar of numbers, and well-formed values.
use vstd::prelude::*;
use crate::json::{Json, JVal, json_view, items_view, entries_view, lemma_items_view, lemma_entries_view};
use crate::text::{push_char, push_chars, str_chars, decimal, signed_decimal, digit_char};

verus! {

// ----------------------------------------------------------------------- //
// Order of object keys
// ----------------------------------------------------------------------- //

/// Strict order of keys: lexicographic by code point, a proper prefix first.
/// (For strings this is the order of their UTF-8 bytes, the order of `String`.)
pub open spec fn key_lt(a: Seq<char>, b: Seq<char>) -> bool
    decreases a.len(),
{
    if a.len() == 0 {
        b.len() > 0
    } else if b.len() == 0 {
        false
    } else if a[0] != b[0] {
        (a[0] as int) < (b[0] as int)
    } else {
        key_lt(a.drop_first(), b.drop_first())
    }
}

/// No key is below itself.
pub proof fn lemma_key_lt_irreflexive(a: Seq<char>)
    ensures
        !key_lt(a, a),
    decreases a.len(),
{
    if a.len() > 0 {
        lemma_key_lt_irreflexive(a.drop_first());
    }
}

/// Of two distinct keys, exactly one is below the other.
pub proof fn lemma_key_lt_total(a: Seq<char>, b: Seq<char>)
    ensures
        a != b ==> (key_lt(a, b) || key_lt(b, a)),
        !(key_lt(a, b) && key_lt(b, a)),
    decreases a.len(),
{
    if a.len() > 0 && b.len() > 0 {
        lemma_key_lt_total(a.drop_first(), b.drop_first());
        if a != b && a[0] == b[0] {
            assert(a =~= seq![a[0]] + a.drop_first());
            assert(b =~= seq![b[0]] + b.drop_first());
        }
    } else if a.len() == 0 && b.len() == 0 {
        assert(a =~= b);
    }
}

/// The key order is transitive.
pub proof fn lemma_key_lt_transitive(a: Seq<char>, b: Seq<char>, c: Seq<char>)
    requires
        key_lt(a, b),
        key_lt(b, c),
    ensures
        key_lt(a, c),
    decreases a.len(),
{
    if a.len() > 0 && b.len() > 0 && c.len() > 0 {
        if a[0] == b[0] && b[0] == c[0] {
            lemma_key_lt_transitive(a.drop_first(), b.drop_first(), c.drop_first());
        }
    }
}

/// Entries sorted by key, strictly: every key occurs once.
pub open spec fn keys_sorted<V>(es: Seq<(Seq<char>, V)>) -> bool {
    forall|i: int, j: int| 0 <= i < j < es.len() ==> key_lt(#[trigger] es[i].0, #[trigger] es[j].0)
}

// ----------------------------------------------------------------------- //
// Numbers
// ----------------------------------------------------------------------- //

/// A character that may occur in the text of a number.
pub open spec fn is_num_char(c: char) -> bool {
    ('0' <= c <= '9') || c == '.' || c == 'e' || c == 'E' || c == '+' || c == '-'
}

pub open spec fn is_digit(c: char) -> bool {
    '0' <= c <= '9'
}

/// Index of the first non-digit of `t` at or after `i`.
pub open spec fn digits_end(t: Seq<char>, i: int) -> int
    decreases t.len() - i,
{
    if 0 <= i < t.len() && is_digit(t[i]) {
        digits_end(t, i + 1)
    } else {
        i
    }
}

/// Index just past the optional exponent that starts at `j` in `t`, or `-1`
/// when an exponent marker there is not followed by digits.
pub open spec fn exponent_end(t: Seq<char>, j: int) -> int {
    if j < t.len() && (t[j] == 'e' || t[j] == 'E') {
        let k = if j + 1 < t.len() && (t[j + 1] == '+' || t[j + 1] == '-') { j + 2 } else { j + 1 };
        let k2 = digits_end(t, k);
        if k2 > k { k2 } else { -1 }
    } else {
        j
    }
}

/// The decimal-number grammar of floating-point parsing, restricted to texts
/// that begin with `-` or a digit:
/// `'-'? (Digit+ | Digit+ '.' Digit* | Digit* '.' Digit+) (('e'|'E') ('+'|'-')? Digit+)?`.
pub open spec fn valid_number(t: Seq<char>) -> bool {
    let s = if t.len() > 0 && t[0] == '-' { 1int } else { 0int };
    let i1 = digits_end(t, s);
    let (mantissa_ok, j) = if i1 < t.len() && t[i1] == '.' {
        let i2 = digits_end(t, i1 + 1);
        (i1 > s || i2 > i1 + 1, i2)
    } else {
        (i1 > s, i1)
    };
    &&& t.len() > 0
    &&& (t[0] == '-' || is_digit(t[0]))
    &&& mantissa_ok
    &&& exponent_end(t, j) == t.len()
}

/// All characters of the decimal notation of `n` are digits.
pub proof fn lemma_decimal_digits(n: nat)
    ensures
        decimal(n).len() > 0,
        forall|i: int| 0 <= i < decimal(n).len() ==> is_digit(#[trigger] decimal(n)[i]),
    decreases n,
{
    if n >= 10 {
        lemma_decimal_digits(n / 10);
        let d = decimal(n / 10);
        assert(decimal(n) == d.push(digit_char((n % 10) as int)));
        assert forall|i: int| 0 <= i < decimal(n).len() implies is_digit(#[trigger] decimal(n)[i]) by {
            if i < d.len() {
                assert(decimal(n)[i] == d[i]);
            }
        }
    }
}

proof fn lemma_digits_end_all(t: Seq<char>, i: int)
    requires
        0 <= i <= t.len(),
        forall|k: int| i <= k < t.len() ==> is_digit(#[trigger] t[k]),
    ensures
        digits_end(t, i) == t.len(),
    decreases t.len() - i,
{
    if i < t.len() {
        lemma_digits_end_all(t, i + 1);
    }
}

/// The decimal notation of an integer is a valid number text.
pub proof fn lemma_signed_decimal_valid(n: int)
    ensures
        valid_number(signed_decimal(n)),
{
    let t = signed_decimal(n);
    if n < 0 {
        let d = decimal((-n) as nat);
        lemma_decimal_digits((-n) as nat);
        assert forall|k: int| 1 <= k < t.len() implies is_digit(#[trigger] t[k]) by {
            assert(t[k] == d[k - 1]);
        }
        lemma_digits_end_all(t, 1);
    } else {
        lemma_decimal_digits(n as nat);
        lemma_digits_end_all(t, 0);
    }
}

// ----------------------------------------------------------------------- //
// Well-formed values
// ----------------------------------------------------------------------- //

/// A well-formed value: numbers follow the number grammar, object keys are
/// sorted and unique, and so on inside arrays and objects.
pub open spec fn wf(v: JVal) -> bool
    decreases v,
{
    match v {
        JVal::Num(t) => valid_number(t),
        JVal::Arr(items) => wf_items(items),
        JVal::Obj(es) => keys_sorted(es) && wf_entries(es),
        _ => true,
    }
}

pub open spec fn wf_items(items: Seq<JVal>) -> bool
    decreases items,
{
    if items.len() == 0 {
        true
    } else {
        wf_items(items.subrange(0, items.len() - 1)) && wf(items[items.len() - 1])
    }
}

pub open spec fn wf_entries(es: Seq<(Seq<char>, JVal)>) -> bool
    decreases es,
{
    if es.len() == 0 {
        true
    } else {
        wf_entries(es.subrange(0, es.len() - 1)) && wf(es[es.len() - 1].1)
    }
}

/// `wf_items` holds exactly when every element is well formed.
pub proof fn lemma_wf_items(items: Seq<JVal>)
    ensures
        wf_items(items) <==> forall|i: int| 0 <= i < items.len() ==> #[trigger] wf(items[i]),
    decreases items.len(),
{
    if items.len() > 0 {
        let init = items.subrange(0, items.len() - 1);
        lemma_wf_items(init);
        assert(forall|i: int| 0 <= i < init.len() ==> #[trigger] init[i] == items[i]);
        if wf_items(items) {
            assert forall|i: int| 0 <= i < items.len() implies #[trigger] wf(items[i]) by {
                if i < items.len() - 1 {
                    assert(init[i] == items[i]);
                    assert(wf(init[i]));
                }
            }
        } else {
            if wf_items(init) {
                assert(!wf(items[items.len() - 1]));
            } else {
                let k = choose|k: int| 0 <= k < init.len() && !wf(#[trigger] init[k]);
                assert(!wf(items[k]));
            }
        }
    }
}

/// `wf_entries` holds exactly when every entry's value is well formed.
pub proof fn lemma_wf_entries(es: Seq<(Seq<char>, JVal)>)
    ensures
        wf_entries(es) <==> forall|i: int| 0 <= i < es.len() ==> #[trigger] wf(es[i].1),
    decreases es.len(),
{
    if es.len() > 0 {
        let init = es.subrange(0, es.len() - 1);
        lemma_wf_entries(init);
        assert(forall|i: int| 0 <= i < init.len() ==> #[trigger] init[i] == es[i]);
        if wf_entries(es) {
            assert forall|i: int| 0 <= i < es.len() implies #[trigger] wf(es[i].1) by {
                if i < es.len() - 1 {
                    assert(init[i] == es[i]);
                    assert(wf(init[i].1));
                }
            }
        } else {
            if wf_entries(init) {
                assert(!wf(es[es.len() - 1].1));
            } else {
                let k = choose|k: int| 0 <= k < init.len() && !wf(#[trigger] init[k].1);
                assert(!wf(es[k].1));
            }
        }
    }
}

// ----------------------------------------------------------------------- //
// Serialization
// ----------------------------------------------------------------------- //

/// Lower-case hexadecimal digit of `d < 16`.
pub open spec fn hex_char(d: int) -> char {
    if d < 10 { (d + 48) as char } else { (d + 87) as char }
}

/// How one character of a string is written between the quotes.
pub open spec fn escape_char(c: char) -> Seq<char> {
    if c == '"' {
        seq!['\\', '"']
    } else if c == '\\' {
        seq!['\\', '\\']
    } else if c == '\n' {
        seq!['\\', 'n']
    } else if c == '\r' {
        seq!['\\', 'r']
    } else if c == '\t' {
        seq!['\\', 't']
    } else if (c as int) < 0x20 {
        seq!['\\', 'u', '0', '0', hex_char((c as int) / 16), hex_char((c as int) % 16)]
    } else {
        seq![c]
    }
}

/// The escaped characters of a string, without the quotes.
pub open spec fn escape_text(s: Seq<char>) -> Seq<char>
    decreases s.len(),
{
    if s.len() == 0 {
        Seq::empty()
    } else {
        escape_text(s.drop_last()) + escape_char(s.last())
    }
}

/// A string literal: the escaped characters between double quotes.
pub open spec fn quote(s: Seq<char>) -> Seq<char> {
    seq!['"'] + escape_text(s) + seq!['"']
}

/// Compact JSON text of a value (no whitespace; object entries in their order).
pub open spec fn json_text(v: JVal) -> Seq<char>
    decreases v,
{
    match v {
        JVal::Null => seq!['n', 'u', 'l', 'l'],
        JVal::Bool(b) => if b { seq!['t', 'r', 'u', 'e'] } else { seq!['f', 'a', 'l', 's', 'e'] },
        JVal::Num(t) => t,
        JVal::Str(s) => quote(s),
        JVal::Arr(items) => seq!['['] + items_text(items) + seq![']'],
        JVal::Obj(es) => seq!['{'] + entries_text(es) + seq!['}'],
    }
}

/// Texts of the values, separated by commas.
pub open spec fn items_text(items: Seq<JVal>) -> Seq<char>
    decreases items,
{
    if items.len() == 0 {
        Seq::empty()
    } else if items.len() == 1 {
        json_text(items[0])
    } else {
        items_text(items.subrange(0, items.len() - 1)) + seq![','] + json_text(
            items[items.len() - 1],
        )
    }
}

/// Texts of the entries (`"key":value`), separated by commas.
pub open spec fn entries_text(es: Seq<(Seq<char>, JVal)>) -> Seq<char>
    decreases es,
{
    if es.len() == 0 {
        Seq::empty()
    } else if es.len() == 1 {
        quote(es[0].0) + seq![':'] + json_text(es[0].1)
    } else {
        entries_text(es.subrange(0, es.len() - 1)) + seq![','] + quote(es[es.len() - 1].0)
            + seq![':'] + json_text(es[es.len() - 1].1)
    }
}


/// Texts of a prefix of values grow by one comma and one value at a time.
pub proof fn lemma_items_text_step(s: Seq<JVal>, i: int)
    requires
        0 <= i < s.len(),
    ensures
        items_text(s.take(i + 1)) == items_text(s.take(i)) + (if i > 0 { seq![','] } else { Seq::<char>::empty() })
            + json_text(s[i]),
{
    let t = s.take(i + 1);
    assert(t.subrange(0, i) == s.take(i));
    if i == 0 {
        assert(s.take(0) =~= Seq::<JVal>::empty());
        assert(items_text(s.take(0)) =~= Seq::<char>::empty());
    }
}

/// Texts of a prefix of entries grow by one comma and one entry at a time.
pub proof fn lemma_entries_text_step(s: Seq<(Seq<char>, JVal)>, i: int)
    requires
        0 <= i < s.len(),
    ensures
        entries_text(s.take(i + 1)) == entries_text(s.take(i)) + (if i > 0 { seq![','] } else { Seq::<char>::empty() })
            + quote(s[i].0) + seq![':'] + json_text(s[i].1),
{
    let t = s.take(i + 1);
    assert(t.subrange(0, i) == s.take(i));
    if i == 0 {
        assert(s.take(0) =~= Seq::<(Seq<char>, JVal)>::empty());
        assert(entries_text(s.take(0)) =~= Seq::<char>::empty());
    }
}

/// The escaped characters of a prefix grow one character at a time.
pub proof fn lemma_escape_text_step(s: Seq<char>, i: int)
    requires
        0 <= i < s.len(),
    ensures
        escape_text(s.take(i + 1)) == escape_text(s.take(i)) + escape_char(s[i]),
{
    assert(s.take(i + 1).drop_last() == s.take(i));
}

/// Lower-case hexadecimal digit of `d < 16`.
fn hex_digit(d: u32) -> (c: char)
    requires
        d < 16,
    ensures
        c == hex_char(d as int),
{
    if d < 10 {
        ((d + 48) as u8) as char
    } else {
        ((d + 87) as u8) as char
    }
}

/// Appends how `c` is written inside a string literal.
fn push_escaped_char(out: &mut String, c: char)
    ensures
        final(out)@ == old(out)@ + escape_char(c),
{
    if c == '"' {
        push_char(out, '\\');
        push_char(out, '"');
    } else if c == '\\' {
        push_char(out, '\\');
        push_char(out, '\\');
    } else if c == '\n' {
        push_char(out, '\\');
        push_char(out, 'n');
    } else if c == '\r' {
        push_char(out, '\\');
        push_char(out, 'r');
    } else if c == '\t' {
        push_char(out, '\\');
        push_char(out, 't');
    } else if (c as u32) < 0x20 {
        let code = c as u32;
        push_char(out, '\\');
        push_char(out, 'u');
        push_char(out, '0');
        push_char(out, '0');
        push_char(out, hex_digit(code / 16));
        push_char(out, hex_digit(code % 16));
    } else {
        push_char(out, c);
    }
    assert(final(out)@ == old(out)@ + escape_char(c));
}

/// Appends the string literal of `s` (quotes included, special characters
/// escaped) to `out`.
pub fn write_escaped(s: &str, out: &mut String)
    ensures
        final(out)@ == old(out)@ + quote(s@),
{
    let cs = str_chars(s);
    push_char(out, '"');
    let ghost start = out@;
    let mut i: usize = 0;
    while i < cs.len()
        invariant
            i <= cs@.len(),
            cs@ == s@,
            out@ == start + escape_text(cs@.take(i as int)),
        decreases cs@.len() - i,
    {
        proof {
            lemma_escape_text_step(cs@, i as int);
        }
        push_escaped_char(out, cs[i]);
        i = i + 1;
    }
    assert(cs@.take(cs@.len() as int) == cs@);
    push_char(out, '"');
}

impl Json {
    /// Compact serialization: no whitespace, object entries in key order.
    pub fn to_string(&self) -> (s: String)
        ensures
            s@ == json_text(self@),
    {
        let mut out = String::new();
        self.write_to(&mut out);
        out
    }

    /// Appends the compact serialization of `self` to `out`.
    pub fn write_to(&self, out: &mut String)
        ensures
            final(out)@ == old(out)@ + json_text(self@),
        decreases self,
    {
        match self {
            Json::Null => {
                push_chars(out, &['n', 'u', 'l', 'l']);
            },
            Json::Bool(b) => {
                if *b {
                    push_chars(out, &['t', 'r', 'u', 'e']);
                } else {
                    push_chars(out, &['f', 'a', 'l', 's', 'e']);
                }
            },
            Json::Num(t) => {
                let cs = str_chars(t.as_str());
                push_chars(out, cs.as_slice());
            },
            Json::Str(s) => {
                write_escaped(s.as_str(), out);
            },
            Json::Arr(items) => {
                push_char(out, '[');
                let ghost start = out@;
                let ghost vs = items_view(items@);
                proof {
                    lemma_items_view(items@);
                }
                let mut i: usize = 0;
                while i < items.len()
                    invariant
                        i <= items@.len(),
                        *self == Json::Arr(*items),
                        vs == items_view(items@),
                        vs.len() == items@.len(),
                        forall|k: int| 0 <= k < items@.len() ==> #[trigger] vs[k] == json_view(items@[k]),
                        out@ == start + items_text(vs.take(i as int)),
                    decreases items@.len() - i,
                {
                    proof {
                        lemma_items_text_step(vs, i as int);
                    }
                    if i > 0 {
                        push_char(out, ',');
                    }
                    proof {
                        assert(decreases_to!(*self => (*self)->Arr_0));
                        assert(decreases_to!(*items => items@));
                        assert(decreases_to!(items@ => items@[i as int]));
                    }
                    items[i].write_to(out);
                    i = i + 1;
                }
                assert(vs.take(vs.len() as int) == vs);
                push_char(out, ']');
            },
            Json::Obj(entries) => {
                push_char(out, '{');
                let ghost start = out@;
                let ghost vs = entries_view(entries@);
                proof {
                    lemma_entries_view(entries@);
                }
                let mut i: usize = 0;
                while i < entries.len()
                    invariant
                        i <= entries@.len(),
                        *self == Json::Obj(*entries),
                        vs == entries_view(entries@),
                        vs.len() == entries@.len(),
                        forall|k: int| 0 <= k < entries@.len() ==> #[trigger] vs[k] == (entries@[k].0@, json_view(entries@[k].1)),
                        out@ == start + entries_text(vs.take(i as int)),
                    decreases entries@.len() - i,
                {
                    proof {
                        lemma_entries_text_step(vs, i as int);
                    }
                    if i > 0 {
                        push_char(out, ',');
                    }
                    let (k, v) = &entries[i];
                    write_escaped(k.as_str(), out);
                    push_char(out, ':');
                    proof {
                        assert(decreases_to!(*self => (*self)->Obj_0));
                        assert(decreases_to!(*entries => entries@));
                        assert(decreases_to!(entries@ => entries@[i as int]));
                        assert(decreases_to!(entries@[i as int] => entries@[i as int].1));
                    }
                    v.write_to(out);
                    i = i + 1;
                }
                assert(vs.take(vs.len() as int) == vs);
                push_char(out, '}');
            },
        }
    }
}

} // verus!
