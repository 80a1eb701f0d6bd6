//! Laws of the JSON codec: parsing the serialization of a well-formed value
//! gives back that value.
use vstd::prelude::*;
use crate::json::{JVal, obj_get, set_view, get_view};
use crate::json_parse::{
    JsonError, p_string_body, p_string, hex_run, hex_val, decode_code, p_value, p_json, p_number,
    p_array, p_elements, p_object, p_members, num_end, skip_ws, obj_insert, lower_bound, lit_at,
    p_bool, p_null, is_ws,
};
use crate::json_text::{
    escape_text, escape_char, quote, hex_char, is_num_char, json_text, items_text, entries_text,
    valid_number, wf, wf_items, wf_entries, keys_sorted, key_lt, digits_end, exponent_end, is_digit,
};

verus! {

/// `t` stands in `s` at position `a`.
pub open spec fn occurs(s: Seq<char>, a: int, t: Seq<char>) -> bool {
    0 <= a && a + t.len() <= s.len() && s.subrange(a, a + t.len()) == t
}

/// The character at `e` (if any) cannot continue a number.
pub open spec fn ends_value(s: Seq<char>, e: int) -> bool {
    e == s.len() || (0 <= e < s.len() && !is_num_char(s[e]))
}

proof fn lemma_occurs_split(s: Seq<char>, a: int, x: Seq<char>, y: Seq<char>)
    requires
        occurs(s, a, x + y),
    ensures
        occurs(s, a, x),
        occurs(s, a + x.len(), y),
{
    let w = s.subrange(a, a + (x + y).len());
    assert forall|i: int| 0 <= i < x.len() implies s.subrange(a, a + x.len())[i] == x[i] by {
        assert(w[i] == (x + y)[i]);
    }
    assert(s.subrange(a, a + x.len()) =~= x);
    assert forall|i: int| 0 <= i < y.len() implies s.subrange(a + x.len(), a + x.len() + y.len())[i] == y[i] by {
        assert(w[x.len() + i] == (x + y)[x.len() + i]);
    }
    assert(s.subrange(a + x.len(), a + x.len() + y.len()) =~= y);
}

proof fn lemma_occurs_index(s: Seq<char>, a: int, t: Seq<char>, i: int)
    requires
        occurs(s, a, t),
        0 <= i < t.len(),
    ensures
        s[a + i] == t[i],
{
    assert(s.subrange(a, a + t.len())[i] == s[a + i]);
}

// ----------------------------------------------------------------------- //
// Strings
// ----------------------------------------------------------------------- //

proof fn lemma_escape_text_concat(x: Seq<char>, y: Seq<char>)
    ensures
        escape_text(x + y) == escape_text(x) + escape_text(y),
    decreases y.len(),
{
    if y.len() == 0 {
        assert(x + y =~= x);
        assert(escape_text(y) =~= Seq::<char>::empty());
        assert(escape_text(x) + escape_text(y) =~= escape_text(x));
    } else {
        lemma_escape_text_concat(x, y.drop_last());
        assert((x + y).drop_last() =~= x + y.drop_last());
        assert((x + y).last() == y.last());
    }
}

proof fn lemma_escape_text_cons(u: Seq<char>)
    requires
        u.len() > 0,
    ensures
        escape_text(u) == escape_char(u[0]) + escape_text(u.drop_first()),
{
    lemma_escape_text_concat(seq![u[0]], u.drop_first());
    assert(seq![u[0]] + u.drop_first() =~= u);
    assert(seq![u[0]].drop_last() =~= Seq::<char>::empty());
    assert(escape_text(Seq::<char>::empty()) =~= Seq::<char>::empty());
    assert(escape_text(seq![u[0]]) =~= escape_char(u[0]));
}

proof fn lemma_hex_char(d: int)
    requires
        0 <= d < 16,
    ensures
        hex_val(hex_char(d)) == Some(d),
{
}

/// One escaped character decodes back to itself.
proof fn lemma_char_step(s: Seq<char>, b: int, c: char, acc: Seq<char>)
    requires
        occurs(s, b, escape_char(c)),
    ensures
        p_string_body(s, b, acc) == p_string_body(s, b + escape_char(c).len(), acc.push(c)),
{
    let t = escape_char(c);
    lemma_occurs_index(s, b, t, 0);
    if t.len() >= 2 {
        lemma_occurs_index(s, b, t, 1);
    }
    if c != '"' && c != '\\' && c != '\n' && c != '\r' && c != '\t' && (c as int) < 0x20 {
        lemma_occurs_index(s, b, t, 2);
        lemma_occurs_index(s, b, t, 3);
        lemma_occurs_index(s, b, t, 4);
        lemma_occurs_index(s, b, t, 5);
        let code = c as int;
        lemma_hex_char(code / 16);
        lemma_hex_char(code % 16);
        reveal_with_fuel(hex_run, 5);
        assert(hex_run(s, b + 2, 4, 0) == Ok::<int, JsonError>(code));
        assert(decode_code(code) == c);
    }
}

/// The escaped text of `u` followed by a quote decodes to `u`.
proof fn lemma_body_rt(s: Seq<char>, b: int, u: Seq<char>, acc: Seq<char>)
    requires
        occurs(s, b, escape_text(u) + seq!['"']),
    ensures
        p_string_body(s, b, acc) == Ok::<(Seq<char>, int), JsonError>((acc + u, b + escape_text(u).len() + 1)),
    decreases u.len(),
{
    if u.len() == 0 {
        assert(escape_text(u) =~= Seq::<char>::empty());
        lemma_occurs_index(s, b, escape_text(u) + seq!['"'], 0);
        assert(acc + u =~= acc);
    } else {
        let c = u[0];
        let rest = u.drop_first();
        lemma_escape_text_cons(u);
        assert(escape_text(u) + seq!['"'] =~= escape_char(c) + (escape_text(rest) + seq!['"']));
        lemma_occurs_split(s, b, escape_char(c), escape_text(rest) + seq!['"']);
        lemma_char_step(s, b, c, acc);
        lemma_body_rt(s, b + escape_char(c).len(), rest, acc.push(c));
        assert(acc.push(c) + rest =~= acc + u);
    }
}

/// A string literal parses back to its characters.
pub proof fn lemma_string_rt(s: Seq<char>, a: int, t: Seq<char>)
    requires
        occurs(s, a, quote(t)),
    ensures
        p_string(s, a) == Ok::<(Seq<char>, int), JsonError>((t, a + quote(t).len())),
{
    assert(quote(t) =~= seq!['"'] + (escape_text(t) + seq!['"']));
    lemma_occurs_split(s, a, seq!['"'], escape_text(t) + seq!['"']);
    lemma_occurs_index(s, a, seq!['"'], 0);
    lemma_body_rt(s, a + 1, t, Seq::empty());
    assert(Seq::<char>::empty() + t =~= t);
}


// ----------------------------------------------------------------------- //
// Numbers and literals
// ----------------------------------------------------------------------- //

proof fn lemma_digits_end(t: Seq<char>, i: int)
    requires
        0 <= i,
    ensures
        i <= digits_end(t, i),
        i <= t.len() ==> digits_end(t, i) <= t.len(),
        forall|k: int| i <= k < digits_end(t, i) ==> is_digit(#[trigger] t[k]),
    decreases t.len() - i,
{
    if 0 <= i < t.len() && is_digit(t[i]) {
        lemma_digits_end(t, i + 1);
    }
}

/// Every character of a valid number text is a number character.
pub(crate) proof fn lemma_valid_number_chars(t: Seq<char>)
    requires
        valid_number(t),
    ensures
        forall|k: int| 0 <= k < t.len() ==> is_num_char(#[trigger] t[k]),
{
    let s = if t.len() > 0 && t[0] == '-' { 1int } else { 0int };
    let i1 = digits_end(t, s);
    lemma_digits_end(t, s);
    let j = if i1 < t.len() && t[i1] == '.' {
        lemma_digits_end(t, i1 + 1);
        digits_end(t, i1 + 1)
    } else {
        i1
    };
    if j < t.len() && (t[j] == 'e' || t[j] == 'E') {
        let k0 = if j + 1 < t.len() && (t[j + 1] == '+' || t[j + 1] == '-') { j + 2 } else { j + 1 };
        lemma_digits_end(t, k0);
    }
}

proof fn lemma_num_end(s: Seq<char>, a: int, t: Seq<char>, k: int)
    requires
        occurs(s, a, t),
        forall|i: int| 0 <= i < t.len() ==> is_num_char(#[trigger] t[i]),
        ends_value(s, a + t.len()),
        0 <= k <= t.len(),
    ensures
        num_end(s, a + k) == a + t.len(),
    decreases t.len() - k,
{
    if k < t.len() {
        lemma_occurs_index(s, a, t, k);
        lemma_num_end(s, a, t, k + 1);
    }
}

proof fn lemma_number_rt(s: Seq<char>, a: int, t: Seq<char>)
    requires
        valid_number(t),
        occurs(s, a, t),
        ends_value(s, a + t.len()),
    ensures
        p_number(s, a) == Ok::<(JVal, int), JsonError>((JVal::Num(t), a + t.len())),
{
    lemma_valid_number_chars(t);
    lemma_num_end(s, a, t, 0);
}

// ----------------------------------------------------------------------- //
// Prefixes of element and entry lists
// ----------------------------------------------------------------------- //

pub open spec fn is_prefix(x: Seq<char>, y: Seq<char>) -> bool {
    x.len() <= y.len() && y.subrange(0, x.len() as int) == x
}

proof fn lemma_prefix_occurs(s: Seq<char>, b: int, x: Seq<char>, y: Seq<char>)
    requires
        occurs(s, b, y),
        is_prefix(x, y),
    ensures
        occurs(s, b, x),
        x.len() < y.len() ==> s[b + x.len()] == y[x.len() as int],
{
    assert(y =~= x + y.subrange(x.len() as int, y.len() as int));
    lemma_occurs_split(s, b, x, y.subrange(x.len() as int, y.len() as int));
    if x.len() < y.len() {
        lemma_occurs_index(s, b, y, x.len() as int);
    }
}

/// The text of the first `m` elements starts the text of all of them, and a
/// comma follows it when elements remain.
proof fn lemma_items_text_prefix(items: Seq<JVal>, m: int)
    requires
        1 <= m <= items.len(),
    ensures
        is_prefix(items_text(items.take(m)), items_text(items)),
        m < items.len() ==> items_text(items.take(m)).len() < items_text(items).len(),
        m < items.len() ==> items_text(items)[items_text(items.take(m)).len() as int] == ',',
    decreases items.len() - m,
{
    if m == items.len() {
        assert(items.take(m) =~= items);
        assert(items_text(items).subrange(0, items_text(items).len() as int) =~= items_text(items));
    } else {
        lemma_items_text_prefix(items, m + 1);
        crate::json_text::lemma_items_text_step(items, m);
        let x = items_text(items.take(m));
        let y = items_text(items.take(m + 1));
        let z = items_text(items);
        assert(y == x + seq![','] + json_text(items[m]));
        assert(z.subrange(0, y.len() as int) == y);
        assert forall|i: int| 0 <= i < x.len() implies z.subrange(0, x.len() as int)[i] == x[i] by {
            assert(z.subrange(0, y.len() as int)[i] == y[i]);
            assert(y[i] == x[i]);
        }
        assert(z.subrange(0, x.len() as int) =~= x);
        assert(z[x.len() as int] == z.subrange(0, y.len() as int)[x.len() as int]);
    }
}

/// The text of the first `m` entries starts the text of all of them, and a
/// comma follows it when entries remain.
proof fn lemma_entries_text_prefix(es: Seq<(Seq<char>, JVal)>, m: int)
    requires
        1 <= m <= es.len(),
    ensures
        is_prefix(entries_text(es.take(m)), entries_text(es)),
        m < es.len() ==> entries_text(es.take(m)).len() < entries_text(es).len(),
        m < es.len() ==> entries_text(es)[entries_text(es.take(m)).len() as int] == ',',
    decreases es.len() - m,
{
    if m == es.len() {
        assert(es.take(m) =~= es);
        assert(entries_text(es).subrange(0, entries_text(es).len() as int) =~= entries_text(es));
    } else {
        lemma_entries_text_prefix(es, m + 1);
        crate::json_text::lemma_entries_text_step(es, m);
        let x = entries_text(es.take(m));
        let y = entries_text(es.take(m + 1));
        let z = entries_text(es);
        assert(y == x + seq![','] + quote(es[m].0) + seq![':'] + json_text(es[m].1));
        assert(z.subrange(0, y.len() as int) == y);
        assert forall|i: int| 0 <= i < x.len() implies z.subrange(0, x.len() as int)[i] == x[i] by {
            assert(z.subrange(0, y.len() as int)[i] == y[i]);
            assert(y[i] == x[i]);
        }
        assert(z.subrange(0, x.len() as int) =~= x);
        assert(z[x.len() as int] == z.subrange(0, y.len() as int)[x.len() as int]);
    }
}

/// Inserting keys in increasing order appends them.
proof fn lemma_obj_insert_sorted(es: Seq<(Seq<char>, JVal)>, k: int)
    requires
        keys_sorted(es),
        0 <= k < es.len(),
    ensures
        obj_insert(es.take(k), es[k].0, es[k].1) == es.take(k + 1),
{
    let acc = es.take(k);
    assert forall|i: int| 0 <= i <= k implies lower_bound(acc, es[k].0, i) == k by {
        lemma_lower_bound_all_below(acc, es[k].0, i, es, k);
    }
    assert(acc.insert(k, (es[k].0, es[k].1)) =~= es.take(k + 1));
}

proof fn lemma_lower_bound_all_below(
    acc: Seq<(Seq<char>, JVal)>,
    key: Seq<char>,
    i: int,
    es: Seq<(Seq<char>, JVal)>,
    k: int,
)
    requires
        keys_sorted(es),
        0 <= k < es.len(),
        acc == es.take(k),
        key == es[k].0,
        0 <= i <= k,
    ensures
        lower_bound(acc, key, i) == k,
    decreases k - i,
{
    if i < k {
        assert(acc[i] == es[i]);
        assert(key_lt(es[i].0, es[k].0));
        lemma_lower_bound_all_below(acc, key, i + 1, es, k);
    }
}

// ----------------------------------------------------------------------- //
// Values
// ----------------------------------------------------------------------- //

/// What the text of a well-formed value starts with.
proof fn lemma_text_first(v: JVal)
    requires
        wf(v),
    ensures
        json_text(v).len() > 0,
        !is_ws(json_text(v)[0]),
        json_text(v)[0] != ']',
        json_text(v)[0] != '}',
{
    match v {
        JVal::Num(t) => {},
        JVal::Str(t) => {},
        JVal::Arr(items) => {},
        JVal::Obj(es) => {},
        _ => {},
    }
}

/// The text of a well-formed value, followed by a character that cannot
/// continue a number, parses back to the value.
pub proof fn lemma_value_rt(s: Seq<char>, a: int, v: JVal)
    requires
        wf(v),
        occurs(s, a, json_text(v)),
        ends_value(s, a + json_text(v).len()),
    ensures
        p_value(s, a) == Ok::<(JVal, int), JsonError>((v, a + json_text(v).len())),
    decreases v, 2int,
{
    let t = json_text(v);
    lemma_text_first(v);
    lemma_occurs_index(s, a, t, 0);
    assert(skip_ws(s, a) == a);
    match v {
        JVal::Null => {},
        JVal::Bool(b) => {
            if !b {
                assert(!lit_at(s, a, seq!['t', 'r', 'u', 'e']));
            }
        },
        JVal::Num(n) => {
            lemma_number_rt(s, a, n);
        },
        JVal::Str(str) => {
            lemma_string_rt(s, a, str);
        },
        JVal::Arr(items) => {
            lemma_array_rt(s, a, items);
        },
        JVal::Obj(es) => {
            lemma_object_rt(s, a, es);
        },
    }
}

/// An array text parses back to its elements.
proof fn lemma_array_rt(s: Seq<char>, a: int, items: Seq<JVal>)
    requires
        wf(JVal::Arr(items)),
        occurs(s, a, json_text(JVal::Arr(items))),
    ensures
        p_array(s, a) == Ok::<(JVal, int), JsonError>((JVal::Arr(items), a + json_text(JVal::Arr(items)).len())),
    decreases JVal::Arr(items), 1int,
{
    let t = json_text(JVal::Arr(items));
    let body = items_text(items);
    assert(t == seq!['['] + body + seq![']']);
    lemma_occurs_split(s, a, seq!['['] + body, seq![']']);
    lemma_occurs_split(s, a, seq!['['], body);
    lemma_occurs_index(s, a + 1 + body.len(), seq![']'], 0);
    if items.len() == 0 {
        assert(body.len() == 0);
        assert(skip_ws(s, a + 1) == a + 1);
        assert(items =~= Seq::<JVal>::empty());
    } else {
        crate::json_text::lemma_wf_items(items);
        lemma_items_text_prefix(items, 1);
        crate::json_text::lemma_items_text_step(items, 0);
        assert(items.take(0) =~= Seq::<JVal>::empty());
        assert(items_text(items.take(0)) =~= Seq::<char>::empty());
        assert(items_text(items.take(1)) == json_text(items[0]));
        lemma_text_first(items[0]);
        lemma_prefix_occurs(s, a + 1, items_text(items.take(1)), body);
        lemma_occurs_index(s, a + 1, json_text(items[0]), 0);
        assert(skip_ws(s, a + 1) == a + 1);
        lemma_elements_rt(s, a, items, 0);
    }
}

/// Position of element `k` in the text of an array that starts at `a`.
pub open spec fn elem_pos(a: int, items: Seq<JVal>, k: int) -> int {
    a + 1 + items_text(items.take(k)).len() + (if k > 0 { 1int } else { 0int })
}

proof fn lemma_elements_rt(s: Seq<char>, a: int, items: Seq<JVal>, k: int)
    requires
        wf(JVal::Arr(items)),
        occurs(s, a, json_text(JVal::Arr(items))),
        0 <= k < items.len(),
    ensures
        p_elements(s, elem_pos(a, items, k), items.take(k)) == Ok::<(JVal, int), JsonError>(
            (JVal::Arr(items), a + json_text(JVal::Arr(items)).len()),
        ),
    decreases items, items.len() - k,
{
    let n = items.len();
    let body = items_text(items);
    let t = json_text(JVal::Arr(items));
    assert(t == seq!['['] + body + seq![']']);
    lemma_occurs_split(s, a, seq!['['] + body, seq![']']);
    lemma_occurs_split(s, a, seq!['['], body);
    lemma_occurs_index(s, a + 1 + body.len(), seq![']'], 0);
    crate::json_text::lemma_wf_items(items);
    let tk = items_text(items.take(k));
    let tk1 = items_text(items.take(k + 1));
    crate::json_text::lemma_items_text_step(items, k);
    let sep = if k > 0 { seq![','] } else { Seq::<char>::empty() };
    assert(tk1 == tk + sep + json_text(items[k]));
    lemma_items_text_prefix(items, k + 1);
    lemma_prefix_occurs(s, a + 1, tk1, body);
    lemma_occurs_split(s, a + 1, tk + sep, json_text(items[k]));
    let pk = elem_pos(a, items, k);
    let ek = pk + json_text(items[k]).len();
    assert(ek == a + 1 + tk1.len());
    if k + 1 < n {
        assert(s[ek] == ',');
    } else {
        assert(items.take(k + 1) =~= items);
        assert(s[ek] == ']');
    }
    assert(decreases_to!(items => items[k]));
    lemma_value_rt(s, pk, items[k]);
    assert(skip_ws(s, ek) == ek);
    assert(items.take(k).push(items[k]) =~= items.take(k + 1));
    if k + 1 < n {
        assert(elem_pos(a, items, k + 1) == ek + 1);
        lemma_elements_rt(s, a, items, k + 1);
    } else {
        assert(items.take(k + 1) =~= items);
    }
}

/// An object text parses back to its entries.
proof fn lemma_object_rt(s: Seq<char>, a: int, es: Seq<(Seq<char>, JVal)>)
    requires
        wf(JVal::Obj(es)),
        occurs(s, a, json_text(JVal::Obj(es))),
    ensures
        p_object(s, a) == Ok::<(JVal, int), JsonError>((JVal::Obj(es), a + json_text(JVal::Obj(es)).len())),
    decreases JVal::Obj(es), 1int,
{
    let t = json_text(JVal::Obj(es));
    let body = entries_text(es);
    assert(t == seq!['{'] + body + seq!['}']);
    lemma_occurs_split(s, a, seq!['{'] + body, seq!['}']);
    lemma_occurs_split(s, a, seq!['{'], body);
    lemma_occurs_index(s, a + 1 + body.len(), seq!['}'], 0);
    if es.len() == 0 {
        assert(body.len() == 0);
        assert(skip_ws(s, a + 1) == a + 1);
        assert(es =~= Seq::<(Seq<char>, JVal)>::empty());
    } else {
        lemma_entries_text_prefix(es, 1);
        crate::json_text::lemma_entries_text_step(es, 0);
        assert(es.take(0) =~= Seq::<(Seq<char>, JVal)>::empty());
        assert(entries_text(es.take(0)) =~= Seq::<char>::empty());
        let first = entries_text(es.take(1));
        assert(first == quote(es[0].0) + seq![':'] + json_text(es[0].1));
        lemma_prefix_occurs(s, a + 1, first, body);
        assert(first[0] == '"');
        assert(skip_ws(s, a + 1) == a + 1);
        lemma_members_rt(s, a, es, 0);
    }
}

/// Position of entry `k` in the text of an object that starts at `a`.
pub open spec fn entry_pos(a: int, es: Seq<(Seq<char>, JVal)>, k: int) -> int {
    a + 1 + entries_text(es.take(k)).len() + (if k > 0 { 1int } else { 0int })
}

proof fn lemma_members_rt(s: Seq<char>, a: int, es: Seq<(Seq<char>, JVal)>, k: int)
    requires
        wf(JVal::Obj(es)),
        occurs(s, a, json_text(JVal::Obj(es))),
        0 <= k < es.len(),
    ensures
        p_members(s, entry_pos(a, es, k), es.take(k)) == Ok::<(JVal, int), JsonError>(
            (JVal::Obj(es), a + json_text(JVal::Obj(es)).len()),
        ),
    decreases es, es.len() - k,
{
    let n = es.len();
    let body = entries_text(es);
    let t = json_text(JVal::Obj(es));
    assert(t == seq!['{'] + body + seq!['}']);
    lemma_occurs_split(s, a, seq!['{'] + body, seq!['}']);
    lemma_occurs_split(s, a, seq!['{'], body);
    lemma_occurs_index(s, a + 1 + body.len(), seq!['}'], 0);
    crate::json_text::lemma_wf_entries(es);
    let tk = entries_text(es.take(k));
    let tk1 = entries_text(es.take(k + 1));
    crate::json_text::lemma_entries_text_step(es, k);
    let sep = if k > 0 { seq![','] } else { Seq::<char>::empty() };
    let key = quote(es[k].0);
    let val = json_text(es[k].1);
    assert(tk1 == tk + sep + key + seq![':'] + val);
    lemma_entries_text_prefix(es, k + 1);
    lemma_prefix_occurs(s, a + 1, tk1, body);
    lemma_occurs_split(s, a + 1, tk + sep + key + seq![':'], val);
    lemma_occurs_split(s, a + 1, tk + sep + key, seq![':']);
    lemma_occurs_split(s, a + 1, tk + sep, key);
    let pk = entry_pos(a, es, k);
    let colon = pk + key.len();
    lemma_occurs_index(s, colon, seq![':'], 0);
    let ek = colon + 1 + val.len();
    assert(ek == a + 1 + tk1.len());
    if k + 1 < n {
        assert(s[ek] == ',');
    } else {
        assert(es.take(k + 1) =~= es);
        assert(s[ek] == '}');
    }
    lemma_string_rt(s, pk, es[k].0);
    assert(skip_ws(s, pk) == pk);
    assert(skip_ws(s, colon) == colon);
    assert(decreases_to!(es => es[k]));
    assert(decreases_to!(es[k] => es[k].1));
    lemma_value_rt(s, colon + 1, es[k].1);
    assert(skip_ws(s, ek) == ek);
    lemma_obj_insert_sorted(es, k);
    if k + 1 < n {
        assert(entry_pos(a, es, k + 1) == ek + 1);
        lemma_members_rt(s, a, es, k + 1);
    } else {
        assert(es.take(k + 1) =~= es);
    }
}

/// Parsing the serialization of a well-formed value gives back the value.
pub proof fn law_parse_serialized(v: JVal)
    requires
        wf(v),
    ensures
        p_json(json_text(v)) == Ok::<JVal, JsonError>(v),
{
    let s = json_text(v);
    assert(s.subrange(0, s.len() as int) =~= s);
    lemma_value_rt(s, 0, v);
}


// ----------------------------------------------------------------------- //
// Parsed values are well formed
// ----------------------------------------------------------------------- //

/// What the scan of `lower_bound` establishes.
pub proof fn lemma_lower_bound<V>(es: Seq<(Seq<char>, V)>, k: Seq<char>, i: int)
    requires
        0 <= i <= es.len(),
    ensures
        i <= lower_bound(es, k, i) <= es.len(),
        forall|j: int| i <= j < lower_bound(es, k, i) ==> key_lt(#[trigger] es[j].0, k),
        lower_bound(es, k, i) < es.len() ==> !key_lt(es[lower_bound(es, k, i)].0, k),
    decreases es.len() - i,
{
    if i < es.len() && key_lt(es[i].0, k) {
        lemma_lower_bound(es, k, i + 1);
    }
}

/// Ordered insertion keeps the keys sorted and unique, and keeps every value
/// well formed.
pub proof fn lemma_obj_insert_wf(es: Seq<(Seq<char>, JVal)>, k: Seq<char>, v: JVal)
    requires
        keys_sorted(es),
        forall|i: int| 0 <= i < es.len() ==> #[trigger] wf(es[i].1),
        wf(v),
    ensures
        keys_sorted(obj_insert(es, k, v)),
        forall|i: int| 0 <= i < obj_insert(es, k, v).len() ==> #[trigger] wf(obj_insert(es, k, v)[i].1),
{
    let i = lower_bound(es, k, 0);
    lemma_lower_bound(es, k, 0);
    let r = obj_insert(es, k, v);
    if i < es.len() && es[i].0 == k {
        assert forall|a: int, b: int| 0 <= a < b < r.len() implies key_lt(#[trigger] r[a].0, #[trigger] r[b].0) by {
            assert(r[a].0 == es[a].0);
            assert(r[b].0 == es[b].0);
        }
    } else {
        // Every key before position i is below k; every key from i on is above it.
        assert forall|j: int| i <= j < es.len() implies key_lt(k, #[trigger] es[j].0) by {
            crate::json_text::lemma_key_lt_total(es[i].0, k);
            if j > i {
                crate::json_text::lemma_key_lt_transitive(k, es[i].0, es[j].0);
            }
        }
        assert forall|a: int, b: int| 0 <= a < b < r.len() implies key_lt(#[trigger] r[a].0, #[trigger] r[b].0) by {
            if b < i {
                assert(r[a] == es[a] && r[b] == es[b]);
            } else if b == i {
                assert(r[a] == es[a]);
            } else if a < i {
                assert(r[a] == es[a] && r[b] == es[b - 1]);
                crate::json_text::lemma_key_lt_transitive(es[a].0, k, es[b - 1].0);
            } else if a == i {
                assert(r[b] == es[b - 1]);
            } else {
                assert(r[a] == es[a - 1] && r[b] == es[b - 1]);
            }
        }
        assert forall|j: int| 0 <= j < r.len() implies #[trigger] wf(r[j].1) by {
            if j < i {
                assert(r[j] == es[j]);
            } else if j > i {
                assert(r[j] == es[j - 1]);
            }
        }
    }
}

proof fn lemma_value_wf(s: Seq<char>, pos: int)
    ensures
        p_value(s, pos) matches Ok((v, _)) ==> wf(v),
    decreases s.len() - pos, 2int,
{
    let p = skip_ws(s, pos);
    crate::json_parse::lemma_skip_ws(s, pos);
    if 0 <= p < s.len() {
        let c = s[p];
        if c == '{' {
            lemma_object_wf(s, p);
        } else if c == '[' {
            lemma_array_wf(s, p);
        }
    }
}

proof fn lemma_object_wf(s: Seq<char>, p: int)
    ensures
        p_object(s, p) matches Ok((v, _)) ==> wf(v),
    decreases s.len() - p, 1int,
{
    if 0 <= p < s.len() {
        let q = skip_ws(s, p + 1);
        if !(0 <= q < s.len() && s[q] == '}') {
            lemma_members_wf(s, p + 1, Seq::empty());
        }
    }
}

proof fn lemma_members_wf(s: Seq<char>, pos: int, acc: Seq<(Seq<char>, JVal)>)
    requires
        keys_sorted(acc),
        forall|i: int| 0 <= i < acc.len() ==> #[trigger] wf(acc[i].1),
    ensures
        p_members(s, pos, acc) matches Ok((v, _)) ==> wf(v),
    decreases s.len() - pos, 3int,
{
    let q = skip_ws(s, pos);
    crate::json_parse::lemma_skip_ws(s, pos);
    if let Ok((key, q1)) = p_string(s, q) {
        crate::json_parse::lemma_p_string_advances(s, q);
        let q2 = skip_ws(s, q1);
        crate::json_parse::lemma_skip_ws(s, q1);
        if 0 <= q2 < s.len() && s[q2] == ':' {
            lemma_value_wf(s, q2 + 1);
            if let Ok((v, q3)) = p_value(s, q2 + 1) {
                let acc2 = obj_insert(acc, key, v);
                lemma_obj_insert_wf(acc, key, v);
                let q4 = skip_ws(s, q3);
                if 0 <= q4 < s.len() {
                    if s[q4] == ',' {
                        if pos < q4 + 1 {
                            lemma_members_wf(s, q4 + 1, acc2);
                        }
                    } else if s[q4] == '}' {
                        crate::json_text::lemma_wf_entries(acc2);
                    }
                }
            }
        }
    }
}

proof fn lemma_array_wf(s: Seq<char>, p: int)
    ensures
        p_array(s, p) matches Ok((v, _)) ==> wf(v),
    decreases s.len() - p, 1int,
{
    if 0 <= p < s.len() {
        let q = skip_ws(s, p + 1);
        if !(0 <= q < s.len() && s[q] == ']') {
            lemma_elements_wf(s, p + 1, Seq::empty());
        } else {
            crate::json_text::lemma_wf_items(Seq::<JVal>::empty());
        }
    }
}

proof fn lemma_elements_wf(s: Seq<char>, pos: int, acc: Seq<JVal>)
    requires
        forall|i: int| 0 <= i < acc.len() ==> #[trigger] wf(acc[i]),
    ensures
        p_elements(s, pos, acc) matches Ok((v, _)) ==> wf(v),
    decreases s.len() - pos, 3int,
{
    lemma_value_wf(s, pos);
    if let Ok((v, q)) = p_value(s, pos) {
        let acc2 = acc.push(v);
        assert forall|i: int| 0 <= i < acc2.len() implies #[trigger] wf(acc2[i]) by {
            if i < acc.len() {
                assert(acc2[i] == acc[i]);
            }
        }
        let q2 = skip_ws(s, q);
        if 0 <= q2 < s.len() {
            if s[q2] == ',' {
                if pos < q2 + 1 {
                    lemma_elements_wf(s, q2 + 1, acc2);
                }
            } else if s[q2] == ']' {
                crate::json_text::lemma_wf_items(acc2);
            }
        }
    }
}

/// Every value that parsing yields is well formed.
pub proof fn law_parsed_is_wf(s: Seq<char>)
    ensures
        p_json(s) matches Ok(v) ==> wf(v),
{
    lemma_value_wf(s, 0);
}

/// Serializing a parsed value and parsing the result gives the same value.
pub proof fn law_reparse(s: Seq<char>)
    ensures
        p_json(s) matches Ok(v) ==> p_json(json_text(v)) == Ok::<JVal, JsonError>(v),
{
    law_parsed_is_wf(s);
    if let Ok(v) = p_json(s) {
        law_parse_serialized(v);
    }
}


// ----------------------------------------------------------------------- //
// Objects: reading back what was set
// ----------------------------------------------------------------------- //

/// Ordered insertion keeps the keys sorted and unique.
pub proof fn lemma_obj_insert_sorted_keys<V>(es: Seq<(Seq<char>, V)>, k: Seq<char>, v: V)
    requires
        keys_sorted(es),
    ensures
        keys_sorted(obj_insert(es, k, v)),
{
    let i = lower_bound(es, k, 0);
    lemma_lower_bound(es, k, 0);
    let r = obj_insert(es, k, v);
    if i < es.len() && es[i].0 == k {
        assert forall|a: int, b: int| 0 <= a < b < r.len() implies key_lt(#[trigger] r[a].0, #[trigger] r[b].0) by {
            assert(r[a].0 == es[a].0);
            assert(r[b].0 == es[b].0);
        }
    } else {
        assert forall|j: int| i <= j < es.len() implies key_lt(k, #[trigger] es[j].0) by {
            crate::json_text::lemma_key_lt_total(es[i].0, k);
            if j > i {
                crate::json_text::lemma_key_lt_transitive(k, es[i].0, es[j].0);
            }
        }
        assert forall|a: int, b: int| 0 <= a < b < r.len() implies key_lt(#[trigger] r[a].0, #[trigger] r[b].0) by {
            if b < i {
                assert(r[a] == es[a] && r[b] == es[b]);
            } else if b == i {
                assert(r[a] == es[a]);
            } else if a < i {
                assert(r[a] == es[a] && r[b] == es[b - 1]);
                crate::json_text::lemma_key_lt_transitive(es[a].0, k, es[b - 1].0);
            } else if a == i {
                assert(r[b] == es[b - 1]);
            } else {
                assert(r[a] == es[a - 1] && r[b] == es[b - 1]);
            }
        }
    }
}

/// In entries with unique keys, the entry with key `k` is what `obj_get` finds.
pub proof fn lemma_obj_get_at<V>(es: Seq<(Seq<char>, V)>, j: int)
    requires
        keys_sorted(es),
        0 <= j < es.len(),
    ensures
        obj_get(es, es[j].0) == Some(es[j].1),
    decreases j,
{
    if j > 0 {
        let t = es.drop_first();
        assert forall|a: int, b: int| 0 <= a < b < t.len() implies key_lt(#[trigger] t[a].0, #[trigger] t[b].0) by {
            assert(t[a] == es[a + 1] && t[b] == es[b + 1]);
        }
        assert(key_lt(es[0].0, es[j].0));
        crate::json_text::lemma_key_lt_irreflexive(es[j].0);
        assert(es[0].0 != es[j].0);
        lemma_obj_get_at(t, j - 1);
        assert(t[j - 1] == es[j]);
    }
}

/// A key that no entry has is found nowhere.
pub proof fn lemma_obj_get_absent<V>(es: Seq<(Seq<char>, V)>, k: Seq<char>)
    requires
        forall|j: int| 0 <= j < es.len() ==> (#[trigger] es[j]).0 != k,
    ensures
        obj_get(es, k) is None,
    decreases es.len(),
{
    if es.len() > 0 {
        let t = es.drop_first();
        assert forall|j: int| 0 <= j < t.len() implies (#[trigger] t[j]).0 != k by {
            assert(t[j] == es[j + 1]);
        }
        lemma_obj_get_absent(t, k);
    }
}

/// In entries with sorted keys, ordered insertion makes the key find the new
/// value, and leaves what every other key finds.
pub proof fn lemma_obj_insert_get<V>(es: Seq<(Seq<char>, V)>, k: Seq<char>, x: V, k2: Seq<char>)
    requires
        keys_sorted(es),
    ensures
        obj_get(obj_insert(es, k, x), k) == Some(x),
        k2 != k ==> obj_get(obj_insert(es, k, x), k2) == obj_get(es, k2),
{
    let r = obj_insert(es, k, x);
    let i = lower_bound(es, k, 0);
    lemma_lower_bound(es, k, 0);
    lemma_obj_insert_sorted_keys(es, k, x);
    let replaced = i < es.len() && es[i].0 == k;
    assert(r[i] == (k, x));
    lemma_obj_get_at(r, i);
    if k2 != k {
        if exists|j: int| 0 <= j < es.len() && (#[trigger] es[j]).0 == k2 {
            let j = choose|j: int| 0 <= j < es.len() && (#[trigger] es[j]).0 == k2;
            lemma_obj_get_at(es, j);
            let jr = if replaced || j < i { j } else { j + 1 };
            assert(r[jr] == es[j]);
            lemma_obj_get_at(r, jr);
        } else {
            lemma_obj_get_absent(es, k2);
            assert forall|j: int| 0 <= j < r.len() implies (#[trigger] r[j]).0 != k2 by {
                if replaced {
                    if j != i {
                        assert(r[j] == es[j]);
                    }
                } else if j < i {
                    assert(r[j] == es[j]);
                } else if j > i {
                    assert(r[j] == es[j - 1]);
                }
            }
            lemma_obj_get_absent(r, k2);
        }
    }
}

/// After `set`, `get` of the same key finds the value that was set, and `get`
/// of any other key finds what it found before.
pub proof fn law_get_after_set(v: JVal, k: Seq<char>, x: JVal, k2: Seq<char>)
    requires
        v matches JVal::Obj(es) && keys_sorted(es),
    ensures
        get_view(set_view(v, k, x), k) == Some(x),
        k2 != k ==> get_view(set_view(v, k, x), k2) == get_view(v, k2),
{
    lemma_obj_insert_get(v->Obj_0, k, x, k2);
}

/// `set` keeps a well-formed value well formed when the value set is.
pub proof fn law_set_keeps_wf(v: JVal, k: Seq<char>, x: JVal)
    requires
        wf(v),
        wf(x),
    ensures
        wf(set_view(v, k, x)),
{
    if let JVal::Obj(es) = v {
        crate::json_text::lemma_wf_entries(es);
        lemma_obj_insert_wf(es, k, x);
        crate::json_text::lemma_wf_entries(obj_insert(es, k, x));
    }
}

} // verus!
