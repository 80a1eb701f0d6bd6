//! Serialised JSON is compact: outside string literals it holds no
//! whitespace, and every string literal it opens is closed.
use vstd::prelude::*;
use crate::json::JVal;
use crate::json_parse::is_ws;
use crate::json_text::{
    entries_text, escape_char, escape_text, hex_char, is_num_char, items_text, json_text, quote,
    wf,
};

verus! {

/// Where a left-to-right reading of JSON text stands: outside any string
/// literal, inside one, or inside one just after a backslash.
pub enum ScanState {
    Outside,
    Inside,
    Escaped,
}

/// One character read in state `st`: the next state, or nothing when the
/// character is whitespace outside a string literal.
pub open spec fn scan_step(c: char, st: ScanState) -> Option<ScanState> {
    match st {
        ScanState::Outside => if is_ws(c) {
            None
        } else if c == '"' {
            Some(ScanState::Inside)
        } else {
            Some(ScanState::Outside)
        },
        ScanState::Inside => if c == '\\' {
            Some(ScanState::Escaped)
        } else if c == '"' {
            Some(ScanState::Outside)
        } else {
            Some(ScanState::Inside)
        },
        ScanState::Escaped => Some(ScanState::Inside),
    }
}

/// The state after reading `t` from state `st`; nothing when whitespace
/// stands outside a string literal.
pub open spec fn scan(t: Seq<char>, st: ScanState) -> Option<ScanState>
    decreases t.len(),
{
    if t.len() == 0 {
        Some(st)
    } else {
        match scan_step(t[0], st) {
            Some(next) => scan(t.drop_first(), next),
            None => None,
        }
    }
}

/// A compact text: no whitespace outside string literals, and none left open.
pub open spec fn compact(t: Seq<char>) -> bool {
    scan(t, ScanState::Outside) == Some(ScanState::Outside)
}

/// Reading two texts one after the other.
pub proof fn lemma_scan_concat(a: Seq<char>, b: Seq<char>, st: ScanState)
    ensures
        scan(a + b, st) == (match scan(a, st) {
            Some(s2) => scan(b, s2),
            None => None,
        }),
    decreases a.len(),
{
    if a.len() == 0 {
        assert(a + b =~= b);
    } else {
        assert((a + b)[0] == a[0]);
        assert((a + b).drop_first() =~= a.drop_first() + b);
        if let Some(next) = scan_step(a[0], st) {
            lemma_scan_concat(a.drop_first(), b, next);
        }
    }
}

/// Characters that are neither a quote nor a backslash keep a reading inside
/// a string literal.
proof fn lemma_scan_inside_plain(t: Seq<char>)
    requires
        forall|k: int| 0 <= k < t.len() ==> #[trigger] t[k] != '"' && t[k] != '\\',
    ensures
        scan(t, ScanState::Inside) == Some(ScanState::Inside),
    decreases t.len(),
{
    if t.len() > 0 {
        assert forall|k: int| 0 <= k < t.drop_first().len() implies #[trigger] t.drop_first()[k] != '"'
            && t.drop_first()[k] != '\\' by {
            assert(t.drop_first()[k] == t[k + 1]);
        }
        lemma_scan_inside_plain(t.drop_first());
    }
}

/// Characters that are neither whitespace nor a quote keep a reading outside
/// string literals.
proof fn lemma_scan_outside_plain(t: Seq<char>)
    requires
        forall|k: int| 0 <= k < t.len() ==> !is_ws(#[trigger] t[k]) && t[k] != '"',
    ensures
        scan(t, ScanState::Outside) == Some(ScanState::Outside),
    decreases t.len(),
{
    if t.len() > 0 {
        assert forall|k: int| 0 <= k < t.drop_first().len() implies !is_ws(#[trigger] t.drop_first()[k])
            && t.drop_first()[k] != '"' by {
            assert(t.drop_first()[k] == t[k + 1]);
        }
        lemma_scan_outside_plain(t.drop_first());
    }
}

/// A single character read in a state.
proof fn lemma_scan_one(c: char, st: ScanState)
    ensures
        scan(seq![c], st) == scan_step(c, st),
{
    reveal_with_fuel(scan, 2);
    assert(seq![c].drop_first() =~= Seq::<char>::empty());
}

/// A backslash and one more character, read inside a string literal.
proof fn lemma_scan_pair(x: char)
    ensures
        scan(seq!['\\', x], ScanState::Inside) == Some(ScanState::Inside),
{
    assert(seq!['\\', x] =~= seq!['\\'] + seq![x]);
    lemma_scan_concat(seq!['\\'], seq![x], ScanState::Inside);
    lemma_scan_one('\\', ScanState::Inside);
    lemma_scan_one(x, ScanState::Escaped);
}

/// An escaped character keeps a reading inside the string literal.
proof fn lemma_scan_escape_char(c: char)
    ensures
        scan(escape_char(c), ScanState::Inside) == Some(ScanState::Inside),
{
    if c == '"' {
        lemma_scan_pair('"');
    } else if c == '\\' {
        lemma_scan_pair('\\');
    } else if c == '\n' {
        lemma_scan_pair('n');
    } else if c == '\r' {
        lemma_scan_pair('r');
    } else if c == '\t' {
        lemma_scan_pair('t');
    } else if (c as int) < 0x20 {
        let h1 = hex_char((c as int) / 16);
        let h2 = hex_char((c as int) % 16);
        let rest = seq!['0', '0', h1, h2];
        assert(escape_char(c) =~= seq!['\\', 'u'] + rest);
        lemma_scan_concat(seq!['\\', 'u'], rest, ScanState::Inside);
        lemma_scan_pair('u');
        assert forall|k: int| 0 <= k < rest.len() implies #[trigger] rest[k] != '"' && rest[k] != '\\' by {
            if k == 0 {
            } else if k == 1 {
            } else if k == 2 {
            } else {
            }
        }
        lemma_scan_inside_plain(rest);
    } else {
        lemma_scan_one(c, ScanState::Inside);
    }
}

/// The escaped characters of a string keep a reading inside the literal.
proof fn lemma_scan_escape_text(s: Seq<char>)
    ensures
        scan(escape_text(s), ScanState::Inside) == Some(ScanState::Inside),
    decreases s.len(),
{
    if s.len() > 0 {
        lemma_scan_escape_text(s.drop_last());
        lemma_scan_concat(escape_text(s.drop_last()), escape_char(s.last()), ScanState::Inside);
        lemma_scan_escape_char(s.last());
    }
}

/// A string literal is read from outside back to outside.
proof fn lemma_scan_quote(s: Seq<char>)
    ensures
        compact(quote(s)),
{
    lemma_scan_concat(seq!['"'] + escape_text(s), seq!['"'], ScanState::Outside);
    lemma_scan_concat(seq!['"'], escape_text(s), ScanState::Outside);
    lemma_scan_one('"', ScanState::Outside);
    lemma_scan_escape_text(s);
    lemma_scan_one('"', ScanState::Inside);
}

/// A text between two outside characters that is itself compact.
proof fn lemma_scan_wrapped(open: char, body: Seq<char>, close: char)
    requires
        !is_ws(open) && open != '"',
        !is_ws(close) && close != '"',
        compact(body),
    ensures
        compact(seq![open] + body + seq![close]),
{
    lemma_scan_concat(seq![open] + body, seq![close], ScanState::Outside);
    lemma_scan_concat(seq![open], body, ScanState::Outside);
    lemma_scan_one(open, ScanState::Outside);
    lemma_scan_one(close, ScanState::Outside);
}

/// Two compact texts joined by an outside character.
proof fn lemma_scan_joined(a: Seq<char>, sep: char, b: Seq<char>)
    requires
        !is_ws(sep) && sep != '"',
        compact(a),
        compact(b),
    ensures
        compact(a + seq![sep] + b),
{
    lemma_scan_concat(a + seq![sep], b, ScanState::Outside);
    lemma_scan_concat(a, seq![sep], ScanState::Outside);
    lemma_scan_one(sep, ScanState::Outside);
}

/// The text of a well-formed value is compact.
pub proof fn lemma_compact_value(v: JVal)
    requires
        wf(v),
    ensures
        compact(json_text(v)),
    decreases v,
{
    match v {
        JVal::Null => {
            let t = seq!['n', 'u', 'l', 'l'];
            assert forall|k: int| 0 <= k < t.len() implies !is_ws(#[trigger] t[k]) && t[k] != '"' by {
                if k == 0 {
                } else if k == 1 {
                } else if k == 2 {
                } else {
                }
            }
            lemma_scan_outside_plain(t);
        },
        JVal::Bool(b) => {
            if b {
                let t = seq!['t', 'r', 'u', 'e'];
                assert forall|k: int| 0 <= k < t.len() implies !is_ws(#[trigger] t[k]) && t[k] != '"' by {
                    if k == 0 {
                    } else if k == 1 {
                    } else if k == 2 {
                    } else {
                    }
                }
                lemma_scan_outside_plain(t);
            } else {
                let t = seq!['f', 'a', 'l', 's', 'e'];
                assert forall|k: int| 0 <= k < t.len() implies !is_ws(#[trigger] t[k]) && t[k] != '"' by {
                    if k == 0 {
                    } else if k == 1 {
                    } else if k == 2 {
                    } else if k == 3 {
                    } else {
                    }
                }
                lemma_scan_outside_plain(t);
            }
        },
        JVal::Num(t) => {
            crate::json_laws::lemma_valid_number_chars(t);
            assert forall|k: int| 0 <= k < t.len() implies !is_ws(#[trigger] t[k]) && t[k] != '"' by {
                assert(is_num_char(t[k]));
            }
            lemma_scan_outside_plain(t);
        },
        JVal::Str(s) => {
            lemma_scan_quote(s);
        },
        JVal::Arr(items) => {
            crate::json_text::lemma_wf_items(items);
            lemma_compact_items(items);
            lemma_scan_wrapped('[', items_text(items), ']');
        },
        JVal::Obj(es) => {
            crate::json_text::lemma_wf_entries(es);
            lemma_compact_entries(es);
            lemma_scan_wrapped('{', entries_text(es), '}');
        },
    }
}

/// The texts of well-formed values, joined by commas, are compact.
proof fn lemma_compact_items(items: Seq<JVal>)
    requires
        forall|i: int| 0 <= i < items.len() ==> #[trigger] wf(items[i]),
    ensures
        compact(items_text(items)),
    decreases items,
{
    if items.len() == 0 {
    } else if items.len() == 1 {
        assert(decreases_to!(items => items[0]));
        lemma_compact_value(items[0]);
    } else {
        let init = items.subrange(0, items.len() - 1);
        let last = items[items.len() - 1];
        assert forall|i: int| 0 <= i < init.len() implies #[trigger] wf(init[i]) by {
            assert(init[i] == items[i]);
        }
        lemma_compact_items(init);
        assert(decreases_to!(items => items[items.len() - 1]));
        lemma_compact_value(last);
        lemma_scan_joined(items_text(init), ',', json_text(last));
    }
}

/// The texts of entries with well-formed values, joined by commas, are
/// compact.
proof fn lemma_compact_entries(es: Seq<(Seq<char>, JVal)>)
    requires
        forall|i: int| 0 <= i < es.len() ==> #[trigger] wf(es[i].1),
    ensures
        compact(entries_text(es)),
    decreases es,
{
    if es.len() == 0 {
    } else {
        let k = es.len() - 1;
        let e = es[k];
        assert(decreases_to!(es => es[k]));
        assert(decreases_to!(es[k] => es[k].1));
        lemma_compact_value(e.1);
        lemma_scan_quote(e.0);
        lemma_scan_joined(quote(e.0), ':', json_text(e.1));
        if es.len() == 1 {
            assert(entries_text(es) == quote(e.0) + seq![':'] + json_text(e.1));
        } else {
            let init = es.subrange(0, k);
            assert forall|i: int| 0 <= i < init.len() implies #[trigger] wf(init[i].1) by {
                assert(init[i] == es[i]);
            }
            lemma_compact_entries(init);
            let tail = quote(e.0) + seq![':'] + json_text(e.1);
            lemma_scan_joined(entries_text(init), ',', tail);
            assert(entries_text(es) =~= entries_text(init) + seq![','] + tail);
        }
    }
}

/// The serialisation of a well-formed value is compact: outside string
/// literals it holds no whitespace, and every string literal is closed.
pub proof fn law_serialization_compact(v: JVal)
    requires
        wf(v),
    ensures
        compact(json_text(v)),
{
    lemma_compact_value(v);
}

} // verus!
