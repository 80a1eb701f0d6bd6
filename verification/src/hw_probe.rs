//! Reading the host's load figures from the text of the kernel's status
//! files: the first field of the load-average file, and the total and
//! available memory fields of the memory-information file. Turning the
//! fields into numbers is left to the caller.
use vstd::prelude::*;
use crate::json_parse::{is_ws, is_whitespace_char, lit_at, lit_at_exec, slice_chars};
use crate::text::{str_chars, string_from_chars};

verus! {

/// Position of the first whitespace character at or after `i`, or the end.
pub open spec fn word_end(t: Seq<char>, i: int) -> int
    decreases t.len() - i,
{
    if 0 <= i < t.len() && !is_ws(t[i]) {
        word_end(t, i + 1)
    } else {
        i
    }
}

/// The first whitespace-separated word of a text, if it has one.
pub open spec fn first_word(t: Seq<char>) -> Option<Seq<char>> {
    let a = crate::json_parse::skip_ws(t, 0);
    if a >= t.len() {
        None
    } else {
        Some(t.subrange(a, word_end(t, a)))
    }
}

/// The first word of `cs`.
fn first_word_chars(cs: &Vec<char>) -> (r: Option<Vec<char>>)
    ensures
        match first_word(cs@) {
            Some(w) => r matches Some(v) && v@ == w,
            None => r is None,
        },
{
    let mut a: usize = 0;
    while a < cs.len() && is_whitespace_char(cs[a])
        invariant
            a <= cs@.len(),
            crate::json_parse::skip_ws(cs@, a as int) == crate::json_parse::skip_ws(cs@, 0),
        decreases cs@.len() - a,
    {
        a = a + 1;
    }
    if a >= cs.len() {
        return None;
    }
    let mut b: usize = a;
    while b < cs.len() && !is_whitespace_char(cs[b])
        invariant
            a <= b <= cs@.len(),
            word_end(cs@, b as int) == word_end(cs@, a as int),
        decreases cs@.len() - b,
    {
        b = b + 1;
    }
    Some(slice_chars(cs, a, b))
}

/// The first whitespace-separated word of `text`, as `split_whitespace`
/// gives it.
pub fn first_field(text: &str) -> (r: Option<String>)
    ensures
        match first_word(text@) {
            Some(w) => r matches Some(s) && s@ == w,
            None => r is None,
        },
{
    let cs = str_chars(text);
    match first_word_chars(&cs) {
        Some(w) => Some(string_from_chars(w.as_slice())),
        None => None,
    }
}

/// Position of the first line feed at or after `i`, or the end.
pub open spec fn line_end(s: Seq<char>, i: int) -> int
    decreases s.len() - i,
{
    if 0 <= i < s.len() && s[i] != '\n' {
        line_end(s, i + 1)
    } else {
        i
    }
}

/// The line that starts at `i`, without its line feed and without a carriage
/// return just before that line feed.
pub open spec fn line_at(s: Seq<char>, i: int) -> Seq<char> {
    let e = line_end(s, i);
    if e < s.len() && e > i && s[e - 1] == '\r' {
        s.subrange(i, e - 1)
    } else {
        s.subrange(i, e)
    }
}

/// The word that follows `prefix` at the start of `line`, when the line
/// starts with it: `Some` of the word found (or of nothing).
pub open spec fn field_after(line: Seq<char>, prefix: Seq<char>) -> Option<Option<Seq<char>>> {
    if lit_at(line, 0, prefix) {
        Some(first_word(line.subrange(prefix.len() as int, line.len() as int)))
    } else {
        None
    }
}

/// The total and available memory words found by reading the lines from
/// position `i` on, starting from `acc`: a line that starts with
/// `MemTotal:` sets the first to its next word (or to nothing), one that
/// starts with `MemAvailable:` sets the second; the last such line wins.
pub open spec fn meminfo_scan(s: Seq<char>, i: int, acc: (Option<Seq<char>>, Option<Seq<char>>)) -> (
    Option<Seq<char>>,
    Option<Seq<char>>,
)
    decreases s.len() + 1 - i,
{
    if i < 0 || i >= s.len() {
        acc
    } else {
        let l = line_at(s, i);
        let next = match field_after(l, "MemTotal:"@) {
            Some(w) => (w, acc.1),
            None => match field_after(l, "MemAvailable:"@) {
                Some(w) => (acc.0, w),
                None => acc,
            },
        };
        proof {
            lemma_line_end_bounds(s, i);
        }
        meminfo_scan(s, line_end(s, i) + 1, next)
    }
}

/// A line ends at the first line feed from its start, or at the end.
pub proof fn lemma_line_end_bounds(s: Seq<char>, i: int)
    requires
        0 <= i <= s.len(),
    ensures
        i <= line_end(s, i) <= s.len(),
        line_end(s, i) < s.len() ==> s[line_end(s, i)] == '\n',
        forall|k: int| i <= k < line_end(s, i) ==> s[k] != '\n',
    decreases s.len() - i,
{
    if i < s.len() && s[i] != '\n' {
        lemma_line_end_bounds(s, i + 1);
    }
}

/// The word after `prefix` at the start of `line`, if the line starts with it.
fn field_after_exec(line: &Vec<char>, prefix: &str) -> (r: Option<Option<Vec<char>>>)
    ensures
        match field_after(line@, prefix@) {
            Some(Some(w)) => r matches Some(Some(v)) && v@ == w,
            Some(None) => r matches Some(None),
            None => r is None,
        },
{
    let pc = str_chars(prefix);
    if !lit_at_exec(line, 0, pc.as_slice()) {
        return None;
    }
    let rest = slice_chars(line, pc.len(), line.len());
    Some(first_word_chars(&rest))
}

/// The characters of an optional word.
pub open spec fn opt_view(o: Option<Vec<char>>) -> Option<Seq<char>> {
    match o {
        Some(v) => Some(v@),
        None => None,
    }
}

/// The words giving the total and the available memory in the text of the
/// memory-information file (see [`meminfo_scan`]).
pub fn meminfo_fields(text: &str) -> (r: (Option<String>, Option<String>))
    ensures
        ({
            let m = meminfo_scan(text@, 0, (None, None));
            &&& (match m.0 {
                Some(w) => r.0 matches Some(t) && t@ == w,
                None => r.0 is None,
            })
            &&& (match m.1 {
                Some(w) => r.1 matches Some(t) && t@ == w,
                None => r.1 is None,
            })
        }),
{
    let cs = str_chars(text);
    let ghost s = cs@;
    let mut total: Option<Vec<char>> = None;
    let mut avail: Option<Vec<char>> = None;
    let mut i: usize = 0;
    while i < cs.len()
        invariant
            s == cs@,
            s == text@,
            i <= cs@.len(),
            meminfo_scan(s, i as int, (opt_view(total), opt_view(avail))) == meminfo_scan(s, 0, (None, None)),
        decreases cs@.len() - i,
    {
        let mut e: usize = i;
        while e < cs.len() && cs[e] != '\n'
            invariant
                i <= e <= cs@.len(),
                line_end(cs@, e as int) == line_end(cs@, i as int),
            decreases cs@.len() - e,
        {
            e = e + 1;
        }
        assert(line_end(s, e as int) == e);
        let ghost acc0 = (opt_view(total), opt_view(avail));
        let stop = if e < cs.len() && e > i && cs[e - 1] == '\r' { e - 1 } else { e };
        let line = slice_chars(&cs, i, stop);
        assert(line@ == line_at(s, i as int));
        match field_after_exec(&line, "MemTotal:") {
            Some(w) => {
                total = w;
            },
            None => match field_after_exec(&line, "MemAvailable:") {
                Some(w) => {
                    avail = w;
                },
                None => {},
            },
        }
        proof {
            let acc1 = (opt_view(total), opt_view(avail));
            assert(meminfo_scan(s, i as int, acc0) == meminfo_scan(s, e + 1, acc1));
            if e >= cs.len() {
                assert(meminfo_scan(s, e + 1, acc1) == acc1);
                assert(meminfo_scan(s, e as int, acc1) == acc1);
            }
        }
        i = if e < cs.len() { e + 1 } else { e };
    }
    let t = match total {
        Some(v) => Some(string_from_chars(v.as_slice())),
        None => None,
    };
    let a = match avail {
        Some(v) => Some(string_from_chars(v.as_slice())),
        None => None,
    };
    (t, a)
}

} // verus!
