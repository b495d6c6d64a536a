//! The `.env` text format: `KEY=VALUE` lines.
//!
//! Reading skips blank lines and lines that start with `#` and lines without
//! `=`; keys and values are trimmed, a value in double quotes is unescaped and a
//! value in single quotes is taken literally. A later line for a key replaces the
//! earlier value in place. Writing gives one `KEY="VALUE"` line per pair, with
//! backslashes and double quotes escaped.

use crate::ordered_map::{
    distinct_keys, insert_entry, key_index, lemma_insert_entry, lemma_key_index, str_entries, string_map_get_index, string_map_insert,
    string_map_len, string_map_new,
};
use crate::text::{
    chars_of, find_char, first_index, lemma_first_index, lemma_split_char_len, push_char,
    is_ws, replace_all, replace_chars, split_char, starts_with, string_of, trim, trim_chars,
    trim_start,
};
use indexmap::IndexMap;
use vstd::prelude::*;

verus! {

broadcast use lemma_first_index, lemma_key_index, lemma_split_char_len;

/// The two characters `\"`.
pub open spec fn esc_quote() -> Seq<char> {
    seq!['\\', '"']
}

/// The two characters `\\`.
pub open spec fn esc_backslash() -> Seq<char> {
    seq!['\\', '\\']
}

/// A value as `parse_value` reads it: the inside of double quotes with `\"` and
/// then `\\` unescaped, the inside of single quotes as it stands, otherwise the
/// text itself.
pub open spec fn value_of(v: Seq<char>) -> Seq<char> {
    if v.len() >= 2 && v[0] == '"' && v.last() == '"' {
        replace_all(
            replace_all(v.subrange(1, v.len() - 1), esc_quote(), seq!['"']),
            esc_backslash(),
            seq!['\\'],
        )
    } else if v.len() >= 2 && v[0] == '\'' && v.last() == '\'' {
        v.subrange(1, v.len() - 1)
    } else {
        v
    }
}

/// The pairs after reading one line.
pub open spec fn apply_line(acc: Seq<(Seq<char>, Seq<char>)>, line: Seq<char>) -> Seq<(Seq<char>, Seq<char>)> {
    let t = trim(line);
    if t.len() == 0 || t[0] == '#' {
        acc
    } else {
        match first_index(t, '=') {
            Some(i) => insert_entry(acc, trim(t.take(i)), value_of(trim(t.skip(i + 1)))),
            None => acc,
        }
    }
}

/// The pairs read from a list of lines.
pub open spec fn parse_lines(lines: Seq<Seq<char>>) -> Seq<(Seq<char>, Seq<char>)>
    decreases lines.len(),
{
    if lines.len() == 0 {
        Seq::empty()
    } else {
        apply_line(parse_lines(lines.drop_last()), lines.last())
    }
}

/// The pairs that `parse` reads from a text.
pub open spec fn parse_spec(content: Seq<char>) -> Seq<(Seq<char>, Seq<char>)> {
    parse_lines(split_char(content, '\n'))
}

/// Reading lines never gives a key twice.
proof fn lemma_parse_lines_distinct(lines: Seq<Seq<char>>)
    ensures
        distinct_keys(parse_lines(lines)),
    decreases lines.len(),
{
    if lines.len() > 0 {
        lemma_parse_lines_distinct(lines.drop_last());
        let acc = parse_lines(lines.drop_last());
        let t = trim(lines.last());
        if !(t.len() == 0 || t[0] == '#') {
            match first_index(t, '=') {
                Some(i) => lemma_insert_entry(acc, trim(t.take(i)), value_of(trim(t.skip(i + 1)))),
                None => {},
            }
        }
    }
}

/// What `parse` reads holds each key once: a later line for a key replaces the
/// earlier value.
pub proof fn lemma_parse_distinct(content: Seq<char>)
    ensures
        distinct_keys(parse_spec(content)),
{
    lemma_parse_lines_distinct(split_char(content, '\n'));
}

/// Reads a value: strips one pair of surrounding double quotes and unescapes
/// `\"` and `\\`, or strips one pair of single quotes; otherwise keeps the text.
pub fn parse_value(v: &str) -> (r: String)
    ensures
        r@ == value_of(v@),
{
    let c = chars_of(v);
    let n = c.len();
    if n >= 2 && c[0] == '"' && c[n - 1] == '"' {
        let inner = vstd::slice::slice_subrange(c.as_slice(), 1, n - 1);
        let q = vec!['\\', '"'];
        let q1 = vec!['"'];
        let b = vec!['\\', '\\'];
        let b1 = vec!['\\'];
        proof {
            assert(q@ =~= esc_quote());
            assert(b@ =~= esc_backslash());
            assert(q1@ =~= seq!['"']);
            assert(b1@ =~= seq!['\\']);
            assert(inner@ =~= v@.subrange(1, v@.len() - 1));
        }
        let unq = replace_chars(inner, q.as_slice(), q1.as_slice());
        let unb = replace_chars(unq.as_slice(), b.as_slice(), b1.as_slice());
        string_of(unb.as_slice())
    } else if n >= 2 && c[0] == '\'' && c[n - 1] == '\'' {
        string_of(vstd::slice::slice_subrange(c.as_slice(), 1, n - 1))
    } else {
        string_of(c.as_slice())
    }
}

/// Reads one line into the map.
fn read_line(map: &mut IndexMap<String, String>, line: &[char])
    ensures
        str_entries(*final(map)) == apply_line(str_entries(*old(map)), line@),
{
    let t = trim_chars(line);
    if t.len() == 0 || t[0] == '#' {
        return;
    }
    match find_char(t.as_slice(), '=') {
        Some(i) => {
            let k = trim_chars(vstd::slice::slice_subrange(t.as_slice(), 0, i));
            let v = trim_chars(vstd::slice::slice_subrange(t.as_slice(), i + 1, t.len()));
            proof {
                assert(t@.subrange(0, i as int) =~= t@.take(i as int));
                assert(t@.subrange(i + 1, t@.len() as int) =~= t@.skip(i + 1));
            }
            let vs = string_of(v.as_slice());
            let value = parse_value(vs.as_str());
            string_map_insert(map, string_of(k.as_slice()), value);
        },
        None => {},
    }
}

/// Reads `KEY=VALUE` lines into an ordered map.
pub fn parse(content: &str) -> (map: IndexMap<String, String>)
    ensures
        str_entries(map) == parse_spec(content@),
        distinct_keys(str_entries(map)),
{
    let c = chars_of(content);
    let mut map = string_map_new();
    let mut cur: Vec<char> = Vec::new();
    let ghost mut done: Seq<Seq<char>> = Seq::empty();
    let mut i: usize = 0;
    assert(c@.take(0) =~= Seq::<char>::empty());
    while i < c.len()
        invariant
            i <= c@.len(),
            split_char(c@.take(i as int), '\n') == done.push(cur@),
            str_entries(map) == parse_lines(done),
        decreases c@.len() - i,
    {
        let ch = c[i];
        proof {
            assert(c@.take(i + 1).drop_last() =~= c@.take(i as int));
            assert(c@.take(i + 1).last() == ch);
        }
        if ch == '\n' {
            read_line(&mut map, cur.as_slice());
            proof {
                assert(done.push(cur@).drop_last() =~= done);
                done = done.push(cur@);
            }
            cur = Vec::new();
        } else {
            cur.push(ch);
            proof {
                assert(done.push(cur@.drop_last()).update(done.len() as int, cur@) =~= done.push(cur@));
            }
        }
        i = i + 1;
    }
    assert(c@.take(c@.len() as int) =~= c@);
    read_line(&mut map, cur.as_slice());
    assert(done.push(cur@).drop_last() =~= done);
    proof {
        lemma_parse_distinct(content@);
        assert(c@ == content@);
    }
    map
}

/// Backslashes and double quotes escaped, as `serialize` writes a value.
pub open spec fn escape(v: Seq<char>) -> Seq<char> {
    replace_all(replace_all(v, seq!['\\'], esc_backslash()), seq!['"'], esc_quote())
}

/// The line written for a pair, without its line break: `KEY="VALUE"`.
pub open spec fn entry_body(p: (Seq<char>, Seq<char>)) -> Seq<char> {
    p.0 + seq!['=', '"'] + escape(p.1) + seq!['"']
}

/// The text that `serialize` writes for a list of pairs.
pub open spec fn serialize_spec(s: Seq<(Seq<char>, Seq<char>)>) -> Seq<char>
    decreases s.len(),
{
    if s.len() == 0 {
        Seq::empty()
    } else {
        serialize_spec(s.drop_last()) + entry_body(s.last()) + seq!['\n']
    }
}

/// Appends the characters of `src` to `out`.
fn push_all(out: &mut String, src: &[char])
    ensures
        final(out)@ == old(out)@ + src@,
{
    let mut i: usize = 0;
    while i < src.len()
        invariant
            i <= src@.len(),
            out@ == old(out)@ + src@.take(i as int),
        decreases src@.len() - i,
    {
        push_char(out, src[i]);
        i = i + 1;
        assert(out@ =~= old(out)@ + src@.take(i as int));
    }
    assert(src@.take(src@.len() as int) =~= src@);
}

/// Writes one `KEY="VALUE"` line per pair, in the map's order.
pub fn serialize(vars: &IndexMap<String, String>) -> (out: String)
    ensures
        out@ == serialize_spec(str_entries(*vars)),
        distinct_keys(str_entries(*vars)),
        (forall|i: int| 0 <= i < str_entries(*vars).len() ==> writable_key(#[trigger] str_entries(*vars)[i].0)
            && writable_value(str_entries(*vars)[i].1)) ==> parse_spec(out@) == str_entries(*vars),
{
    let ghost s = str_entries(*vars);
    let mut out = String::new();
    let n = string_map_len(vars);
    let mut i: usize = 0;
    assert(s.take(0) =~= Seq::<(Seq<char>, Seq<char>)>::empty());
    while i < n
        invariant
            i <= n,
            n == s.len(),
            s == str_entries(*vars),
            out@ == serialize_spec(s.take(i as int)),
            forall|a: int, j: int| 0 <= a < i && 0 <= j < n && j != a ==> #[trigger] s[j].0 != #[trigger] s[a].0,
        decreases n - i,
    {
        let (k, v) = string_map_get_index(vars, i).unwrap();
        let vc = chars_of(v.as_str());
        let bs1 = vec!['\\'];
        let bs2 = vec!['\\', '\\'];
        let q1 = vec!['"'];
        let q2 = vec!['\\', '"'];
        proof {
            assert(bs1@ =~= seq!['\\']);
            assert(bs2@ =~= esc_backslash());
            assert(q1@ =~= seq!['"']);
            assert(q2@ =~= esc_quote());
        }
        let b = replace_chars(vc.as_slice(), bs1.as_slice(), bs2.as_slice());
        let e = replace_chars(b.as_slice(), q1.as_slice(), q2.as_slice());
        let kc = chars_of(k.as_str());
        push_all(&mut out, kc.as_slice());
        push_char(&mut out, '=');
        push_char(&mut out, '"');
        push_all(&mut out, e.as_slice());
        push_char(&mut out, '"');
        push_char(&mut out, '\n');
        proof {
            assert(s.take(i + 1).drop_last() =~= s.take(i as int));
            assert(s.take(i + 1).last() == s[i as int]);
            assert(e@ =~= escape(s[i as int].1));
            assert(out@ =~= serialize_spec(s.take(i + 1)));
        }
        i = i + 1;
    }
    assert(s.take(n as int) =~= s);
    proof {
        assert forall|a: int, b: int| 0 <= a < b < s.len() implies s[a].0 != s[b].0 by {
            assert(s[b].0 != s[a].0);
        }
        if forall|i: int| 0 <= i < s.len() ==> writable_key(#[trigger] s[i].0) && writable_value(s[i].1) {
            lemma_parse_serialize(s);
        }
    }
    out
}


/// A key that a written line gives back: no `=` and no line break in it, and if
/// it is not empty, no white space at either end and no `#` in front.
pub open spec fn writable_key(k: Seq<char>) -> bool {
    &&& !k.contains('=')
    &&& !k.contains('\n')
    &&& k.len() > 0 ==> (!is_ws(k[0]) && !is_ws(k.last()) && k[0] != '#')
}

/// A value that a written line gives back: no line break in it.
pub open spec fn writable_value(v: Seq<char>) -> bool {
    !v.contains('\n')
}

/// Each character escaped on its own.
pub open spec fn escape_one(c: char) -> Seq<char> {
    if c == '\\' {
        esc_backslash()
    } else if c == '"' {
        esc_quote()
    } else {
        seq![c]
    }
}

/// Escaping, character by character.
pub open spec fn escape_each(v: Seq<char>) -> Seq<char>
    decreases v.len(),
{
    if v.len() == 0 {
        Seq::empty()
    } else {
        escape_one(v[0]) + escape_each(v.drop_first())
    }
}

/// Replacing a single character, one step.
proof fn lemma_replace_one_step(s: Seq<char>, c: char, r: Seq<char>)
    requires
        s.len() > 0,
    ensures
        replace_all(s, seq![c], r) == (if s[0] == c { r } else { seq![s[0]] }) + replace_all(
            s.drop_first(),
            seq![c],
            r,
        ),
{
    assert(s.skip(1) =~= s.drop_first());
    if s[0] == c {
        assert(s.take(1) =~= seq![c]);
    } else {
        assert(s.take(1) != seq![c]) by {
            assert(s.take(1)[0] != seq![c][0]);
        }
    }
}

/// Replacing a single character distributes over concatenation.
proof fn lemma_replace_one_concat(a: Seq<char>, b: Seq<char>, c: char, r: Seq<char>)
    ensures
        replace_all(a + b, seq![c], r) == replace_all(a, seq![c], r) + replace_all(b, seq![c], r),
    decreases a.len(),
{
    if a.len() == 0 {
        assert(a + b =~= b);
        assert(Seq::<char>::empty() + replace_all(b, seq![c], r) =~= replace_all(b, seq![c], r));
    } else {
        lemma_replace_one_step(a + b, c, r);
        lemma_replace_one_step(a, c, r);
        assert((a + b).drop_first() =~= a.drop_first() + b);
        lemma_replace_one_concat(a.drop_first(), b, c, r);
        let h = if a[0] == c { r } else { seq![a[0]] };
        assert(h + (replace_all(a.drop_first(), seq![c], r) + replace_all(b, seq![c], r)) =~= (h
            + replace_all(a.drop_first(), seq![c], r)) + replace_all(b, seq![c], r));
    }
}

/// The two replacements that `serialize` makes escape each character on its own.
proof fn lemma_escape_each(v: Seq<char>)
    ensures
        escape(v) == escape_each(v),
    decreases v.len(),
{
    if v.len() > 0 {
        let c = v[0];
        let rest = v.drop_first();
        lemma_replace_one_step(v, '\\', esc_backslash());
        let h1 = if c == '\\' { esc_backslash() } else { seq![c] };
        let inner_rest = replace_all(rest, seq!['\\'], esc_backslash());
        lemma_replace_one_concat(h1, inner_rest, '"', esc_quote());
        lemma_escape_each(rest);
        // The escaped form of the first character alone.
        if c == '\\' {
            lemma_replace_one_step(h1, '"', esc_quote());
            lemma_replace_one_step(h1.drop_first(), '"', esc_quote());
            assert(h1.drop_first().drop_first() =~= Seq::<char>::empty());
            assert(replace_all(h1, seq!['"'], esc_quote()) =~= esc_backslash());
        } else {
            lemma_replace_one_step(h1, '"', esc_quote());
            assert(h1.drop_first() =~= Seq::<char>::empty());
            assert(replace_all(h1, seq!['"'], esc_quote()) =~= escape_one(c));
        }
    }
}

/// Escaped text never starts with a double quote.
proof fn lemma_escape_each_first(v: Seq<char>)
    requires
        v.len() > 0,
    ensures
        escape_each(v).len() > 0,
        escape_each(v)[0] != '"',
{
    assert(escape_each(v) == escape_one(v[0]) + escape_each(v.drop_first()));
}

/// Backslashes doubled, double quotes kept: escaped text after `\"` is unescaped.
pub open spec fn double_backslashes(v: Seq<char>) -> Seq<char>
    decreases v.len(),
{
    if v.len() == 0 {
        Seq::empty()
    } else {
        (if v[0] == '\\' { esc_backslash() } else { seq![v[0]] }) + double_backslashes(v.drop_first())
    }
}

/// Unescaping `\"` in escaped text leaves the backslashes doubled.
proof fn lemma_unescape_quotes(v: Seq<char>)
    ensures
        replace_all(escape_each(v), esc_quote(), seq!['"']) == double_backslashes(v),
    decreases v.len(),
{
    if v.len() > 0 {
        let c = v[0];
        let rest = v.drop_first();
        let e = escape_each(rest);
        lemma_unescape_quotes(rest);
        let s = escape_each(v);
        assert(s == escape_one(c) + e);
        if c == '\\' {
            // `\\` then the escaped rest: no `\"` at the front, nor one character later.
            assert(!starts_with(s, esc_quote())) by {
                assert(s.take(2)[1] == '\\');
            }
            assert(s.drop_first() =~= seq!['\\'] + e);
            let t = s.drop_first();
            assert(!starts_with(t, esc_quote())) by {
                if t.len() >= 2 {
                    lemma_escape_each_first(rest);
                    assert(t.take(2)[1] == e[0]);
                }
            }
            assert(t.drop_first() =~= e);
            let r = replace_all(e, esc_quote(), seq!['"']);
            assert(replace_all(t, esc_quote(), seq!['"']) == seq![t[0]] + r);
            assert(replace_all(s, esc_quote(), seq!['"']) == seq![s[0]] + replace_all(t, esc_quote(), seq!['"']));
            assert(seq!['\\'] + (seq!['\\'] + r) =~= esc_backslash() + r);
            assert(replace_all(s, esc_quote(), seq!['"']) =~= esc_backslash() + replace_all(
                e,
                esc_quote(),
                seq!['"'],
            ));
        } else if c == '"' {
            assert(s.take(2) =~= esc_quote());
            assert(s.skip(2) =~= e);
        } else {
            assert(!starts_with(s, esc_quote())) by {
                assert(s.take(1)[0] == c);
            }
            assert(s.drop_first() =~= e);
        }
    }
}

/// Unescaping `\\` in text with doubled backslashes gives the original back.
proof fn lemma_unescape_backslashes(v: Seq<char>)
    ensures
        replace_all(double_backslashes(v), esc_backslash(), seq!['\\']) == v,
    decreases v.len(),
{
    if v.len() > 0 {
        let c = v[0];
        let rest = v.drop_first();
        lemma_unescape_backslashes(rest);
        let s = double_backslashes(v);
        let d = double_backslashes(rest);
        if c == '\\' {
            assert(s.take(2) =~= esc_backslash());
            assert(s.skip(2) =~= d);
        } else {
            assert(!starts_with(s, esc_backslash())) by {
                assert(s.take(1)[0] == c);
            }
            assert(s.drop_first() =~= d);
        }
        assert(v =~= seq![c] + rest);
    }
}

/// Reading an escaped value back gives the value.
pub proof fn lemma_value_of_escape(v: Seq<char>)
    ensures
        value_of(seq!['"'] + escape(v) + seq!['"']) == v,
{
    let w = seq!['"'] + escape(v) + seq!['"'];
    lemma_escape_each(v);
    lemma_unescape_quotes(v);
    lemma_unescape_backslashes(v);
    assert(w.subrange(1, w.len() - 1) =~= escape(v));
}

/// Escaping adds no line break.
proof fn lemma_escape_no_newline(v: Seq<char>)
    requires
        !v.contains('\n'),
    ensures
        !escape(v).contains('\n'),
    decreases v.len(),
{
    lemma_escape_each(v);
    if v.len() > 0 {
        assert(!v.drop_first().contains('\n')) by {
            if v.drop_first().contains('\n') {
                let j = choose|j: int| 0 <= j < v.drop_first().len() && v.drop_first()[j] == '\n';
                assert(v[j + 1] == '\n');
            }
        }
        lemma_escape_no_newline(v.drop_first());
        lemma_escape_each(v.drop_first());
        let h = escape_one(v[0]);
        assert(escape_each(v) == h + escape_each(v.drop_first()));
        assert(!h.contains('\n')) by {
            assert(v[0] != '\n');
        }
        assert forall|j: int| 0 <= j < escape_each(v).len() implies escape_each(v)[j] != '\n' by {
            if j < h.len() {
                assert(escape_each(v)[j] == h[j]);
            } else {
                assert(escape_each(v)[j] == escape_each(v.drop_first())[j - h.len()]);
            }
        }
    }
}

/// Splitting after appending text without the separator extends the last piece.
proof fn lemma_split_append(p: Seq<char>, t: Seq<char>, c: char)
    requires
        !t.contains(c),
    ensures
        split_char(p + t, c) == split_char(p, c).update(
            split_char(p, c).len() - 1,
            split_char(p, c).last() + t,
        ),
    decreases t.len(),
{
    let sp = split_char(p, c);
    if t.len() == 0 {
        assert(p + t =~= p);
        assert(sp.last() + t =~= sp.last());
        assert(sp.update(sp.len() - 1, sp.last()) =~= sp);
    } else {
        let t0 = t.drop_last();
        assert(!t0.contains(c)) by {
            if t0.contains(c) {
                let j = choose|j: int| 0 <= j < t0.len() && t0[j] == c;
                assert(t[j] == c);
            }
        }
        lemma_split_append(p, t0, c);
        assert((p + t).drop_last() =~= p + t0);
        assert(t.last() != c) by {
            assert(t[t.len() - 1] == t.last());
        }
        let pre = split_char(p + t0, c);
        assert(pre.last() =~= sp.last() + t0);
        assert(pre.last().push(t.last()) =~= sp.last() + t);
        assert(pre.update(pre.len() - 1, pre.last().push(t.last())) =~= sp.update(
            sp.len() - 1,
            sp.last() + t,
        ));
    }
}

/// The lines of the written text, without their line breaks.
pub open spec fn written_lines(s: Seq<(Seq<char>, Seq<char>)>) -> Seq<Seq<char>>
    decreases s.len(),
{
    if s.len() == 0 {
        Seq::empty()
    } else {
        written_lines(s.drop_last()).push(entry_body(s.last()))
    }
}

/// The written text splits into its lines and an empty piece after the last line break.
proof fn lemma_split_serialized(s: Seq<(Seq<char>, Seq<char>)>)
    requires
        forall|i: int| 0 <= i < s.len() ==> writable_key(#[trigger] s[i].0) && writable_value(s[i].1),
    ensures
        split_char(serialize_spec(s), '\n') == written_lines(s).push(Seq::<char>::empty()),
    decreases s.len(),
{
    if s.len() == 0 {
        assert(split_char(Seq::<char>::empty(), '\n') =~= seq![Seq::<char>::empty()]);
    } else {
        let s0 = s.drop_last();
        assert forall|i: int| 0 <= i < s0.len() implies writable_key(#[trigger] s0[i].0)
            && writable_value(s0[i].1) by {
            assert(s0[i] == s[i]);
        }
        lemma_split_serialized(s0);
        let p = serialize_spec(s0);
        let body = entry_body(s.last());
        let k = s.last().0;
        let v = s.last().1;
        assert(writable_key(s[s.len() - 1].0) && writable_value(s[s.len() - 1].1));
        lemma_escape_no_newline(v);
        assert(!body.contains('\n')) by {
            assert forall|j: int| 0 <= j < body.len() implies body[j] != '\n' by {
                if j < k.len() {
                    assert(body[j] == k[j]);
                } else if j < k.len() + 2 {
                } else if j < k.len() + 2 + escape(v).len() {
                    assert(body[j] == escape(v)[j - k.len() - 2]);
                } else {
                }
            }
        }
        lemma_split_append(p, body, '\n');
        let whole = p + body + seq!['\n'];
        assert(whole == serialize_spec(s));
        assert(whole.drop_last() =~= p + body);
        assert(Seq::<char>::empty() + body =~= body);
        assert(written_lines(s0).push(Seq::<char>::empty()).update(
            written_lines(s0).len() as int,
            body,
        ) =~= written_lines(s).drop_last().push(body));
    }
}

/// A written line reads back as its pair.
proof fn lemma_read_written_line(acc: Seq<(Seq<char>, Seq<char>)>, k: Seq<char>, v: Seq<char>)
    requires
        writable_key(k),
        writable_value(v),
    ensures
        apply_line(acc, entry_body((k, v))) == insert_entry(acc, k, v),
{
    let body = entry_body((k, v));
    let e = escape(v);
    let rest = seq!['"'] + e + seq!['"'];
    assert(body =~= k + seq!['='] + rest);
    // The line needs no trimming: it starts with the key or `=` and ends with `"`.
    assert(trim_start(body) == body) by {
        if k.len() > 0 {
            assert(body[0] == k[0]);
        } else {
            assert(body[0] == '=');
        }
    }
    assert(body.last() == '"');
    assert(trim(body) == body);
    assert(body[0] != '#') by {
        if k.len() > 0 {
            assert(body[0] == k[0]);
        }
    }
    // The first `=` ends the key.
    assert(body[k.len() as int] == '=');
    assert forall|j: int| 0 <= j < k.len() implies body[j] != '=' by {
        assert(body[j] == k[j]);
    }
    assert(first_index(body, '=') == Some(k.len() as int));
    assert(body.take(k.len() as int) =~= k);
    assert(body.skip(k.len() + 1int) =~= rest);
    assert(trim(k) == k) by {
        if k.len() > 0 {
            assert(trim_start(k) == k);
        }
    }
    assert(trim_start(rest) == rest);
    assert(rest.last() == '"');
    assert(trim(rest) == rest);
    lemma_value_of_escape(v);
}

/// Reading the written lines gives the pairs back.
proof fn lemma_read_written_lines(s: Seq<(Seq<char>, Seq<char>)>)
    requires
        distinct_keys(s),
        forall|i: int| 0 <= i < s.len() ==> writable_key(#[trigger] s[i].0) && writable_value(s[i].1),
    ensures
        parse_lines(written_lines(s)) == s,
    decreases s.len(),
{
    if s.len() > 0 {
        let s0 = s.drop_last();
        assert forall|i: int| 0 <= i < s0.len() implies writable_key(#[trigger] s0[i].0)
            && writable_value(s0[i].1) by {
            assert(s0[i] == s[i]);
        }
        lemma_read_written_lines(s0);
        let (k, v) = s.last();
        assert(writable_key(s[s.len() - 1].0) && writable_value(s[s.len() - 1].1));
        assert(written_lines(s).drop_last() =~= written_lines(s0));
        lemma_read_written_line(s0, k, v);
        assert(key_index(s0, k) is None) by {
            assert forall|j: int| 0 <= j < s0.len() implies s0[j].0 != k by {
                assert(s[j].0 != s[s.len() - 1].0);
            }
        }
        assert(s0.push((k, v)) =~= s);
    }
}

/// What `serialize` writes, `parse` reads back as the same pairs in the same
/// order, when no key repeats, no key or value holds a line break, and each key
/// is one that a line can carry (no `=`, not starting with `#`, no white space
/// at its ends).
pub proof fn lemma_parse_serialize(s: Seq<(Seq<char>, Seq<char>)>)
    requires
        distinct_keys(s),
        forall|i: int| 0 <= i < s.len() ==> writable_key(#[trigger] s[i].0) && writable_value(s[i].1),
    ensures
        parse_spec(serialize_spec(s)) == s,
{
    lemma_split_serialized(s);
    lemma_read_written_lines(s);
    let lines = written_lines(s).push(Seq::<char>::empty());
    assert(lines.drop_last() =~= written_lines(s));
    assert(trim(Seq::<char>::empty()) =~= Seq::<char>::empty());
}

} // verus!
