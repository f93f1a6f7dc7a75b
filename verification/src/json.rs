//! A small JSON writer for the report shapes the command line prints:
//! strings, arrays of strings and string-to-string maps.

use vstd::prelude::*;

use crate::order::text_lt;
use crate::text::{chars_of, push_char, push_chars, string_views};

verus! {

/// Lower-case hexadecimal digit for `n` (`0 <= n < 16`).
pub open spec fn hex_digit(n: int) -> char {
    seq!['0', '1', '2', '3', '4', '5', '6', '7', '8', '9', 'a', 'b', 'c', 'd', 'e', 'f'][n]
}

/// How one character is written inside a JSON string literal.
pub open spec fn json_escape_char(c: char) -> Seq<char> {
    if c == '"' {
        seq!['\\', '"']
    } else if c == '\\' {
        seq!['\\', '\\']
    } else if c == '\n' {
        seq!['\\', 'n']
    } else if c == '\r' {
        seq!['\\', 'r']
    } else if c == '\t' {
        seq!['\\', 't']
    } else if c == '\x08' {
        seq!['\\', 'b']
    } else if c == '\x0c' {
        seq!['\\', 'f']
    } else if (c as int) < 0x20 {
        seq!['\\', 'u', '0', '0', hex_digit((c as int) / 16), hex_digit((c as int) % 16)]
    } else {
        seq![c]
    }
}

/// The body of the JSON string literal for `s`: every character escaped.
pub open spec fn json_escape(s: Seq<char>) -> Seq<char>
    decreases s.len(),
{
    if s.len() == 0 {
        Seq::empty()
    } else {
        json_escape_char(s[0]) + json_escape(s.drop_first())
    }
}

/// The JSON string literal for `s`.
pub open spec fn json_quote(s: Seq<char>) -> Seq<char> {
    seq!['"'] + json_escape(s) + seq!['"']
}

/// Escaping distributes over concatenation.
pub proof fn lemma_json_escape_concat(a: Seq<char>, b: Seq<char>)
    ensures
        json_escape(a + b) == json_escape(a) + json_escape(b),
    decreases a.len(),
{
    if a.len() == 0 {
        assert(a + b =~= b);
        assert(json_escape(a) =~= Seq::<char>::empty());
        assert(json_escape(a) + json_escape(b) =~= json_escape(b));
    } else {
        assert((a + b).drop_first() =~= a.drop_first() + b);
        assert((a + b)[0] == a[0]);
        lemma_json_escape_concat(a.drop_first(), b);
        assert(json_escape(a + b) =~= json_escape_char(a[0]) + (json_escape(a.drop_first())
            + json_escape(b)));
        assert(json_escape(a) + json_escape(b) =~= json_escape_char(a[0]) + (json_escape(
            a.drop_first(),
        ) + json_escape(b)));
    }
}

/// Escaping a single character.
pub proof fn lemma_json_escape_single(c: char)
    ensures
        json_escape(seq![c]) == json_escape_char(c),
{
    let one = seq![c];
    assert(one.drop_first() =~= Seq::<char>::empty());
    assert(json_escape(one.drop_first()) =~= Seq::<char>::empty());
    assert(json_escape(one) =~= json_escape_char(c) + json_escape(one.drop_first()));
}

/// The value of a hexadecimal digit, upper or lower case.
pub open spec fn hex_value(c: char) -> Option<int> {
    if '0' <= c && c <= '9' {
        Some(c as int - '0' as int)
    } else if 'a' <= c && c <= 'f' {
        Some(c as int - 'a' as int + 10)
    } else if 'A' <= c && c <= 'F' {
        Some(c as int - 'A' as int + 10)
    } else {
        None
    }
}

/// The character a two-character escape `\e` stands for.
pub open spec fn short_escape(e: char) -> Option<char> {
    if e == '"' {
        Some('"')
    } else if e == '\\' {
        Some('\\')
    } else if e == '/' {
        Some('/')
    } else if e == 'b' {
        Some('\x08')
    } else if e == 'f' {
        Some('\x0c')
    } else if e == 'n' {
        Some('\n')
    } else if e == 'r' {
        Some('\r')
    } else if e == 't' {
        Some('\t')
    } else {
        None
    }
}

/// The code point written by the four hexadecimal digits `t[i..i + 4]`.
pub open spec fn hex4_value(t: Seq<char>, i: int) -> Option<int> {
    match (hex_value(t[i]), hex_value(t[i + 1]), hex_value(t[i + 2]), hex_value(t[i + 3])) {
        (Some(a), Some(b), Some(c), Some(d)) => Some(a * 4096 + b * 256 + c * 16 + d),
        _ => None,
    }
}

/// Reads the body of a JSON string literal (the text between the quotes):
/// the characters it stands for, or `None` where the body is not valid
/// JSON. A `\u` escape is read where it names a Unicode scalar value on
/// its own.
pub open spec fn json_unescape(t: Seq<char>) -> Option<Seq<char>>
    decreases t.len(),
{
    if t.len() == 0 {
        Some(Seq::empty())
    } else if t[0] == '\\' {
        if t.len() < 2 {
            None
        } else if short_escape(t[1]) is Some {
            match json_unescape(t.subrange(2, t.len() as int)) {
                Some(r) => Some(seq![short_escape(t[1])->0] + r),
                None => None,
            }
        } else if t[1] == 'u' && t.len() >= 6 && hex4_value(t, 2) is Some {
            let v: int = hex4_value(t, 2)->0;
            if v < 0xD800 || 0xE000 <= v {
                match json_unescape(t.subrange(6, t.len() as int)) {
                    Some(r) => Some(seq![v as char] + r),
                    None => None,
                }
            } else {
                None
            }
        } else {
            None
        }
    } else if t[0] == '"' || (t[0] as int) < 0x20 {
        None
    } else {
        match json_unescape(t.drop_first()) {
            Some(r) => Some(seq![t[0]] + r),
            None => None,
        }
    }
}

/// Reads a JSON string literal: the characters it stands for, or `None`.
pub open spec fn json_read_string(q: Seq<char>) -> Option<Seq<char>> {
    if q.len() >= 2 && q[0] == '"' && q[q.len() - 1] == '"' {
        json_unescape(q.subrange(1, q.len() - 1))
    } else {
        None
    }
}

proof fn lemma_hex_digit_value(n: int)
    requires
        0 <= n < 16,
    ensures
        hex_value(hex_digit(n)) == Some(n),
{
    let t = seq!['0', '1', '2', '3', '4', '5', '6', '7', '8', '9', 'a', 'b', 'c', 'd', 'e', 'f'];
    assert(hex_digit(n) == t[n]);
}

/// Reading back one escaped character followed by more text.
proof fn lemma_unescape_step(c: char, t: Seq<char>)
    ensures
        json_unescape(json_escape_char(c) + t) == (match json_unescape(t) {
            Some(r) => Some(seq![c] + r),
            None => None,
        }),
{
    let e = json_escape_char(c);
    let u = e + t;
    if e.len() == 2 {
        assert(u.subrange(2, u.len() as int) =~= t);
    } else if e.len() == 6 {
        let n: int = c as int;
        lemma_hex_digit_value(n / 16);
        lemma_hex_digit_value(n % 16);
        assert(u[2] == '0' && u[3] == '0');
        assert(hex4_value(u, 2) == Some(n));
        assert(u.subrange(6, u.len() as int) =~= t);
        assert((n as char) == c);
    } else {
        assert(u.drop_first() =~= t);
    }
}

/// What `json_escape` writes reads back as the characters it was given.
pub proof fn lemma_json_escape_reads_back(s: Seq<char>)
    ensures
        json_unescape(json_escape(s)) == Some(s),
    decreases s.len(),
{
    if s.len() == 0 {
    } else {
        lemma_json_escape_reads_back(s.drop_first());
        lemma_unescape_step(s[0], json_escape(s.drop_first()));
        assert(seq![s[0]] + s.drop_first() =~= s);
    }
}

/// A JSON string literal written for `s` reads back as exactly `s`.
pub proof fn lemma_json_string_reads_back(s: Seq<char>)
    ensures
        json_read_string(json_quote(s)) == Some(s),
{
    let q = json_quote(s);
    assert(q.subrange(1, q.len() - 1) =~= json_escape(s));
    lemma_json_escape_reads_back(s);
}

/// The lower-case hexadecimal digit for `n`.
fn hex_digit_char(n: u32) -> (c: char)
    requires
        n < 16,
    ensures
        c == hex_digit(n as int),
{
    let table: [char; 16] = ['0', '1', '2', '3', '4', '5', '6', '7', '8', '9', 'a', 'b', 'c', 'd', 'e', 'f'];
    assert(table@ =~= seq!['0', '1', '2', '3', '4', '5', '6', '7', '8', '9', 'a', 'b', 'c', 'd', 'e', 'f']);
    table[n as usize]
}

/// Appends the escaped form of `c` to `out`.
fn push_escaped(out: &mut String, c: char)
    ensures
        final(out)@ == old(out)@ + json_escape_char(c),
{
    let two: Option<char> = if c == '"' {
        Some('"')
    } else if c == '\\' {
        Some('\\')
    } else if c == '\n' {
        Some('n')
    } else if c == '\r' {
        Some('r')
    } else if c == '\t' {
        Some('t')
    } else if c == '\x08' {
        Some('b')
    } else if c == '\x0c' {
        Some('f')
    } else {
        None
    };
    match two {
        Some(e) => {
            push_char(out, '\\');
            push_char(out, e);
            assert(out@ =~= old(out)@ + json_escape_char(c)) by {
                assert(json_escape_char(c) =~= seq!['\\', e]);
            }
        },
        None => {
            let n: u32 = c as u32;
            if n < 0x20 {
                push_char(out, '\\');
                push_char(out, 'u');
                push_char(out, '0');
                push_char(out, '0');
                push_char(out, hex_digit_char(n / 16));
                push_char(out, hex_digit_char(n % 16));
            } else {
                push_char(out, c);
            }
            assert(out@ =~= old(out)@ + json_escape_char(c));
        },
    }
}

/// The JSON string literal for `s`: the characters of `s` between double
/// quotes, with `"`, `\` and the control characters escaped (`\n`, `\r`,
/// `\t`, `\b`, `\f` by name, the others as `\u00XX`).
pub fn json_string(s: &str) -> (r: String)
    ensures
        r@ == json_quote(s@),
{
    let v = chars_of(s);
    let mut out = String::new();
    push_char(&mut out, '"');
    let mut i: usize = 0;
    while i < v.len()
        invariant
            i <= v.len(),
            out@ == seq!['"'] + json_escape(v@.take(i as int)),
        decreases v.len() - i,
    {
        let ghost before = out@;
        push_escaped(&mut out, v[i]);
        proof {
            lemma_json_escape_concat(v@.take(i as int), seq![v@[i as int]]);
            lemma_json_escape_single(v@[i as int]);
            assert(v@.take(i as int) + seq![v@[i as int]] =~= v@.take(i + 1));
            assert(out@ =~= seq!['"'] + json_escape(v@.take(i + 1)));
        }
        i = i + 1;
    }
    push_char(&mut out, '"');
    assert(v@.take(v.len() as int) =~= v@);
    out
}

/// The texts of a slice of pairs of strings.
pub open spec fn pair_views(items: Seq<(String, String)>) -> Seq<(Seq<char>, Seq<char>)> {
    items.map_values(|e: (String, String)| (e.0@, e.1@))
}

/// The keys of the entries are in strictly increasing order, as those of a
/// sorted map are.
pub open spec fn keys_strictly_sorted(entries: Seq<(Seq<char>, Seq<char>)>) -> bool {
    forall|i: int, j: int|
        0 <= i < j < entries.len() ==> text_lt(#[trigger] entries[i].0, #[trigger] entries[j].0)
}

/// The quoted items, separated by `", "`.
pub open spec fn json_list_body(items: Seq<Seq<char>>) -> Seq<char>
    decreases items.len(),
{
    if items.len() == 0 {
        Seq::empty()
    } else if items.len() == 1 {
        json_quote(items[0])
    } else {
        json_list_body(items.drop_last()) + seq![',', ' '] + json_quote(items.last())
    }
}

/// A one-line JSON array of strings; `[]` when there are none.
pub open spec fn json_array(items: Seq<Seq<char>>) -> Seq<char> {
    if items.len() == 0 {
        seq!['[', ']']
    } else {
        seq!['['] + json_list_body(items) + seq![']']
    }
}

/// `n` spaces.
pub open spec fn spaces(n: nat) -> Seq<char> {
    Seq::new(n, |i: int| ' ')
}

/// One `"key": "value"` line of a JSON object, indented by `indent + 2`.
pub open spec fn json_map_entry(entry: (Seq<char>, Seq<char>), indent: nat) -> Seq<char> {
    spaces(indent + 2) + json_quote(entry.0) + seq![':', ' '] + json_quote(entry.1)
}

/// The entry lines, separated by `",\n"`.
pub open spec fn json_map_body(entries: Seq<(Seq<char>, Seq<char>)>, indent: nat) -> Seq<char>
    decreases entries.len(),
{
    if entries.len() == 0 {
        Seq::empty()
    } else if entries.len() == 1 {
        json_map_entry(entries[0], indent)
    } else {
        json_map_body(entries.drop_last(), indent) + seq![',', '\n'] + json_map_entry(
            entries.last(),
            indent,
        )
    }
}

/// A JSON object of string entries in the given order, one entry per line,
/// the closing brace indented by `indent`; `{}` when there are none.
pub open spec fn json_map(entries: Seq<(Seq<char>, Seq<char>)>, indent: nat) -> Seq<char> {
    if entries.len() == 0 {
        seq!['{', '}']
    } else {
        seq!['{', '\n'] + json_map_body(entries, indent) + seq!['\n'] + spaces(indent) + seq!['}']
    }
}

/// The body of a JSON array of one item is that item's string literal.
pub proof fn lemma_json_list_body_single(x: Seq<char>)
    ensures
        json_list_body(seq![x]) == json_quote(x),
{
}

/// Joining two non-empty runs of items: the body of the whole is the body
/// of the first run, `", "`, then the body of the second; so every item is
/// quoted and every two neighbours are separated by `", "`.
pub proof fn lemma_json_list_body_concat(xs: Seq<Seq<char>>, ys: Seq<Seq<char>>)
    requires
        xs.len() > 0,
        ys.len() > 0,
    ensures
        json_list_body(xs + ys) == json_list_body(xs) + seq![',', ' '] + json_list_body(ys),
    decreases ys.len(),
{
    let all = xs + ys;
    assert(all.drop_last() =~= xs + ys.drop_last());
    assert(all.last() == ys.last());
    if ys.len() == 1 {
        assert(ys.drop_last() =~= Seq::<Seq<char>>::empty());
        assert(xs + ys.drop_last() =~= xs);
        assert(ys =~= seq![ys[0]]);
    } else {
        lemma_json_list_body_concat(xs, ys.drop_last());
        assert(json_list_body(all) =~= json_list_body(xs) + seq![',', ' '] + json_list_body(
            ys.drop_last(),
        ) + seq![',', ' '] + json_quote(ys.last()));
        assert(json_list_body(ys) =~= json_list_body(ys.drop_last()) + seq![',', ' '] + json_quote(
            ys.last(),
        ));
        assert(json_list_body(all) =~= json_list_body(xs) + seq![',', ' '] + json_list_body(ys));
    }
}

/// The entry lines of a JSON object of one entry are that entry's line.
pub proof fn lemma_json_map_body_single(e: (Seq<char>, Seq<char>), indent: nat)
    ensures
        json_map_body(seq![e], indent) == json_map_entry(e, indent),
{
}

/// Joining two non-empty runs of entries: the lines of the whole are those
/// of the first run, `",\n"`, then those of the second.
pub proof fn lemma_json_map_body_concat(
    xs: Seq<(Seq<char>, Seq<char>)>,
    ys: Seq<(Seq<char>, Seq<char>)>,
    indent: nat,
)
    requires
        xs.len() > 0,
        ys.len() > 0,
    ensures
        json_map_body(xs + ys, indent) == json_map_body(xs, indent) + seq![',', '\n']
            + json_map_body(ys, indent),
    decreases ys.len(),
{
    let all = xs + ys;
    assert(all.drop_last() =~= xs + ys.drop_last());
    assert(all.last() == ys.last());
    if ys.len() == 1 {
        assert(xs + ys.drop_last() =~= xs);
        assert(ys =~= seq![ys[0]]);
    } else {
        lemma_json_map_body_concat(xs, ys.drop_last(), indent);
        assert(json_map_body(all, indent) =~= json_map_body(xs, indent) + seq![',', '\n']
            + json_map_body(ys, indent));
    }
}

/// A string of `n` spaces.
pub fn spaces_string(n: usize) -> (r: String)
    ensures
        r@ == spaces(n as nat),
{
    let mut r = String::new();
    let mut i: usize = 0;
    while i < n
        invariant
            i <= n,
            r@ == spaces(i as nat),
        decreases n - i,
    {
        push_char(&mut r, ' ');
        i = i + 1;
        assert(r@ =~= spaces(i as nat));
    }
    r
}

/// Appends `s` to `out`.
pub fn push_string(out: &mut String, s: &String)
    ensures
        final(out)@ == old(out)@ + s@,
{
    let v = chars_of(s.as_str());
    push_chars(out, &v);
}

/// The JSON array of the given strings on one line: `[]` when empty, else
/// `["a", "b"]`.
pub fn json_string_array(items: &[String]) -> (r: String)
    ensures
        r@ == json_array(string_views(items@)),
{
    let ghost views = string_views(items@);
    if items.len() == 0 {
        let mut out = String::new();
        push_char(&mut out, '[');
        push_char(&mut out, ']');
        assert(out@ =~= seq!['[', ']']);
        return out;
    }
    let mut out = String::new();
    push_char(&mut out, '[');
    let mut i: usize = 0;
    while i < items.len()
        invariant
            i <= items.len(),
            views == string_views(items@),
            out@ == seq!['['] + json_list_body(views.take(i as int)),
        decreases items.len() - i,
    {
        assert(views.take(i + 1).drop_last() =~= views.take(i as int));
        assert(views.take(i + 1).last() == items@[i as int]@);
        if i > 0 {
            push_char(&mut out, ',');
            push_char(&mut out, ' ');
        }
        let q = json_string(items[i].as_str());
        push_string(&mut out, &q);
        assert(out@ =~= seq!['['] + json_list_body(views.take(i + 1)));
        i = i + 1;
    }
    push_char(&mut out, ']');
    assert(views.take(items.len() as int) =~= views);
    out
}

/// The JSON object for the entries of a map, given in key order: `{}` when
/// empty, else one `"key": "value"` line per entry, indented by
/// `indent + 2`, and the closing brace indented by `indent`.
pub fn json_string_map(entries: &[(String, String)], indent: usize) -> (r: String)
    requires
        indent + 2 <= usize::MAX,
        keys_strictly_sorted(pair_views(entries@)),
    ensures
        r@ == json_map(pair_views(entries@), indent as nat),
{
    let ghost views = pair_views(entries@);
    if entries.len() == 0 {
        let mut out = String::new();
        push_char(&mut out, '{');
        push_char(&mut out, '}');
        assert(out@ =~= seq!['{', '}']);
        return out;
    }
    let pad = spaces_string(indent);
    let inner_pad = spaces_string(indent + 2);
    let mut out = String::new();
    push_char(&mut out, '{');
    push_char(&mut out, '\n');
    let mut i: usize = 0;
    while i < entries.len()
        invariant
            i <= entries.len(),
            views == pair_views(entries@),
            inner_pad@ == spaces(indent as nat + 2),
            out@ == seq!['{', '\n'] + json_map_body(views.take(i as int), indent as nat),
        decreases entries.len() - i,
    {
        assert(views.take(i + 1).drop_last() =~= views.take(i as int));
        assert(views.take(i + 1).last() == (entries@[i as int].0@, entries@[i as int].1@));
        if i > 0 {
            push_char(&mut out, ',');
            push_char(&mut out, '\n');
        }
        push_string(&mut out, &inner_pad);
        let k = json_string(entries[i].0.as_str());
        push_string(&mut out, &k);
        push_char(&mut out, ':');
        push_char(&mut out, ' ');
        let v = json_string(entries[i].1.as_str());
        push_string(&mut out, &v);
        assert(out@ =~= seq!['{', '\n'] + json_map_body(views.take(i + 1), indent as nat));
        i = i + 1;
    }
    push_char(&mut out, '\n');
    push_string(&mut out, &pad);
    push_char(&mut out, '}');
    assert(views.take(entries.len() as int) =~= views);
    out
}

} // verus!
