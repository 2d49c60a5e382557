//! Structured serialization of a value: a deterministic JSON text, compact
//! or pretty-printed with two-space indentation. Mapping entries are emitted
//! in stored order, which for a well-formed value is sorted key order.

use vstd::prelude::*;
use crate::data::Data;
use crate::util::push_all;

verus! {

/// The character for a hexadecimal digit, lower case.
pub open spec fn hex_digit(d: nat) -> char {
    if d == 0 {
        '0'
    } else if d == 1 {
        '1'
    } else if d == 2 {
        '2'
    } else if d == 3 {
        '3'
    } else if d == 4 {
        '4'
    } else if d == 5 {
        '5'
    } else if d == 6 {
        '6'
    } else if d == 7 {
        '7'
    } else if d == 8 {
        '8'
    } else if d == 9 {
        '9'
    } else if d == 10 {
        'a'
    } else if d == 11 {
        'b'
    } else if d == 12 {
        'c'
    } else if d == 13 {
        'd'
    } else if d == 14 {
        'e'
    } else {
        'f'
    }
}

/// How one character is escaped inside a JSON string literal.
pub open spec fn jescape_char(c: char) -> Seq<char> {
    if c == '"' {
        seq!['\\', '"']
    } else if c == '\\' {
        seq!['\\', '\\']
    } else if c == '\n' {
        seq!['\\', 'n']
    } else if c == '\r' {
        seq!['\\', 'r']
    } else if c == '\t' {
        seq!['\\', 't']
    } else if c == '\u{8}' {
        seq!['\\', 'b']
    } else if c == '\u{c}' {
        seq!['\\', 'f']
    } else if (c as u32) < 32 {
        seq!['\\', 'u', '0', '0', hex_digit((c as u32 / 16) as nat), hex_digit(
            (c as u32 % 16) as nat,
        )]
    } else {
        seq![c]
    }
}

/// The body of a JSON string literal for `s`.
pub open spec fn jescape(s: Seq<char>) -> Seq<char>
    decreases s.len(),
{
    if s.len() == 0 {
        Seq::empty()
    } else {
        jescape_char(s[0]) + jescape(s.drop_first())
    }
}

pub proof fn lemma_jescape_app(a: Seq<char>, b: Seq<char>)
    ensures
        jescape(a + b) == jescape(a) + jescape(b),
    decreases a.len(),
{
    if a.len() == 0 {
        assert(a + b =~= b);
        assert(jescape(a) + jescape(b) =~= jescape(b));
    } else {
        assert((a + b).drop_first() =~= a.drop_first() + b);
        assert((a + b)[0] == a[0]);
        lemma_jescape_app(a.drop_first(), b);
        assert(jescape_char(a[0]) + (jescape(a.drop_first()) + jescape(b)) =~= (jescape_char(a[0])
            + jescape(a.drop_first())) + jescape(b));
    }
}

/// A complete JSON string literal for `s`.
pub open spec fn quoted(s: Seq<char>) -> Seq<char> {
    seq!['"'] + jescape(s) + seq!['"']
}

/// Two spaces per pretty-printing level.
pub open spec fn sp_indent(depth: nat) -> Seq<char>
    decreases depth,
{
    if depth == 0 {
        Seq::empty()
    } else {
        sp_indent((depth - 1) as nat) + seq![' ', ' ']
    }
}

/// The textual form of a boolean.
pub open spec fn bool_chars(b: bool) -> Seq<char> {
    if b {
        seq!['t', 'r', 'u', 'e']
    } else {
        seq!['f', 'a', 'l', 's', 'e']
    }
}

/// The JSON null literal, also standing for a producer, which has no
/// representable value outside render time.
pub open spec fn null_chars() -> Seq<char> {
    seq!['n', 'u', 'l', 'l']
}

/// Leading indentation of one emitted element, pretty mode only.
pub open spec fn jpre(pretty: bool, depth: nat) -> Seq<char> {
    if pretty {
        sp_indent(depth)
    } else {
        Seq::empty()
    }
}

/// Separator between emitted elements.
pub open spec fn jsep(pretty: bool) -> Seq<char> {
    if pretty {
        seq![',', '\n']
    } else {
        seq![',']
    }
}

/// Separator between a key and its value.
pub open spec fn jcolon(pretty: bool) -> Seq<char> {
    if pretty {
        seq![':', ' ']
    } else {
        seq![':']
    }
}

/// The serialization of a value at a pretty-printing depth.
pub open spec fn json_chars(d: Data, pretty: bool, depth: nat) -> Seq<char>
    decreases d,
{
    match d {
        Data::Null => null_chars(),
        Data::Fun(_) => null_chars(),
        Data::Bool(b) => bool_chars(b),
        Data::Str(s) => quoted(s@),
        Data::List(items) => {
            if items@.len() == 0 {
                seq!['[', ']']
            } else if pretty {
                seq!['[', '\n'] + json_items(items@, true, depth + 1) + seq!['\n'] + sp_indent(
                    depth,
                ) + seq![']']
            } else {
                seq!['['] + json_items(items@, false, depth + 1) + seq![']']
            }
        },
        Data::Obj(entries) => {
            if entries@.len() == 0 {
                seq!['{', '}']
            } else if pretty {
                seq!['{', '\n'] + json_entries(entries@, true, depth + 1) + seq!['\n'] + sp_indent(
                    depth,
                ) + seq!['}']
            } else {
                seq!['{'] + json_entries(entries@, false, depth + 1) + seq!['}']
            }
        },
    }
}

/// The comma-joined serializations of list items.
pub open spec fn json_items(items: Seq<Data>, pretty: bool, depth: nat) -> Seq<char>
    decreases items,
{
    if items.len() == 0 {
        Seq::empty()
    } else if items.len() == 1 {
        jpre(pretty, depth) + json_chars(items[0], pretty, depth)
    } else {
        json_items(items.drop_last(), pretty, depth) + jsep(pretty) + jpre(pretty, depth)
            + json_chars(items.last(), pretty, depth)
    }
}

/// One serialized mapping entry.
pub open spec fn json_entry(e: (String, Data), pretty: bool, depth: nat) -> Seq<char>
    decreases e,
{
    jpre(pretty, depth) + quoted(e.0@) + jcolon(pretty) + json_chars(e.1, pretty, depth)
}

/// The comma-joined serializations of mapping entries, in stored order.
pub open spec fn json_entries(es: Seq<(String, Data)>, pretty: bool, depth: nat) -> Seq<char>
    decreases es,
{
    if es.len() == 0 {
        Seq::empty()
    } else if es.len() == 1 {
        json_entry(es[0], pretty, depth)
    } else {
        json_entries(es.drop_last(), pretty, depth) + jsep(pretty) + json_entry(
            es.last(),
            pretty,
            depth,
        )
    }
}

fn push_hex_digit(out: &mut Vec<char>, d: u32)
    requires
        d < 16,
    ensures
        final(out)@ == old(out)@ + seq![hex_digit(d as nat)],
{
    let c: char = if d == 0 {
        '0'
    } else if d == 1 {
        '1'
    } else if d == 2 {
        '2'
    } else if d == 3 {
        '3'
    } else if d == 4 {
        '4'
    } else if d == 5 {
        '5'
    } else if d == 6 {
        '6'
    } else if d == 7 {
        '7'
    } else if d == 8 {
        '8'
    } else if d == 9 {
        '9'
    } else if d == 10 {
        'a'
    } else if d == 11 {
        'b'
    } else if d == 12 {
        'c'
    } else if d == 13 {
        'd'
    } else if d == 14 {
        'e'
    } else {
        'f'
    };
    out.push(c);
    assert(final(out)@ =~= old(out)@ + seq![hex_digit(d as nat)]);
}

fn push_jescaped_char(out: &mut Vec<char>, c: char)
    ensures
        final(out)@ == old(out)@ + jescape_char(c),
{
    if c == '"' {
        out.push('\\');
        out.push('"');
        assert(final(out)@ =~= old(out)@ + jescape_char(c));
    } else if c == '\\' {
        out.push('\\');
        out.push('\\');
        assert(final(out)@ =~= old(out)@ + jescape_char(c));
    } else if c == '\n' {
        out.push('\\');
        out.push('n');
        assert(final(out)@ =~= old(out)@ + jescape_char(c));
    } else if c == '\r' {
        out.push('\\');
        out.push('r');
        assert(final(out)@ =~= old(out)@ + jescape_char(c));
    } else if c == '\t' {
        out.push('\\');
        out.push('t');
        assert(final(out)@ =~= old(out)@ + jescape_char(c));
    } else if c == '\u{8}' {
        out.push('\\');
        out.push('b');
        assert(final(out)@ =~= old(out)@ + jescape_char(c));
    } else if c == '\u{c}' {
        out.push('\\');
        out.push('f');
        assert(final(out)@ =~= old(out)@ + jescape_char(c));
    } else if (c as u32) < 32 {
        out.push('\\');
        out.push('u');
        out.push('0');
        out.push('0');
        push_hex_digit(out, (c as u32) / 16);
        push_hex_digit(out, (c as u32) % 16);
        assert(final(out)@ =~= old(out)@ + jescape_char(c));
    } else {
        out.push(c);
        assert(final(out)@ =~= old(out)@ + jescape_char(c));
    }
}

/// Appends the JSON string-literal body for `s` to `out`.
fn jescape_append(out: &mut Vec<char>, s: &str)
    ensures
        final(out)@ == old(out)@ + jescape(s@),
{
    let n = s.unicode_len();
    let mut i: usize = 0;
    proof {
        assert(s@.take(0) =~= Seq::<char>::empty());
        assert(old(out)@ + jescape(s@.take(0)) =~= old(out)@);
    }
    while i < n
        invariant
            n == s@.len(),
            i <= n,
            out@ == old(out)@ + jescape(s@.take(i as int)),
        decreases n - i,
    {
        push_jescaped_char(out, s.get_char(i));
        proof {
            assert(s@.take(i + 1) =~= s@.take(i as int) + seq![s@[i as int]]);
            lemma_jescape_app(s@.take(i as int), seq![s@[i as int]]);
            assert(jescape(seq![s@[i as int]]) =~= jescape_char(s@[i as int])) by {
                assert(seq![s@[i as int]].drop_first() =~= Seq::<char>::empty());
                assert(jescape(Seq::<char>::empty()) =~= Seq::<char>::empty());
                assert(jescape_char(s@[i as int]) + Seq::<char>::empty() =~= jescape_char(
                    s@[i as int],
                ));
            }
        }
        i = i + 1;
    }
    proof {
        assert(s@.take(s@.len() as int) =~= s@);
    }
}

/// Appends the textual form of a boolean to `out`.
pub fn push_bool(out: &mut Vec<char>, b: bool)
    ensures
        final(out)@ == old(out)@ + bool_chars(b),
{
    if b {
        out.push('t');
        out.push('r');
        out.push('u');
        out.push('e');
        assert(final(out)@ =~= old(out)@ + bool_chars(b));
    } else {
        out.push('f');
        out.push('a');
        out.push('l');
        out.push('s');
        out.push('e');
        assert(final(out)@ =~= old(out)@ + bool_chars(b));
    }
}

fn push_null(out: &mut Vec<char>)
    ensures
        final(out)@ == old(out)@ + null_chars(),
{
    out.push('n');
    out.push('u');
    out.push('l');
    out.push('l');
    assert(final(out)@ =~= old(out)@ + null_chars());
}

/// Appends the serialization of `d` to `out`; `ind` is the indentation for
/// the current depth.
#[verifier::rlimit(60)]
pub fn json_append(out: &mut Vec<char>, d: &Data, pretty: bool, ind: &Vec<char>, depth: Ghost<nat>)
    requires
        ind@ == sp_indent(depth@),
    ensures
        final(out)@ == old(out)@ + json_chars(*d, pretty, depth@),
    decreases *d,
{
    match d {
        Data::Null => push_null(out),
        Data::Fun(_) => push_null(out),
        Data::Bool(b) => push_bool(out, *b),
        Data::Str(s) => {
            out.push('"');
            jescape_append(out, s.as_str());
            out.push('"');
            assert(final(out)@ =~= old(out)@ + quoted(s@));
        },
        Data::List(items) => {
            if items.len() == 0 {
                out.push('[');
                out.push(']');
                assert(final(out)@ =~= old(out)@ + json_chars(*d, pretty, depth@));
            } else {
                let ghost d2 = depth@ + 1;
                let mut ind2: Vec<char> = Vec::new();
                push_all(&mut ind2, ind);
                ind2.push(' ');
                ind2.push(' ');
                proof {
                    assert(ind2@ =~= sp_indent(d2));
                }
                out.push('[');
                if pretty {
                    out.push('\n');
                }
                let ghost head: Seq<char> = if pretty {
                    old(out)@ + seq!['[', '\n']
                } else {
                    old(out)@ + seq!['[']
                };
                proof {
                    assert(out@ =~= head);
                    assert(out@ + json_items(items@.take(0), pretty, d2) =~= head);
                }
                let mut j: usize = 0;
                while j < items.len()
                    invariant
                        j <= items@.len(),
                        ind2@ == sp_indent(d2),
                        decreases_to!(*d => items@),
                        out@ == head + json_items(items@.take(j as int), pretty, d2),
                    decreases items@.len() - j,
                {
                    let ghost before = out@;
                    if j > 0 {
                        out.push(',');
                        if pretty {
                            out.push('\n');
                        }
                    }
                    if pretty {
                        push_all(out, &ind2);
                    }
                    proof {
                        assert(decreases_to!(items@ => items@[j as int]));
                    }
                    json_append(out, &items[j], pretty, &ind2, Ghost(d2));
                    proof {
                        assert(items@.take(j + 1).drop_last() =~= items@.take(j as int));
                        assert(items@.take(j + 1).last() == items@[j as int]);
                        if j == 0 {
                            assert(out@ =~= head + json_items(items@.take(1), pretty, d2));
                        } else {
                            assert(out@ =~= head + json_items(items@.take(j + 1), pretty, d2));
                        }
                    }
                    j = j + 1;
                }
                proof {
                    assert(items@.take(items@.len() as int) =~= items@);
                }
                if pretty {
                    out.push('\n');
                    push_all(out, ind);
                }
                out.push(']');
                assert(final(out)@ =~= old(out)@ + json_chars(*d, pretty, depth@));
            }
        },
        Data::Obj(entries) => {
            if entries.len() == 0 {
                out.push('{');
                out.push('}');
                assert(final(out)@ =~= old(out)@ + json_chars(*d, pretty, depth@));
            } else {
                let ghost d2 = depth@ + 1;
                let mut ind2: Vec<char> = Vec::new();
                push_all(&mut ind2, ind);
                ind2.push(' ');
                ind2.push(' ');
                proof {
                    assert(ind2@ =~= sp_indent(d2));
                }
                out.push('{');
                if pretty {
                    out.push('\n');
                }
                let ghost head: Seq<char> = if pretty {
                    old(out)@ + seq!['{', '\n']
                } else {
                    old(out)@ + seq!['{']
                };
                proof {
                    assert(out@ =~= head);
                    assert(out@ + json_entries(entries@.take(0), pretty, d2) =~= head);
                }
                let mut j: usize = 0;
                while j < entries.len()
                    invariant
                        j <= entries@.len(),
                        ind2@ == sp_indent(d2),
                        decreases_to!(*d => entries@),
                        out@ == head + json_entries(entries@.take(j as int), pretty, d2),
                    decreases entries@.len() - j,
                {
                    let ghost before = out@;
                    if j > 0 {
                        out.push(',');
                        if pretty {
                            out.push('\n');
                        }
                    }
                    if pretty {
                        push_all(out, &ind2);
                    }
                    out.push('"');
                    jescape_append(out, entries[j].0.as_str());
                    out.push('"');
                    out.push(':');
                    if pretty {
                        out.push(' ');
                    }
                    proof {
                        assert(decreases_to!(entries@ => entries@[j as int]));
                    }
                    json_append(out, &entries[j].1, pretty, &ind2, Ghost(d2));
                    proof {
                        assert(entries@.take(j + 1).drop_last() =~= entries@.take(j as int));
                        assert(entries@.take(j + 1).last() == entries@[j as int]);
                        assert(out@ =~= before + (if j > 0 {
                            jsep(pretty)
                        } else {
                            Seq::<char>::empty()
                        }) + json_entry(entries@[j as int], pretty, d2));
                        if j == 0 {
                            assert(out@ =~= head + json_entries(entries@.take(1), pretty, d2));
                        } else {
                            assert(out@ =~= head + json_entries(entries@.take(j + 1), pretty, d2));
                        }
                    }
                    j = j + 1;
                }
                proof {
                    assert(entries@.take(entries@.len() as int) =~= entries@);
                }
                if pretty {
                    out.push('\n');
                    push_all(out, ind);
                }
                out.push('}');
                assert(final(out)@ =~= old(out)@ + json_chars(*d, pretty, depth@));
            }
        },
    }
}

} // verus!
