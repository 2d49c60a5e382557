//! HTML escaping: exactly five characters are rewritten, everything else is
//! copied through. The inverse rewriting recovers the original text.

use vstd::prelude::*;

verus! {

/// How one character is escaped: the five sentinel characters become
/// entities, every other character stands for itself.
pub open spec fn escape_char(c: char) -> Seq<char> {
    if c == '<' {
        seq!['&', 'l', 't', ';']
    } else if c == '>' {
        seq!['&', 'g', 't', ';']
    } else if c == '&' {
        seq!['&', 'a', 'm', 'p', ';']
    } else if c == '"' {
        seq!['&', 'q', 'u', 'o', 't', ';']
    } else if c == '\'' {
        seq!['&', '#', '3', '9', ';']
    } else {
        seq![c]
    }
}

/// The HTML-escaped form of `s`.
pub open spec fn escape_html(s: Seq<char>) -> Seq<char>
    decreases s.len(),
{
    if s.len() == 0 {
        Seq::empty()
    } else {
        escape_char(s[0]) + escape_html(s.drop_first())
    }
}

/// Escaping distributes over concatenation.
pub proof fn lemma_escape_app(a: Seq<char>, b: Seq<char>)
    ensures
        escape_html(a + b) == escape_html(a) + escape_html(b),
    decreases a.len(),
{
    if a.len() == 0 {
        assert(a + b =~= b);
        assert(escape_html(a) + escape_html(b) =~= escape_html(b));
    } else {
        assert((a + b).drop_first() =~= a.drop_first() + b);
        assert((a + b)[0] == a[0]);
        lemma_escape_app(a.drop_first(), b);
        assert(escape_char(a[0]) + (escape_html(a.drop_first()) + escape_html(b)) =~= (escape_char(
            a[0],
        ) + escape_html(a.drop_first())) + escape_html(b));
    }
}

/// Whether `p` starts `s`.
pub open spec fn starts_with(s: Seq<char>, p: Seq<char>) -> bool {
    s.len() >= p.len() && s.take(p.len() as int) == p
}

/// The inverse rewriting: each of the five entities becomes its character,
/// scanning left to right; everything else is copied through.
pub open spec fn unescape_html(s: Seq<char>) -> Seq<char>
    decreases s.len(),
{
    if s.len() == 0 {
        Seq::empty()
    } else if starts_with(s, seq!['&', 'l', 't', ';']) {
        seq!['<'] + unescape_html(s.skip(4))
    } else if starts_with(s, seq!['&', 'g', 't', ';']) {
        seq!['>'] + unescape_html(s.skip(4))
    } else if starts_with(s, seq!['&', 'a', 'm', 'p', ';']) {
        seq!['&'] + unescape_html(s.skip(5))
    } else if starts_with(s, seq!['&', 'q', 'u', 'o', 't', ';']) {
        seq!['"'] + unescape_html(s.skip(6))
    } else if starts_with(s, seq!['&', '#', '3', '9', ';']) {
        seq!['\''] + unescape_html(s.skip(5))
    } else {
        seq![s[0]] + unescape_html(s.drop_first())
    }
}

/// Unescaping recovers the original text from its escaped form, for every
/// text, whether or not it holds sentinel characters.
pub proof fn lemma_escape_round_trip(s: Seq<char>)
    ensures
        unescape_html(escape_html(s)) == s,
    decreases s.len(),
{
    if s.len() == 0 {
    } else {
        let c = s[0];
        let rest = escape_html(s.drop_first());
        let e = escape_html(s);
        assert(e == escape_char(c) + rest);
        lemma_escape_round_trip(s.drop_first());
        if c == '<' || c == '>' || c == '&' || c == '"' || c == '\'' {
            let ent = escape_char(c);
            assert forall|k: int| 0 <= k < ent.len() implies e[k] == ent[k] by {}
            assert(e.take(ent.len() as int) =~= ent);
            assert(e.skip(ent.len() as int) =~= rest);
            if c == '<' {
                assert(starts_with(e, seq!['&', 'l', 't', ';']));
                assert(seq!['<'] + unescape_html(rest) =~= s.take(1) + s.drop_first());
            } else if c == '>' {
                assert(!starts_with(e, seq!['&', 'l', 't', ';'])) by {
                    if starts_with(e, seq!['&', 'l', 't', ';']) {
                        assert(e.take(4)[1] == 'l');
                    }
                }
                assert(starts_with(e, seq!['&', 'g', 't', ';']));
                assert(seq!['>'] + unescape_html(rest) =~= s.take(1) + s.drop_first());
            } else if c == '&' {
                assert(!starts_with(e, seq!['&', 'l', 't', ';'])) by {
                    if starts_with(e, seq!['&', 'l', 't', ';']) {
                        assert(e.take(4)[1] == 'l');
                    }
                }
                assert(!starts_with(e, seq!['&', 'g', 't', ';'])) by {
                    if starts_with(e, seq!['&', 'g', 't', ';']) {
                        assert(e.take(4)[1] == 'g');
                    }
                }
                assert(starts_with(e, seq!['&', 'a', 'm', 'p', ';']));
                assert(seq!['&'] + unescape_html(rest) =~= s.take(1) + s.drop_first());
            } else if c == '"' {
                assert(!starts_with(e, seq!['&', 'l', 't', ';'])) by {
                    if starts_with(e, seq!['&', 'l', 't', ';']) {
                        assert(e.take(4)[1] == 'l');
                    }
                }
                assert(!starts_with(e, seq!['&', 'g', 't', ';'])) by {
                    if starts_with(e, seq!['&', 'g', 't', ';']) {
                        assert(e.take(4)[1] == 'g');
                    }
                }
                assert(!starts_with(e, seq!['&', 'a', 'm', 'p', ';'])) by {
                    if starts_with(e, seq!['&', 'a', 'm', 'p', ';']) {
                        assert(e.take(5)[1] == 'a');
                    }
                }
                assert(starts_with(e, seq!['&', 'q', 'u', 'o', 't', ';']));
                assert(seq!['"'] + unescape_html(rest) =~= s.take(1) + s.drop_first());
            } else {
                assert(!starts_with(e, seq!['&', 'l', 't', ';'])) by {
                    if starts_with(e, seq!['&', 'l', 't', ';']) {
                        assert(e.take(4)[1] == 'l');
                    }
                }
                assert(!starts_with(e, seq!['&', 'g', 't', ';'])) by {
                    if starts_with(e, seq!['&', 'g', 't', ';']) {
                        assert(e.take(4)[1] == 'g');
                    }
                }
                assert(!starts_with(e, seq!['&', 'a', 'm', 'p', ';'])) by {
                    if starts_with(e, seq!['&', 'a', 'm', 'p', ';']) {
                        assert(e.take(5)[1] == 'a');
                    }
                }
                assert(!starts_with(e, seq!['&', 'q', 'u', 'o', 't', ';'])) by {
                    if starts_with(e, seq!['&', 'q', 'u', 'o', 't', ';']) {
                        assert(e.take(6)[1] == 'q');
                    }
                }
                assert(starts_with(e, seq!['&', '#', '3', '9', ';']));
                assert(seq!['\''] + unescape_html(rest) =~= s.take(1) + s.drop_first());
            }
            assert(s.take(1) + s.drop_first() =~= s);
        } else {
            assert(e[0] == c);
            assert(e.len() >= 1);
            assert(!starts_with(e, seq!['&', 'l', 't', ';'])) by {
                if starts_with(e, seq!['&', 'l', 't', ';']) {
                    assert(e.take(4)[0] == '&');
                }
            }
            assert(!starts_with(e, seq!['&', 'g', 't', ';'])) by {
                if starts_with(e, seq!['&', 'g', 't', ';']) {
                    assert(e.take(4)[0] == '&');
                }
            }
            assert(!starts_with(e, seq!['&', 'a', 'm', 'p', ';'])) by {
                if starts_with(e, seq!['&', 'a', 'm', 'p', ';']) {
                    assert(e.take(5)[0] == '&');
                }
            }
            assert(!starts_with(e, seq!['&', 'q', 'u', 'o', 't', ';'])) by {
                if starts_with(e, seq!['&', 'q', 'u', 'o', 't', ';']) {
                    assert(e.take(6)[0] == '&');
                }
            }
            assert(!starts_with(e, seq!['&', '#', '3', '9', ';'])) by {
                if starts_with(e, seq!['&', '#', '3', '9', ';']) {
                    assert(e.take(5)[0] == '&');
                }
            }
            assert(e.drop_first() =~= rest);
            assert(seq![c] + unescape_html(rest) =~= s.take(1) + s.drop_first());
            assert(s.take(1) + s.drop_first() =~= s);
        }
    }
}

fn push_escaped_char(out: &mut Vec<char>, c: char)
    ensures
        final(out)@ == old(out)@ + escape_char(c),
{
    if c == '<' {
        out.push('&');
        out.push('l');
        out.push('t');
        out.push(';');
        assert(final(out)@ =~= old(out)@ + escape_char(c));
    } else if c == '>' {
        out.push('&');
        out.push('g');
        out.push('t');
        out.push(';');
        assert(final(out)@ =~= old(out)@ + escape_char(c));
    } else if c == '&' {
        out.push('&');
        out.push('a');
        out.push('m');
        out.push('p');
        out.push(';');
        assert(final(out)@ =~= old(out)@ + escape_char(c));
    } else if c == '"' {
        out.push('&');
        out.push('q');
        out.push('u');
        out.push('o');
        out.push('t');
        out.push(';');
        assert(final(out)@ =~= old(out)@ + escape_char(c));
    } else if c == '\'' {
        out.push('&');
        out.push('#');
        out.push('3');
        out.push('9');
        out.push(';');
        assert(final(out)@ =~= old(out)@ + escape_char(c));
    } else {
        out.push(c);
        assert(final(out)@ =~= old(out)@ + escape_char(c));
    }
}

/// Appends the HTML-escaped form of `s` to `out`.
pub fn escape_append(out: &mut Vec<char>, s: &Vec<char>)
    ensures
        final(out)@ == old(out)@ + escape_html(s@),
{
    let mut i: usize = 0;
    proof {
        assert(s@.take(0) =~= Seq::<char>::empty());
        assert(old(out)@ + escape_html(s@.take(0)) =~= old(out)@);
    }
    while i < s.len()
        invariant
            i <= s@.len(),
            out@ == old(out)@ + escape_html(s@.take(i as int)),
        decreases s@.len() - i,
    {
        push_escaped_char(out, s[i]);
        proof {
            assert(s@.take(i + 1) =~= s@.take(i as int) + seq![s@[i as int]]);
            lemma_escape_app(s@.take(i as int), seq![s@[i as int]]);
            assert(escape_html(seq![s@[i as int]]) =~= escape_char(s@[i as int])) by {
                assert(seq![s@[i as int]].drop_first() =~= Seq::<char>::empty());
                assert(escape_html(Seq::<char>::empty()) =~= Seq::<char>::empty());
                assert(escape_char(s@[i as int]) + Seq::<char>::empty() =~= escape_char(
                    s@[i as int],
                ));
            }
        }
        i = i + 1;
    }
    proof {
        assert(s@.take(s@.len() as int) =~= s@);
    }
}

/// The HTML-escaped form of `s`, as a fresh buffer.
pub fn escape_chars(s: &Vec<char>) -> (r: Vec<char>)
    ensures
        r@ == escape_html(s@),
{
    let mut out: Vec<char> = Vec::new();
    escape_append(&mut out, s);
    out
}

fn entity_at(s: &Vec<char>, i: usize, ent: &[char; 6], n: usize) -> (r: bool)
    requires
        i <= s@.len(),
        n <= 6,
    ensures
        r == starts_with(s@.skip(i as int), ent@.take(n as int)),
{
    if s.len() - i < n {
        assert(!starts_with(s@.skip(i as int), ent@.take(n as int)));
        return false;
    }
    let slen = s.len();
    let mut k: usize = 0;
    while k < n
        invariant
            k <= n,
            n <= 6,
            slen == s@.len(),
            i + n <= slen,
            s@.skip(i as int).take(k as int) =~= ent@.take(k as int),
        decreases n - k,
    {
        if s[i + k] != ent[k] {
            proof {
                assert(s@.skip(i as int)[k as int] == s@[i + k]);
                if starts_with(s@.skip(i as int), ent@.take(n as int)) {
                    assert(s@.skip(i as int).take(n as int)[k as int] == ent@.take(n as int)[
                        k as int]);
                }
            }
            return false;
        }
        proof {
            assert(s@.skip(i as int)[k as int] == s@[i + k]);
            assert(s@.skip(i as int).take(k + 1) =~= ent@.take(k + 1));
        }
        k = k + 1;
    }
    proof {
        assert(starts_with(s@.skip(i as int), ent@.take(n as int)));
    }
    true
}

/// The unescaped form of `s`, reversing [`escape_html`].
pub fn unescape_chars(s: &Vec<char>) -> (r: Vec<char>)
    ensures
        r@ == unescape_html(s@),
{
    let lt: [char; 6] = ['&', 'l', 't', ';', ';', ';'];
    let gt: [char; 6] = ['&', 'g', 't', ';', ';', ';'];
    let amp: [char; 6] = ['&', 'a', 'm', 'p', ';', ';'];
    let quot: [char; 6] = ['&', 'q', 'u', 'o', 't', ';'];
    let apos: [char; 6] = ['&', '#', '3', '9', ';', ';'];
    proof {
        assert(lt@.take(4) =~= seq!['&', 'l', 't', ';']);
        assert(gt@.take(4) =~= seq!['&', 'g', 't', ';']);
        assert(amp@.take(5) =~= seq!['&', 'a', 'm', 'p', ';']);
        assert(quot@.take(6) =~= seq!['&', 'q', 'u', 'o', 't', ';']);
        assert(apos@.take(5) =~= seq!['&', '#', '3', '9', ';']);
    }
    let mut out: Vec<char> = Vec::new();
    let mut i: usize = 0;
    proof {
        assert(s@.skip(0) =~= s@);
        assert(out@ + unescape_html(s@) =~= unescape_html(s@));
    }
    while i < s.len()
        invariant
            i <= s@.len(),
            out@ + unescape_html(s@.skip(i as int)) == unescape_html(s@),
            lt@.take(4) == seq!['&', 'l', 't', ';'],
            gt@.take(4) == seq!['&', 'g', 't', ';'],
            amp@.take(5) == seq!['&', 'a', 'm', 'p', ';'],
            quot@.take(6) == seq!['&', 'q', 'u', 'o', 't', ';'],
            apos@.take(5) == seq!['&', '#', '3', '9', ';'],
        decreases s@.len() - i,
    {
        let ghost tail = s@.skip(i as int);
        proof {
            assert(tail.len() > 0);
            assert(tail[0] == s@[i as int]);
        }
        if entity_at(s, i, &lt, 4) {
            out.push('<');
            proof {
                assert(tail.skip(4) =~= s@.skip(i + 4));
                assert(unescape_html(tail) == seq!['<'] + unescape_html(s@.skip(i + 4)));
            }
            i = i + 4;
        } else if entity_at(s, i, &gt, 4) {
            out.push('>');
            proof {
                assert(tail.skip(4) =~= s@.skip(i + 4));
                assert(unescape_html(tail) == seq!['>'] + unescape_html(s@.skip(i + 4)));
            }
            i = i + 4;
        } else if entity_at(s, i, &amp, 5) {
            out.push('&');
            proof {
                assert(tail.skip(5) =~= s@.skip(i + 5));
                assert(unescape_html(tail) == seq!['&'] + unescape_html(s@.skip(i + 5)));
            }
            i = i + 5;
        } else if entity_at(s, i, &quot, 6) {
            out.push('"');
            proof {
                assert(tail.skip(6) =~= s@.skip(i + 6));
                assert(unescape_html(tail) == seq!['"'] + unescape_html(s@.skip(i + 6)));
            }
            i = i + 6;
        } else if entity_at(s, i, &apos, 5) {
            out.push('\'');
            proof {
                assert(tail.skip(5) =~= s@.skip(i + 5));
                assert(unescape_html(tail) == seq!['\''] + unescape_html(s@.skip(i + 5)));
            }
            i = i + 5;
        } else {
            out.push(s[i]);
            proof {
                assert(tail.drop_first() =~= s@.skip(i + 1));
                assert(unescape_html(tail) == seq![tail[0]] + unescape_html(s@.skip(i + 1)));
            }
            i = i + 1;
        }
        proof {
            assert(out@ + unescape_html(s@.skip(i as int)) =~= unescape_html(s@));
        }
    }
    proof {
        assert(s@.skip(s@.len() as int) =~= Seq::<char>::empty());
        assert(out@ =~= unescape_html(s@));
    }
    out
}

} // verus!
