//! The compiler: template source in, token tree out.
//!
//! It recognises escaped tags, unescaped tags (`&` or triple braces),
//! sections and inverted sections, the whole-context section, partials,
//! comments, anchors, and structured-serialization tags, under a caller
//! chosen delimiter pair. Section open and close tags, partials and
//! comments that stand alone on a line are trimmed from the surrounding
//! text, and a standalone partial keeps its leading whitespace as the
//! indentation for its expansion. A delimiter-change tag is not accepted.
//!
//! Its promise at this interface: compilation never leaks the
//! incomplete-section sentinel into an accepted token tree.

use vstd::prelude::*;
use crate::token::{Token, tok_complete, toks_complete};
use crate::util::{str_chars, chars_to_string};
use crate::data::{key_cmp, KeyOrder};
use crate::Error;

verus! {

enum TagKind {
    Plain,
    Unesc,
    SecOpen,
    InvOpen,
    SecClose,
    PartialTag,
    Comment,
    JsonTag,
    JsonPretty,
    AtTag,
}

struct RawTag {
    kind: TagKind,
    name: Vec<char>,
    tag_start: usize,
    tag_end: usize,
    indent: Vec<char>,
}

struct OpenFrame {
    path: Vec<String>,
    inverted: bool,
    tokens: Vec<Token>,
    content_start: usize,
}

/// Whether `pat` occurs in `src` at position `i`.
fn match_at(src: &Vec<char>, i: usize, pat: &Vec<char>) -> (r: bool)
    ensures
        r ==> i + pat@.len() <= src@.len(),
{
    let n = src.len();
    let m = pat.len();
    if i > n || n - i < m {
        return false;
    }
    let mut k: usize = 0;
    while k < m
        invariant
            k <= m,
            m == pat@.len(),
            n == src@.len(),
            i + m <= n,
        decreases m - k,
    {
        if src[i + k] != pat[k] {
            return false;
        }
        k = k + 1;
    }
    true
}

/// The characters of `src[a..b]`, when the bounds are ordered and in range.
fn slice_chars(src: &Vec<char>, a: usize, b: usize) -> (r: Vec<char>)
    ensures
        a <= b <= src@.len() ==> r@ == src@.subrange(a as int, b as int),
{
    let mut v: Vec<char> = Vec::new();
    let mut k = a;
    while k < b && k < src.len()
        invariant
            a <= k,
            k <= src@.len() || k == a,
            a <= b <= src@.len() ==> (k <= b && v@ == src@.subrange(a as int, k as int)),
        decreases src@.len() - k + if b >= k {
            b - k
        } else {
            0
        },
    {
        v.push(src[k]);
        proof {
            if a <= b && b <= src@.len() {
                assert(src@.subrange(a as int, k as int) + seq![src@[k as int]] =~= src@.subrange(
                    a as int,
                    k + 1,
                ));
            }
        }
        k = k + 1;
    }
    proof {
        if a <= b && b <= src@.len() {
            assert(k == b);
        }
    }
    v
}

/// Position of the next occurrence of `ct` at or after `from`.
fn find_close(src: &Vec<char>, from: usize, ct: &Vec<char>) -> (r: Option<usize>)
    ensures
        r matches Some(k) ==> from <= k && k + ct@.len() <= src@.len(),
{
    let n = src.len();
    if from > n {
        return None;
    }
    let mut k = from;
    while k < n
        invariant
            from <= k,
            k <= n,
            n == src@.len(),
        decreases n - k,
    {
        if match_at(src, k, ct) {
            return Some(k);
        }
        k = k + 1;
    }
    None
}

/// Position of the next `}` directly followed by `ct`, at or after `from`.
fn find_close_triple(src: &Vec<char>, from: usize, ct: &Vec<char>) -> (r: Option<usize>)
    ensures
        r matches Some(k) ==> from <= k && k + 1 + ct@.len() <= src@.len(),
{
    let n = src.len();
    if from > n {
        return None;
    }
    let mut k = from;
    while k < n
        invariant
            from <= k,
            k <= n,
            n == src@.len(),
        decreases n - k,
    {
        if src[k] == '}' && match_at(src, k + 1, ct) {
            return Some(k);
        }
        k = k + 1;
    }
    None
}

fn is_inline_ws(c: char) -> bool {
    c == ' ' || c == '\t'
}

fn is_ws(c: char) -> bool {
    c == ' ' || c == '\t' || c == '\r' || c == '\n'
}

/// Whether two strings hold the same characters.
fn str_eq(a: &str, b: &str) -> (r: bool)
    ensures
        r == (a@ == b@),
{
    matches!(key_cmp(a, b), KeyOrder::Equal)
}

fn paths_eq(a: &Vec<String>, b: &Vec<String>) -> bool {
    if a.len() != b.len() {
        return false;
    }
    let mut k: usize = 0;
    while k < a.len()
        invariant
            a@.len() == b@.len(),
            k <= a@.len(),
        decreases a@.len() - k,
    {
        if !str_eq(a[k].as_str(), b[k].as_str()) {
            return false;
        }
        k = k + 1;
    }
    true
}

/// A dotted name split into its segments; a bare dot is the empty path
/// naming the current context.
fn parse_path(name: &Vec<char>) -> Vec<String> {
    if name.len() == 1 && name[0] == '.' {
        return Vec::new();
    }
    let mut segs: Vec<String> = Vec::new();
    let mut cur: Vec<char> = Vec::new();
    let mut k: usize = 0;
    while k < name.len()
        invariant
            k <= name@.len(),
        decreases name@.len() - k,
    {
        let c = name[k];
        if c == '.' {
            segs.push(chars_to_string(&cur));
            cur = Vec::new();
        } else {
            cur.push(c);
        }
        k = k + 1;
    }
    segs.push(chars_to_string(&cur));
    segs
}

fn trimmed_span(src: &Vec<char>, mut a: usize, mut b: usize) -> (r: (usize, usize))
    ensures
        r.0 <= r.1,
        b <= src@.len() ==> r.1 <= src@.len(),
{
    if a > b || b > src.len() {
        return (0, 0);
    }
    while a < b
        invariant
            a <= b <= src@.len(),
        decreases b - a,
    {
        if is_ws(src[a]) {
            a = a + 1;
        } else {
            break ;
        }
    }
    while b > a
        invariant
            a <= b <= src@.len(),
        decreases b,
    {
        if is_ws(src[b - 1]) {
            b = b - 1;
        } else {
            break ;
        }
    }
    (a, b)
}

/// Scanning: the source split into text spans and tags, alternating; one
/// more text span than tags.
fn scan(src: &Vec<char>, ot: &Vec<char>, ct: &Vec<char>) -> (r: Result<
    (Vec<(usize, usize)>, Vec<RawTag>),
    Error,
>)
    requires
        ot@.len() > 0,
        ct@.len() > 0,
    ensures
        r matches Ok(pair) ==> pair.0@.len() == pair.1@.len() + 1,
        r matches Ok(pair) ==> forall|t: int|
            0 <= t < pair.0@.len() ==> (#[trigger] pair.0@[t]).0 <= pair.0@[t].1 <= src@.len(),
{
    let n = src.len();
    let mut txts: Vec<(usize, usize)> = Vec::new();
    let mut tags: Vec<RawTag> = Vec::new();
    let mut txt_start: usize = 0;
    let mut i: usize = 0;
    while i < n
        invariant
            n == src@.len(),
            ot@.len() > 0,
            ct@.len() > 0,
            txt_start <= i,
            i <= n,
            txts@.len() == tags@.len(),
            forall|t: int|
                0 <= t < txts@.len() ==> (#[trigger] txts@[t]).0 <= txts@[t].1 <= src@.len(),
        decreases n - i,
    {
        if match_at(src, i, ot) {
            let tag_start = i;
            let after_open = i + ot.len();
            // triple braces ask for an unescaped value and close with an
            // extra brace before the closing delimiter
            if after_open < n && src[after_open] == '{' {
                let k = match find_close_triple(src, after_open + 1, ct) {
                    Some(k) => k,
                    None => {
                        return Err(Error::UnclosedTag);
                    },
                };
                let (cs, ce) = trimmed_span(src, after_open + 1, k);
                let name = slice_chars(src, cs, ce);
                let tag_end = k + 1 + ct.len();
                txts.push((txt_start, tag_start));
                tags.push(
                    RawTag {
                        kind: TagKind::Unesc,
                        name,
                        tag_start,
                        tag_end,
                        indent: Vec::new(),
                    },
                );
                txt_start = tag_end;
                i = tag_end;
                continue ;
            }
            let k = match find_close(src, after_open, ct) {
                Some(k) => k,
                None => {
                    return Err(Error::UnclosedTag);
                },
            };
            let tag_end = k + ct.len();
            let (mut cs, ce) = trimmed_span(src, after_open, k);
            let kind: TagKind;
            if cs < ce {
                let sig = src[cs];
                if sig == '#' {
                    kind = TagKind::SecOpen;
                    cs = cs + 1;
                } else if sig == '^' {
                    kind = TagKind::InvOpen;
                    cs = cs + 1;
                } else if sig == '/' {
                    kind = TagKind::SecClose;
                    cs = cs + 1;
                } else if sig == '>' {
                    kind = TagKind::PartialTag;
                    cs = cs + 1;
                } else if sig == '!' {
                    kind = TagKind::Comment;
                    cs = cs + 1;
                } else if sig == '&' {
                    kind = TagKind::Unesc;
                    cs = cs + 1;
                } else if sig == '$' {
                    kind = TagKind::JsonTag;
                    cs = cs + 1;
                } else if sig == '%' {
                    kind = TagKind::JsonPretty;
                    cs = cs + 1;
                } else if sig == '@' && cs + 1 == ce {
                    kind = TagKind::AtTag;
                    cs = cs + 1;
                } else if sig == '=' {
                    return Err(Error::UnsupportedTag);
                } else {
                    kind = TagKind::Plain;
                }
            } else {
                kind = TagKind::Plain;
            }
            let (cs2, ce2) = trimmed_span(src, cs, ce);
            let name = slice_chars(src, cs2, ce2);
            txts.push((txt_start, tag_start));
            tags.push(RawTag { kind, name, tag_start, tag_end, indent: Vec::new() });
            txt_start = tag_end;
            i = tag_end;
        } else {
            i = i + 1;
        }
    }
    txts.push((txt_start, n));
    Ok((txts, tags))
}

fn replace_txt(txts: &mut Vec<(usize, usize)>, t: usize, v: (usize, usize))
    requires
        t < old(txts)@.len(),
    ensures
        final(txts)@ == old(txts)@.update(t as int, v),
{
    let _ = txts.remove(t);
    txts.insert(t, v);
    proof {
        assert(final(txts)@ =~= old(txts)@.update(t as int, v));
    }
}

/// Standalone-line handling: a section tag, partial, or comment alone on
/// its line is removed together with the surrounding whitespace and the
/// line's newline; a standalone partial keeps that whitespace as its
/// indentation.
fn trim_standalone(src: &Vec<char>, txts: &mut Vec<(usize, usize)>, tags: &mut Vec<RawTag>)
    requires
        old(txts)@.len() == old(tags)@.len() + 1,
        forall|t: int|
            0 <= t < old(txts)@.len() ==> (#[trigger] old(txts)@[t]).0 <= old(txts)@[t].1
                <= src@.len(),
    ensures
        final(txts)@.len() == final(tags)@.len() + 1,
        forall|t: int|
            0 <= t < final(txts)@.len() ==> (#[trigger] final(txts)@[t]).0 <= final(txts)@[t].1
                <= src@.len(),
{
    let n = tags.len();
    let mut t: usize = 0;
    while t < n
        invariant
            n == tags@.len(),
            txts@.len() == tags@.len() + 1,
            t <= n,
            forall|u: int|
                0 <= u < txts@.len() ==> (#[trigger] txts@[u]).0 <= txts@[u].1 <= src@.len(),
        decreases n - t,
    {
        let standalone_kind = matches!(
            tags[t].kind,
            TagKind::SecOpen | TagKind::InvOpen | TagKind::SecClose | TagKind::PartialTag
                | TagKind::Comment,
        );
        if standalone_kind {
            let (ps, pe) = txts[t];
            // scan back over inline whitespace before the tag
            let mut k = pe;
            while k > ps
                invariant
                    ps <= k <= pe,
                    pe <= src@.len(),
                decreases k,
            {
                if is_inline_ws(src[k - 1]) {
                    k = k - 1;
                } else {
                    break ;
                }
            }
            let prev_ok: bool = if k == ps {
                t == 0
            } else {
                src[k - 1] == '\n'
            };
            if prev_ok {
                let (ns, ne) = txts[t + 1];
                // scan forward over inline whitespace after the tag
                let mut m = ns;
                while m < ne
                    invariant
                        ns <= m <= ne,
                        ne <= src@.len(),
                    decreases ne - m,
                {
                    if is_inline_ws(src[m]) {
                        m = m + 1;
                    } else {
                        break ;
                    }
                }
                let mut next_ok: bool = false;
                let mut cut: usize = m;
                if m < ne {
                    if src[m] == '\n' {
                        next_ok = true;
                        cut = m + 1;
                    } else if src[m] == '\r' && m + 1 < ne && src[m + 1] == '\n' {
                        next_ok = true;
                        cut = m + 2;
                    }
                } else {
                    // only whitespace up to the end of this span: standalone
                    // only when the source ends there
                    next_ok = t + 1 == txts.len() - 1;
                }
                if next_ok {
                    if matches!(tags[t].kind, TagKind::PartialTag) {
                        let ws = slice_chars(src, k, pe);
                        let old_tag = tags.remove(t);
                        tags.insert(
                            t,
                            RawTag {
                                kind: old_tag.kind,
                                name: old_tag.name,
                                tag_start: old_tag.tag_start,
                                tag_end: old_tag.tag_end,
                                indent: ws,
                            },
                        );
                    }
                    replace_txt(txts, t, (ps, k));
                    replace_txt(txts, t + 1, (cut, ne));
                }
            }
        }
        t = t + 1;
    }
}

/// Compiles template source under the given delimiters into a token list.
/// An accepted tree never holds the incomplete-section sentinel.
pub fn compile_tokens(source: &str, otag: &str, ctag: &str) -> (r: Result<Vec<Token>, Error>)
    ensures
        r matches Ok(toks) ==> toks_complete(toks@),
{
    let src = str_chars(source);
    let ot = str_chars(otag);
    let ct = str_chars(ctag);
    if ot.len() == 0 || ct.len() == 0 {
        return Err(Error::UnsupportedTag);
    }
    let (mut txts, mut tags) = match scan(&src, &ot, &ct) {
        Ok(pair) => pair,
        Err(e) => {
            return Err(e);
        },
    };
    trim_standalone(&src, &mut txts, &mut tags);

    let mut current: Vec<Token> = Vec::new();
    let mut frames: Vec<OpenFrame> = Vec::new();
    let n = tags.len();
    let mut t: usize = 0;
    while t < n
        invariant
            n == tags@.len(),
            txts@.len() == tags@.len() + 1,
            t <= n,
            forall|u: int|
                0 <= u < txts@.len() ==> (#[trigger] txts@[u]).0 <= txts@[u].1 <= src@.len(),
            toks_complete(current@),
            forall|u: int|
                0 <= u < frames@.len() ==> toks_complete((#[trigger] frames@[u]).tokens@),
        decreases n - t,
    {
        let (s, e) = txts[t];
        if e > s {
            let text = chars_to_string(&slice_chars(&src, s, e));
            current.push(Token::Text(text));
            assert(tok_complete(current@.last()));
        }
        match tags[t].kind {
            TagKind::Plain => {
                current.push(Token::EscapedTag(parse_path(&tags[t].name)));
                assert(tok_complete(current@.last()));
            },
            TagKind::Unesc => {
                current.push(Token::UnescapedTag(parse_path(&tags[t].name)));
                assert(tok_complete(current@.last()));
            },
            TagKind::JsonTag => {
                current.push(Token::Json(parse_path(&tags[t].name), false));
                assert(tok_complete(current@.last()));
            },
            TagKind::JsonPretty => {
                current.push(Token::Json(parse_path(&tags[t].name), true));
                assert(tok_complete(current@.last()));
            },
            TagKind::AtTag => {
                current.push(Token::At);
                assert(tok_complete(current@.last()));
            },
            TagKind::Comment => {},
            TagKind::PartialTag => {
                let name = chars_to_string(&tags[t].name);
                let ind = chars_to_string(&tags[t].indent);
                current.push(Token::Partial(name, ind));
                assert(tok_complete(current@.last()));
            },
            TagKind::SecOpen | TagKind::InvOpen => {
                let inverted = matches!(tags[t].kind, TagKind::InvOpen);
                let path = parse_path(&tags[t].name);
                let parent = current;
                current = Vec::new();
                frames.push(
                    OpenFrame { path, inverted, tokens: parent, content_start: tags[t].tag_end },
                );
            },
            TagKind::SecClose => {
                let frame = match frames.pop() {
                    Some(f) => f,
                    None => {
                        return Err(Error::UnbalancedSection);
                    },
                };
                let path = parse_path(&tags[t].name);
                if !paths_eq(&frame.path, &path) {
                    return Err(Error::UnbalancedSection);
                }
                let children = current;
                current = frame.tokens;
                let raw = if frame.content_start <= tags[t].tag_start {
                    chars_to_string(&slice_chars(&src, frame.content_start, tags[t].tag_start))
                } else {
                    String::new()
                };
                let is_top = frame.path.len() == 1 && str_eq(frame.path[0].as_str(), "-top-");
                if !frame.inverted && is_top {
                    current.push(Token::TopSection(children));
                    assert(tok_complete(current@.last()));
                } else {
                    current.push(
                        Token::Section(
                            frame.path,
                            frame.inverted,
                            children,
                            otag.to_owned(),
                            ctag.to_owned(),
                            raw,
                        ),
                    );
                    assert(tok_complete(current@.last()));
                }
            },
        }
        t = t + 1;
    }
    let (s, e) = txts[n];
    if e > s {
        let text = chars_to_string(&slice_chars(&src, s, e));
        current.push(Token::Text(text));
        assert(tok_complete(current@.last()));
    }
    if frames.len() > 0 {
        return Err(Error::UnclosedSection);
    }
    Ok(current)
}

} // verus!
