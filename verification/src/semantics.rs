//! The meaning of rendering, as functions of the token tree, the context
//! stack, and the render state.
//!
//! A producer's output is not a function of the template or the data: the
//! transform carries its own state. Each producer occurrence reached during
//! a render therefore consumes one [`Expansion`], the outcome of invoking
//! the producer and compiling what it returned. The renderer reports the
//! sequence of expansion outcomes it actually consumed, so its result is
//! exactly [`render_toks`] applied to that sequence; a render that reaches
//! no producer consumes none and is a plain function of its inputs.

use vstd::prelude::*;
use crate::data::{Data, map_lookup};
use crate::token::{Token, tok_size, toks_size, seq_has_at, lemma_tok_elem_size, lemma_toks_size_pos, lemma_tok_size_pos};
use crate::json::{json_chars, bool_chars};
use crate::escape::escape_html;
use crate::util::dec_digits;
use crate::Error;

verus! {

/// Render state: the indentation prefix, whether the next character begins
/// a fresh line, and the current iteration anchor.
pub struct RState {
    pub indent: Seq<char>,
    pub line_start: bool,
    pub at: Seq<char>,
}

/// What rendering reads besides the tokens and the stack: the template's
/// partials and whether the structured-data extension is enabled.
pub struct SpecEnv {
    pub partials: Seq<(String, Vec<Token>)>,
    pub ext: bool,
}

/// The outcome of one producer re-expansion: the source the producer was
/// invoked with, the delimiter pair its output was compiled under, and the
/// freshly compiled tokens of that output — or the failure of that nested
/// compile. Recording the input ties each outcome to the invocation that
/// produced it: the semantics only accepts an outcome recorded for exactly
/// the source and delimiters the consuming token demands.
pub enum Expansion {
    Expanded { src: Seq<char>, otag: Seq<char>, ctag: Seq<char>, toks: Seq<Token> },
    Failed { src: Seq<char>, otag: Seq<char>, ctag: Seq<char>, err: Error },
}

/// The default opening delimiter, used by value tags.
pub open spec fn default_otag() -> Seq<char> {
    seq!['{', '{']
}

/// The default closing delimiter, used by value tags.
pub open spec fn default_ctag() -> Seq<char> {
    seq!['}', '}']
}

/// Whether an expansion outcome was recorded for this invocation: the
/// producer received exactly `src`, and its output was compiled under
/// exactly `otag` and `ctag`.
pub open spec fn expansion_for(x: Expansion, src: Seq<char>, otag: Seq<char>, ctag: Seq<char>) -> bool {
    match x {
        Expansion::Expanded { src: s0, otag: o0, ctag: c0, toks } => s0 == src && o0 == otag && c0
            == ctag,
        Expansion::Failed { src: s0, otag: o0, ctag: c0, err } => s0 == src && o0 == otag && c0
            == ctag,
    }
}

/// The compiled tokens a successful expansion outcome carries.
pub open spec fn expansion_toks(x: Expansion) -> Seq<Token> {
    match x {
        Expansion::Expanded { src, otag, ctag, toks } => toks,
        Expansion::Failed { src, otag, ctag, err } => Seq::empty(),
    }
}

/// The nested compile error a failed expansion outcome carries.
pub open spec fn expansion_err(x: Expansion) -> Error {
    match x {
        Expansion::Failed { src, otag, ctag, err } => err,
        Expansion::Expanded { src, otag, ctag, toks } => Error::TooDeep,
    }
}

/// The outcome of rendering: the emitted text, the state after, and the
/// expansion outcomes not consumed; or the error that stopped the render.
pub enum Rendered {
    Done { out: Seq<char>, st: RState, rest: Seq<Expansion> },
    Fail { err: Error },
}

/// The token list of the named partial, scanning front to back.
pub open spec fn partial_lookup(ps: Seq<(String, Vec<Token>)>, name: Seq<char>) -> Option<
    Vec<Token>,
>
    decreases ps.len(),
{
    if ps.len() == 0 {
        None
    } else if ps[0].0@ == name {
        Some(ps[0].1)
    } else {
        partial_lookup(ps.drop_first(), name)
    }
}

/// The innermost stack frame that is a mapping holding `key`, read at that
/// key; scalar and list frames are skipped transparently.
pub open spec fn find_base(key: Seq<char>, stack: Seq<Data>) -> Option<Data>
    decreases stack.len(),
{
    if stack.len() == 0 {
        None
    } else {
        match stack.last() {
            Data::Obj(entries) => match map_lookup(entries@, key) {
                Some(v) => Some(v),
                None => find_base(key, stack.drop_last()),
            },
            _ => find_base(key, stack.drop_last()),
        }
    }
}

/// Walks the remaining path segments down through mappings.
pub open spec fn walk(path: Seq<String>, v: Data) -> Option<Data>
    decreases path.len(),
{
    if path.len() == 0 {
        Some(v)
    } else {
        match v {
            Data::Obj(entries) => match map_lookup(entries@, path[0]@) {
                Some(w) => walk(path.skip(1), w),
                None => None,
            },
            _ => None,
        }
    }
}

/// Resolution of a dotted path against the context stack. The empty path is
/// the value on top of the stack; otherwise the first segment picks the
/// innermost mapping frame that holds it, and the rest walk down from there.
/// Absent data is `None`, never an error.
pub open spec fn resolve(path: Seq<String>, stack: Seq<Data>) -> Option<Data> {
    if path.len() == 0 {
        if stack.len() == 0 {
            None
        } else {
            Some(stack.last())
        }
    } else {
        match find_base(path[0]@, stack) {
            None => None,
            Some(base) => walk(path.skip(1), base),
        }
    }
}

/// The falsy set: absent, null, false, or an empty sequence. An inverted
/// section renders exactly for these.
pub open spec fn falsy(r: Option<Data>) -> bool {
    match r {
        None => true,
        Some(Data::Null) => true,
        Some(Data::Bool(b)) => !b,
        Some(Data::List(items)) => items@.len() == 0,
        Some(_) => false,
    }
}

/// The line-start flag after writing `value`: unchanged by empty output,
/// true exactly when the last character written was a newline.
pub open spec fn wtn_line_start(value: Seq<char>, ls: bool) -> bool {
    if value.len() == 0 {
        ls
    } else {
        value.last() == '\n'
    }
}

/// What writing the indentation prefix emits: the prefix at a line start,
/// nothing elsewhere. It leaves the line-start flag unchanged.
pub open spec fn ind_of(st: RState) -> Seq<char> {
    if st.line_start {
        st.indent
    } else {
        Seq::empty()
    }
}

/// Index of the first newline in `value`, or its length if none.
pub open spec fn first_nl(value: Seq<char>) -> nat
    decreases value.len(),
{
    if value.len() == 0 {
        0
    } else if value[0] == '\n' {
        0
    } else {
        1 + first_nl(value.drop_first())
    }
}

/// Length of the first logical line of `value`, its terminating newline
/// included.
pub open spec fn line_len(value: Seq<char>) -> nat {
    if first_nl(value) < value.len() {
        first_nl(value) + 1
    } else {
        value.len()
    }
}

/// What a text token emits: each logical line, preceded by the indentation
/// prefix when it starts a fresh line — except a line that begins with the
/// newline ending an empty line, which is written bare.
pub open spec fn text_out(value: Seq<char>, indent: Seq<char>, ls: bool) -> Seq<char>
    decreases value.len(),
{
    if value.len() == 0 {
        Seq::empty()
    } else {
        let ll = line_len(value);
        let line = value.take(ll as int);
        let pre: Seq<char> = if value[0] != '\n' && ls {
            indent
        } else {
            Seq::empty()
        };
        pre + line + text_out(value.skip(ll as int), indent, line.last() == '\n')
    }
}

/// The characters naming the whole-context path sentinel.
pub open spec fn top_chars() -> Seq<char> {
    seq!['-', 't', 'o', 'p', '-']
}

/// Whether a path addresses the whole top-level context.
pub open spec fn is_top_path(p: Seq<String>) -> bool {
    p.len() > 0 && p[0]@ == top_chars()
}

/// Rendering a token list, peeling the last token: the earlier tokens run
/// first and hand their state and remaining expansions to the last.
pub open spec fn render_toks(
    ts: Seq<Token>,
    stack: Seq<Data>,
    st: RState,
    env: SpecEnv,
    orc: Seq<Expansion>,
    fuel: nat,
) -> Rendered
    decreases fuel, toks_size(ts), 0nat, 0nat,
    via render_toks_dec
{
    if ts.len() == 0 {
        Rendered::Done { out: Seq::empty(), st, rest: orc }
    } else {
        match render_toks(ts.drop_last(), stack, st, env, orc, fuel) {
            Rendered::Done { out, st: st1, rest } => match render_tok(
                ts.last(),
                stack,
                st1,
                env,
                rest,
                fuel,
            ) {
                Rendered::Done { out: o2, st: st2, rest: r2 } => Rendered::Done {
                    out: out + o2,
                    st: st2,
                    rest: r2,
                },
                Rendered::Fail { err } => Rendered::Fail { err },
            },
            Rendered::Fail { err } => Rendered::Fail { err },
        }
    }
}

#[via_fn]
proof fn render_toks_dec(
    ts: Seq<Token>,
    stack: Seq<Data>,
    st: RState,
    env: SpecEnv,
    orc: Seq<Expansion>,
    fuel: nat,
) {
    if ts.len() > 0 {
        lemma_tok_elem_size(ts, ts.len() - 1);
        lemma_toks_size_pos(ts.drop_last());
        lemma_tok_size_pos(ts.last());
    }
}

/// Rendering one token.
pub open spec fn render_tok(
    t: Token,
    stack: Seq<Data>,
    st: RState,
    env: SpecEnv,
    orc: Seq<Expansion>,
    fuel: nat,
) -> Rendered
    decreases fuel, tok_size(t), 1nat, 0nat,
{
    match t {
        Token::Text(s) => Rendered::Done {
            out: text_out(s@, st.indent, st.line_start),
            st: RState { line_start: wtn_line_start(s@, st.line_start), ..st },
            rest: orc,
        },
        Token::At => Rendered::Done {
            out: st.at,
            st: RState { line_start: wtn_line_start(st.at, st.line_start), ..st },
            rest: orc,
        },
        Token::UnescapedTag(p) => render_utag_s(p@, stack, st, env, orc, fuel),
        Token::EscapedTag(p) => match render_utag_s(p@, stack, st, env, orc, fuel) {
            Rendered::Done { out, st: s2, rest } => Rendered::Done {
                out: escape_html(out),
                st: s2,
                rest,
            },
            Rendered::Fail { err } => Rendered::Fail { err },
        },
        Token::Json(p, pretty) => render_json_s(p@, pretty, stack, st, env, orc, fuel),
        Token::Section(p, inverted, children, otag, ctag, raw) => {
            if inverted {
                render_inverted_s(p@, children@, stack, st, env, orc, fuel)
            } else {
                render_section_s(p@, children@, otag@, ctag@, raw@, stack, st, env, orc, fuel)
            }
        },
        Token::Partial(name, pindent) => render_partial_s(
            name@,
            pindent@,
            stack,
            st,
            env,
            orc,
            fuel,
        ),
        Token::TopSection(children) => render_top(stack, children@, stack, st, env, orc, fuel),
        Token::Incomplete => Rendered::Fail { err: Error::IncompleteSection },
    }
}

/// Rendering a partial: a missing partial renders nothing; a found one has
/// its per-occurrence indentation appended to the active prefix for exactly
/// its own subtree, the prefix reverting when it returns.
pub open spec fn render_partial_s(
    name: Seq<char>,
    pindent: Seq<char>,
    stack: Seq<Data>,
    st: RState,
    env: SpecEnv,
    orc: Seq<Expansion>,
    fuel: nat,
) -> Rendered
    decreases fuel, 0nat, 1nat, 0nat,
{
    match partial_lookup(env.partials, name) {
        None => Rendered::Done { out: Seq::empty(), st, rest: orc },
        Some(toks) => if fuel == 0 {
            Rendered::Fail { err: Error::TooDeep }
        } else {
            match render_toks(
                toks@,
                stack,
                RState { indent: st.indent + pindent, ..st },
                env,
                orc,
                (fuel - 1) as nat,
            ) {
                Rendered::Done { out, st: s2, rest } => Rendered::Done {
                    out,
                    st: RState { indent: st.indent, ..s2 },
                    rest,
                },
                Rendered::Fail { err } => Rendered::Fail { err },
            }
        },
    }
}

/// Rendering an inverted section: the children run, against the unchanged
/// stack, exactly when the resolved value is falsy; anything else suppresses
/// them entirely.
pub open spec fn render_inverted_s(
    p: Seq<String>,
    children: Seq<Token>,
    stack: Seq<Data>,
    st: RState,
    env: SpecEnv,
    orc: Seq<Expansion>,
    fuel: nat,
) -> Rendered
    decreases fuel, 1 + toks_size(children), 2nat, 0nat,
{
    if falsy(resolve(p, stack)) {
        render_toks(children, stack, st, env, orc, fuel)
    } else {
        Rendered::Done { out: Seq::empty(), st, rest: orc }
    }
}

/// Rendering a plain section, by the resolved value: nothing for absent,
/// null or false values; the children once for true; once with the value
/// pushed for non-empty text; once per item for a sequence; for a mapping,
/// once per entry when the extension applies and the children hold an
/// anchor, else once with the mapping pushed; a producer is invoked with
/// the section's captured raw source, its output is compiled under the
/// section's delimiter pair, and the compiled tokens replace the children,
/// against the unchanged stack.
pub open spec fn render_section_s(
    p: Seq<String>,
    children: Seq<Token>,
    otag: Seq<char>,
    ctag: Seq<char>,
    raw: Seq<char>,
    stack: Seq<Data>,
    st: RState,
    env: SpecEnv,
    orc: Seq<Expansion>,
    fuel: nat,
) -> Rendered
    decreases fuel, 1 + toks_size(children), 2nat, 0nat,
{
    match resolve(p, stack) {
        None => Rendered::Done { out: Seq::empty(), st, rest: orc },
        Some(v) => match v {
            Data::Null => Rendered::Done { out: Seq::empty(), st, rest: orc },
            Data::Bool(b) => if b {
                render_toks(children, stack, st, env, orc, fuel)
            } else {
                Rendered::Done { out: Seq::empty(), st, rest: orc }
            },
            Data::Str(s) => if s@.len() == 0 {
                Rendered::Done { out: Seq::empty(), st, rest: orc }
            } else {
                render_toks(children, stack.push(Data::Str(s)), st, env, orc, fuel)
            },
            Data::List(items) => render_items(items@, children, stack, st, env, orc, fuel),
            Data::Obj(entries) => if env.ext && seq_has_at(children) {
                render_entries(entries@, children, stack, st, env, orc, fuel)
            } else {
                render_toks(children, stack.push(Data::Obj(entries)), st, env, orc, fuel)
            },
            Data::Fun(_) => expand_spec(raw, otag, ctag, stack, st, env, orc, fuel),
        },
    }
}

/// Consuming one expansion outcome: the producer is handed exactly `src`,
/// its output is compiled under exactly `otag` and `ctag`, and the compiled
/// tokens replace whatever stood at this occurrence, rendered against the
/// unchanged stack; a failed nested compile fails the render with its
/// error. A missing outcome, or one recorded for a different invocation,
/// cannot drive the render further — the engine only reports the outcome of
/// the invocation it actually made, so that case is never reached.
pub open spec fn expand_spec(
    src: Seq<char>,
    otag: Seq<char>,
    ctag: Seq<char>,
    stack: Seq<Data>,
    st: RState,
    env: SpecEnv,
    orc: Seq<Expansion>,
    fuel: nat,
) -> Rendered
    decreases fuel, 0nat, 0nat, 0nat,
{
    if fuel == 0 {
        Rendered::Fail { err: Error::TooDeep }
    } else if orc.len() == 0 || !expansion_for(orc[0], src, otag, ctag) {
        Rendered::Fail { err: Error::TooDeep }
    } else {
        match orc[0] {
            Expansion::Failed { src: s0, otag: o0, ctag: c0, err } => Rendered::Fail { err },
            Expansion::Expanded { src: s0, otag: o0, ctag: c0, toks } => render_toks(
                toks,
                stack,
                st,
                env,
                orc.skip(1),
                (fuel - 1) as nat,
            ),
        }
    }
}

/// Rendering an unescaped tag: absent paths and nulls emit nothing beyond
/// the pending indentation; text and booleans emit their characters;
/// producers re-expand; lists and mappings are a data-shape mismatch and
/// are skipped.
pub open spec fn render_utag_s(
    p: Seq<String>,
    stack: Seq<Data>,
    st: RState,
    env: SpecEnv,
    orc: Seq<Expansion>,
    fuel: nat,
) -> Rendered
    decreases fuel, 1nat, 0nat, 0nat,
{
    match resolve(p, stack) {
        None => Rendered::Done { out: Seq::empty(), st, rest: orc },
        Some(v) => match v {
            Data::Str(s) => Rendered::Done {
                out: ind_of(st) + s@,
                st: RState { line_start: wtn_line_start(s@, st.line_start), ..st },
                rest: orc,
            },
            Data::Bool(b) => Rendered::Done {
                out: ind_of(st) + bool_chars(b),
                st: RState { line_start: wtn_line_start(bool_chars(b), st.line_start), ..st },
                rest: orc,
            },
            Data::Fun(_) => match expand_spec(
                Seq::empty(),
                default_otag(),
                default_ctag(),
                stack,
                st,
                env,
                orc,
                fuel,
            ) {
                Rendered::Done { out, st: s2, rest } => Rendered::Done {
                    out: ind_of(st) + out,
                    st: s2,
                    rest,
                },
                Rendered::Fail { err } => Rendered::Fail { err },
            },
            _ => Rendered::Done { out: ind_of(st), st, rest: orc },
        },
    }
}

/// Rendering a structured-serialization tag. The whole-context sentinel
/// serializes the outermost stack frame; otherwise scalars emit their raw
/// text, lists and mappings their serialization, producers re-expand.
pub open spec fn render_json_s(
    p: Seq<String>,
    pretty: bool,
    stack: Seq<Data>,
    st: RState,
    env: SpecEnv,
    orc: Seq<Expansion>,
    fuel: nat,
) -> Rendered
    decreases fuel, 1nat, 0nat, 0nat,
{
    if is_top_path(p) {
        if stack.len() == 0 {
            Rendered::Done { out: Seq::empty(), st, rest: orc }
        } else {
            Rendered::Done {
                out: json_chars(stack[0], pretty, 0),
                st: RState {
                    line_start: wtn_line_start(json_chars(stack[0], pretty, 0), st.line_start),
                    ..st
                },
                rest: orc,
            }
        }
    } else {
        match resolve(p, stack) {
            None => Rendered::Done { out: Seq::empty(), st, rest: orc },
            Some(v) => match v {
                Data::Null => Rendered::Done { out: ind_of(st), st, rest: orc },
                Data::Str(s) => Rendered::Done {
                    out: ind_of(st) + s@,
                    st: RState { line_start: wtn_line_start(s@, st.line_start), ..st },
                    rest: orc,
                },
                Data::Bool(b) => Rendered::Done {
                    out: ind_of(st) + bool_chars(b),
                    st: RState {
                        line_start: wtn_line_start(bool_chars(b), st.line_start),
                        ..st
                    },
                    rest: orc,
                },
                Data::Fun(_) => match expand_spec(
                    Seq::empty(),
                    default_otag(),
                    default_ctag(),
                    stack,
                    st,
                    env,
                    orc,
                    fuel,
                ) {
                    Rendered::Done { out, st: s2, rest } => Rendered::Done {
                        out: ind_of(st) + out,
                        st: s2,
                        rest,
                    },
                    Rendered::Fail { err } => Rendered::Fail { err },
                },
                _ => Rendered::Done {
                    out: ind_of(st) + json_chars(v, pretty, 0),
                    st: RState {
                        line_start: wtn_line_start(json_chars(v, pretty, 0), st.line_start),
                        ..st
                    },
                    rest: orc,
                },
            },
        }
    }
}

/// Rendering a sequence section: one pass over the children per item, the
/// item pushed onto the stack, the anchor set to the item's index and
/// cleared after each pass.
pub open spec fn render_items(
    items: Seq<Data>,
    children: Seq<Token>,
    stack: Seq<Data>,
    st: RState,
    env: SpecEnv,
    orc: Seq<Expansion>,
    fuel: nat,
) -> Rendered
    decreases fuel, 1 + toks_size(children), 0nat, items.len(),
{
    if items.len() == 0 {
        Rendered::Done { out: Seq::empty(), st, rest: orc }
    } else {
        match render_items(items.drop_last(), children, stack, st, env, orc, fuel) {
            Rendered::Done { out, st: st1, rest } => match render_toks(
                children,
                stack.push(items.last()),
                RState { at: dec_digits((items.len() - 1) as nat), ..st1 },
                env,
                rest,
                fuel,
            ) {
                Rendered::Done { out: o2, st: st2, rest: r2 } => Rendered::Done {
                    out: out + o2,
                    st: RState { at: Seq::empty(), ..st2 },
                    rest: r2,
                },
                Rendered::Fail { err } => Rendered::Fail { err },
            },
            Rendered::Fail { err } => Rendered::Fail { err },
        }
    }
}

/// Rendering a mapping section in entry-iteration mode: one pass per entry
/// in stored order, the entry's value pushed, the anchor set to its key and
/// cleared after each pass.
pub open spec fn render_entries(
    entries: Seq<(String, Data)>,
    children: Seq<Token>,
    stack: Seq<Data>,
    st: RState,
    env: SpecEnv,
    orc: Seq<Expansion>,
    fuel: nat,
) -> Rendered
    decreases fuel, 1 + toks_size(children), 0nat, entries.len(),
{
    if entries.len() == 0 {
        Rendered::Done { out: Seq::empty(), st, rest: orc }
    } else {
        match render_entries(entries.drop_last(), children, stack, st, env, orc, fuel) {
            Rendered::Done { out, st: st1, rest } => match render_toks(
                children,
                stack.push(entries.last().1),
                RState { at: entries.last().0@, ..st1 },
                env,
                rest,
                fuel,
            ) {
                Rendered::Done { out: o2, st: st2, rest: r2 } => Rendered::Done {
                    out: out + o2,
                    st: RState { at: Seq::empty(), ..st2 },
                    rest: r2,
                },
                Rendered::Fail { err } => Rendered::Fail { err },
            },
            Rendered::Fail { err } => Rendered::Fail { err },
        }
    }
}

/// Rendering a whole-stack section: every frame of the snapshot in turn,
/// outermost first. A mapping frame iterates its entries when the children
/// hold an anchor token, and is pushed whole otherwise; other frames are
/// skipped.
pub open spec fn render_top(
    frames: Seq<Data>,
    children: Seq<Token>,
    stack: Seq<Data>,
    st: RState,
    env: SpecEnv,
    orc: Seq<Expansion>,
    fuel: nat,
) -> Rendered
    decreases fuel, 1 + toks_size(children), 1nat, frames.len(),
{
    if frames.len() == 0 {
        Rendered::Done { out: Seq::empty(), st, rest: orc }
    } else {
        match render_top(frames.drop_last(), children, stack, st, env, orc, fuel) {
            Rendered::Done { out, st: st1, rest } => match frames.last() {
                Data::Obj(entries) => if seq_has_at(children) {
                    match render_entries(entries@, children, stack, st1, env, rest, fuel) {
                        Rendered::Done { out: o2, st: st2, rest: r2 } => Rendered::Done {
                            out: out + o2,
                            st: st2,
                            rest: r2,
                        },
                        Rendered::Fail { err } => Rendered::Fail { err },
                    }
                } else {
                    match render_toks(
                        children,
                        stack.push(frames.last()),
                        st1,
                        env,
                        rest,
                        fuel,
                    ) {
                        Rendered::Done { out: o2, st: st2, rest: r2 } => Rendered::Done {
                            out: out + o2,
                            st: st2,
                            rest: r2,
                        },
                        Rendered::Fail { err } => Rendered::Fail { err },
                    }
                },
                _ => Rendered::Done { out, st: st1, rest },
            },
            Rendered::Fail { err } => Rendered::Fail { err },
        }
    }
}

/// The data values a stack of borrows stands for.
pub open spec fn views(stack: Seq<&Data>) -> Seq<Data> {
    stack.map_values(|d: &Data| *d)
}

/// How an executable step agrees with its semantics: on success the output
/// grew by exactly the semantic output, the state and stack are the semantic
/// ones, and precisely the reported expansions were consumed; on failure the
/// step returned the semantic error.
pub open spec fn agrees(
    sr: Rendered,
    r: Result<(), Error>,
    out0: Seq<char>,
    out1: Seq<char>,
    st1: RState,
    sv0: Seq<Data>,
    sv1: Seq<Data>,
    ext: Seq<Expansion>,
) -> bool {
    match sr {
        Rendered::Done { out, st, rest } => r is Ok && out1 == out0 + out && st1 == st && sv1
            == sv0 && rest == ext,
        Rendered::Fail { err } => r == Result::<(), Error>::Err(err),
    }
}

/// A failure while rendering a prefix of a token list is the failure of the
/// whole list.
pub proof fn lemma_toks_fail(
    ts: Seq<Token>,
    i: int,
    stack: Seq<Data>,
    st: RState,
    env: SpecEnv,
    orc: Seq<Expansion>,
    fuel: nat,
)
    requires
        0 <= i <= ts.len(),
        render_toks(ts.take(i), stack, st, env, orc, fuel) is Fail,
    ensures
        render_toks(ts, stack, st, env, orc, fuel) == render_toks(
            ts.take(i),
            stack,
            st,
            env,
            orc,
            fuel,
        ),
    decreases ts.len() - i,
{
    if i < ts.len() {
        assert(ts.take(i + 1).drop_last() =~= ts.take(i));
        lemma_toks_fail(ts, i + 1, stack, st, env, orc, fuel);
    } else {
        assert(ts.take(i) =~= ts);
    }
}

/// A failure on a prefix of a sequence section's items fails the section.
pub proof fn lemma_items_fail(
    items: Seq<Data>,
    i: int,
    children: Seq<Token>,
    stack: Seq<Data>,
    st: RState,
    env: SpecEnv,
    orc: Seq<Expansion>,
    fuel: nat,
)
    requires
        0 <= i <= items.len(),
        render_items(items.take(i), children, stack, st, env, orc, fuel) is Fail,
    ensures
        render_items(items, children, stack, st, env, orc, fuel) == render_items(
            items.take(i),
            children,
            stack,
            st,
            env,
            orc,
            fuel,
        ),
    decreases items.len() - i,
{
    if i < items.len() {
        assert(items.take(i + 1).drop_last() =~= items.take(i));
        lemma_items_fail(items, i + 1, children, stack, st, env, orc, fuel);
    } else {
        assert(items.take(i) =~= items);
    }
}

/// A failure on a prefix of a mapping section's entries fails the section.
pub proof fn lemma_entries_fail(
    entries: Seq<(String, Data)>,
    i: int,
    children: Seq<Token>,
    stack: Seq<Data>,
    st: RState,
    env: SpecEnv,
    orc: Seq<Expansion>,
    fuel: nat,
)
    requires
        0 <= i <= entries.len(),
        render_entries(entries.take(i), children, stack, st, env, orc, fuel) is Fail,
    ensures
        render_entries(entries, children, stack, st, env, orc, fuel) == render_entries(
            entries.take(i),
            children,
            stack,
            st,
            env,
            orc,
            fuel,
        ),
    decreases entries.len() - i,
{
    if i < entries.len() {
        assert(entries.take(i + 1).drop_last() =~= entries.take(i));
        lemma_entries_fail(entries, i + 1, children, stack, st, env, orc, fuel);
    } else {
        assert(entries.take(i) =~= entries);
    }
}

/// A failure on a prefix of the frames of a whole-stack section fails it.
pub proof fn lemma_top_fail(
    frames: Seq<Data>,
    i: int,
    children: Seq<Token>,
    stack: Seq<Data>,
    st: RState,
    env: SpecEnv,
    orc: Seq<Expansion>,
    fuel: nat,
)
    requires
        0 <= i <= frames.len(),
        render_top(frames.take(i), children, stack, st, env, orc, fuel) is Fail,
    ensures
        render_top(frames, children, stack, st, env, orc, fuel) == render_top(
            frames.take(i),
            children,
            stack,
            st,
            env,
            orc,
            fuel,
        ),
    decreases frames.len() - i,
{
    if i < frames.len() {
        assert(frames.take(i + 1).drop_last() =~= frames.take(i));
        lemma_top_fail(frames, i + 1, children, stack, st, env, orc, fuel);
    } else {
        assert(frames.take(i) =~= frames);
    }
}

} // verus!
