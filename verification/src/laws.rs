//! Laws of the render semantics, each proved once and for all inputs.
//!
//! The escaping round-trip law lives beside the escaping functions:
//! [`crate::escape::lemma_escape_round_trip`].

use vstd::prelude::*;
use crate::data::Data;
use crate::token::Token;
use crate::semantics::{RState, SpecEnv, Expansion, Rendered, render_toks, render_tok, render_utag_s, render_inverted_s, render_section_s, render_partial_s, render_items, expand_spec, expansion_for, expansion_toks, expansion_err, resolve, falsy, partial_lookup};
use crate::escape::escape_html;
use crate::util::dec_digits;

verus! {

/// Law (missing is empty): a path absent from the context stack makes
/// escaped and unescaped tag rendering produce no output, no state change
/// and no error, whatever the oracle and budget.
pub proof fn lemma_missing_is_empty(
    p: Vec<String>,
    stack: Seq<Data>,
    st: RState,
    env: SpecEnv,
    orc: Seq<Expansion>,
    fuel: nat,
)
    requires
        resolve(p@, stack) is None,
    ensures
        render_tok(Token::UnescapedTag(p), stack, st, env, orc, fuel) == (Rendered::Done {
            out: Seq::<char>::empty(),
            st,
            rest: orc,
        }),
        render_tok(Token::EscapedTag(p), stack, st, env, orc, fuel) == (Rendered::Done {
            out: Seq::<char>::empty(),
            st,
            rest: orc,
        }),
{
    assert(render_utag_s(p@, stack, st, env, orc, fuel) == (Rendered::Done {
        out: Seq::<char>::empty(),
        st,
        rest: orc,
    }));
    assert(escape_html(Seq::<char>::empty()) =~= Seq::<char>::empty());
}

/// Law (inverted sections): an inverted section renders its children,
/// against the unchanged stack, exactly for the falsy set — absent, null,
/// false, or an empty sequence; every other resolved value suppresses the
/// children without rendering anything of the value, a producer included.
/// For every falsy value the plain section renders nothing; the converse
/// does not hold of all inputs, since a plain section over empty text also
/// renders nothing while suppressing the inverted children.
pub proof fn lemma_inverted_section(
    p: Vec<String>,
    children: Vec<Token>,
    otag: Seq<char>,
    ctag: Seq<char>,
    raw: Seq<char>,
    stack: Seq<Data>,
    st: RState,
    env: SpecEnv,
    orc: Seq<Expansion>,
    fuel: nat,
)
    ensures
        falsy(resolve(p@, stack)) ==> render_inverted_s(p@, children@, stack, st, env, orc, fuel)
            == render_toks(children@, stack, st, env, orc, fuel),
        falsy(resolve(p@, stack)) ==> render_section_s(
            p@,
            children@,
            otag,
            ctag,
            raw,
            stack,
            st,
            env,
            orc,
            fuel,
        ) == (Rendered::Done { out: Seq::<char>::empty(), st, rest: orc }),
        !falsy(resolve(p@, stack)) ==> render_inverted_s(p@, children@, stack, st, env, orc, fuel)
            == (Rendered::Done { out: Seq::<char>::empty(), st, rest: orc }),
{
    if falsy(resolve(p@, stack)) {
        match resolve(p@, stack) {
            Some(v) => match v {
                Data::List(items) => {
                    assert(items@.len() == 0);
                    assert(render_items(items@, children@, stack, st, env, orc, fuel)
                        == (Rendered::Done { out: Seq::<char>::empty(), st, rest: orc }));
                },
                _ => {},
            },
            None => {},
        }
    }
}

/// Law (sequence sections, one pass): a non-empty sequence section is the
/// passes over all items but the last, followed by one pass of the children
/// with the last item pushed and the anchor set to its index as text, the
/// anchor cleared after the pass. Unrolling this equation renders the
/// children exactly once per item, in order.
pub proof fn lemma_sequence_section_unroll(
    items: Seq<Data>,
    children: Seq<Token>,
    stack: Seq<Data>,
    st: RState,
    env: SpecEnv,
    orc: Seq<Expansion>,
    fuel: nat,
)
    requires
        items.len() > 0,
    ensures
        render_items(items, children, stack, st, env, orc, fuel) == (match render_items(
            items.drop_last(),
            children,
            stack,
            st,
            env,
            orc,
            fuel,
        ) {
            Rendered::Done { out, st: st1, rest } => match render_toks(
                children,
                stack.push(items.last()),
                RState { at: dec_digits((items.len() - 1) as nat), ..st1 },
                env,
                rest,
                fuel,
            ) {
                Rendered::Done { out: o2, st: st2, rest: r2 } => Rendered::Done {
                    out: out + o2,
                    st: RState { at: Seq::<char>::empty(), ..st2 },
                    rest: r2,
                },
                Rendered::Fail { err } => Rendered::Fail { err },
            },
            Rendered::Fail { err } => Rendered::Fail { err },
        }),
{
}

/// Law (sequence sections resolve): a section whose path resolves to a
/// sequence renders as the item passes of that sequence.
pub proof fn lemma_sequence_section(
    p: Vec<String>,
    items: Vec<Data>,
    children: Vec<Token>,
    otag: Seq<char>,
    ctag: Seq<char>,
    raw: Seq<char>,
    stack: Seq<Data>,
    st: RState,
    env: SpecEnv,
    orc: Seq<Expansion>,
    fuel: nat,
)
    requires
        resolve(p@, stack) == Some(Data::List(items)),
    ensures
        render_section_s(p@, children@, otag, ctag, raw, stack, st, env, orc, fuel) == render_items(
            items@,
            children@,
            stack,
            st,
            env,
            orc,
            fuel,
        ),
{
}

/// Law (sequence sections restore an empty anchor): each pass of a sequence
/// section clears the anchor, so a section entered with no anchor set ends
/// with no anchor set. An outer anchor that was not empty is cleared, not
/// restored.
pub proof fn lemma_sequence_anchor_restored(
    items: Seq<Data>,
    children: Seq<Token>,
    stack: Seq<Data>,
    st: RState,
    env: SpecEnv,
    orc: Seq<Expansion>,
    fuel: nat,
)
    requires
        st.at == Seq::<char>::empty(),
    ensures
        render_items(items, children, stack, st, env, orc, fuel) matches Rendered::Done {
            out,
            st: st2,
            rest,
        } ==> st2.at == st.at,
    decreases items.len(),
{
    if items.len() > 0 {
        lemma_sequence_anchor_restored(items.drop_last(), children, stack, st, env, orc, fuel);
    }
}

/// Law (partial indentation is scoped): a found partial renders its tokens
/// under the active prefix extended by its per-occurrence indentation, and
/// the prefix reverts to the caller's exactly when the partial returns.
pub proof fn lemma_partial_indent_scope(
    name: Seq<char>,
    pindent: Seq<char>,
    stack: Seq<Data>,
    st: RState,
    env: SpecEnv,
    orc: Seq<Expansion>,
    fuel: nat,
)
    requires
        partial_lookup(env.partials, name) is Some,
        fuel > 0,
    ensures
        render_partial_s(name, pindent, stack, st, env, orc, fuel) == (match render_toks(
            partial_lookup(env.partials, name)->Some_0@,
            stack,
            RState { indent: st.indent + pindent, ..st },
            env,
            orc,
            (fuel - 1) as nat,
        ) {
            Rendered::Done { out, st: s2, rest } => Rendered::Done {
                out,
                st: RState { indent: st.indent, ..s2 },
                rest,
            },
            Rendered::Fail { err } => Rendered::Fail { err },
        }),
{
}

/// Law (partial indentation composes): a partial entered from inside
/// another runs its tokens under the outer prefix, then the outer partial's
/// indentation, then its own — and returning reverts to the outer prefix
/// and the outer partial's indentation alone.
pub proof fn lemma_partial_indent_composes(
    inner: Seq<char>,
    pind_inner: Seq<char>,
    pind_outer: Seq<char>,
    stack: Seq<Data>,
    st: RState,
    env: SpecEnv,
    orc: Seq<Expansion>,
    fuel: nat,
)
    requires
        partial_lookup(env.partials, inner) is Some,
        fuel > 0,
    ensures
        render_partial_s(
            inner,
            pind_inner,
            stack,
            RState { indent: st.indent + pind_outer, ..st },
            env,
            orc,
            fuel,
        ) == (match render_toks(
            partial_lookup(env.partials, inner)->Some_0@,
            stack,
            RState { indent: (st.indent + pind_outer) + pind_inner, ..st },
            env,
            orc,
            (fuel - 1) as nat,
        ) {
            Rendered::Done { out, st: s2, rest } => Rendered::Done {
                out,
                st: RState { indent: st.indent + pind_outer, ..s2 },
                rest,
            },
            Rendered::Fail { err } => Rendered::Fail { err },
        }),
{
    lemma_partial_indent_scope(
        inner,
        pind_inner,
        stack,
        RState { indent: st.indent + pind_outer, ..st },
        env,
        orc,
        fuel,
    );
}

/// Law (producers replace section children): a section whose value resolves
/// to a producer invokes that producer with the section's captured raw
/// source, compiles the output under the section's own delimiter pair, and
/// renders the compiled tokens against the unchanged stack; the section's
/// static children never render, so any two children lists give the same
/// result, and an outcome recorded for any other source or delimiters is
/// not accepted.
pub proof fn lemma_lambda_replaces_children(
    p: Vec<String>,
    children1: Vec<Token>,
    children2: Vec<Token>,
    otag: Seq<char>,
    ctag: Seq<char>,
    raw: Seq<char>,
    stack: Seq<Data>,
    st: RState,
    env: SpecEnv,
    orc: Seq<Expansion>,
    fuel: nat,
)
    requires
        resolve(p@, stack) matches Some(v) && v is Fun,
    ensures
        render_section_s(p@, children1@, otag, ctag, raw, stack, st, env, orc, fuel)
            == expand_spec(raw, otag, ctag, stack, st, env, orc, fuel),
        render_section_s(p@, children1@, otag, ctag, raw, stack, st, env, orc, fuel)
            == render_section_s(p@, children2@, otag, ctag, raw, stack, st, env, orc, fuel),
        fuel > 0 && orc.len() > 0 && orc[0] is Expanded && expansion_for(orc[0], raw, otag, ctag)
            ==> render_section_s(p@, children1@, otag, ctag, raw, stack, st, env, orc, fuel)
            == render_toks(
            expansion_toks(orc[0]),
            stack,
            st,
            env,
            orc.skip(1),
            (fuel - 1) as nat,
        ),
        fuel > 0 && orc.len() > 0 && orc[0] is Failed && expansion_for(orc[0], raw, otag, ctag)
            ==> render_section_s(p@, children1@, otag, ctag, raw, stack, st, env, orc, fuel) == (
        Rendered::Fail { err: expansion_err(orc[0]) }),
        (fuel > 0 && orc.len() > 0 && !expansion_for(orc[0], raw, otag, ctag))
            ==> render_section_s(p@, children1@, otag, ctag, raw, stack, st, env, orc, fuel) == (
        Rendered::Fail { err: crate::Error::TooDeep }),
{
}

} // verus!
