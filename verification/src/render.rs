//! The render engine: a compiled template walked against a value.
//!
//! Each function agrees with the corresponding semantics function of
//! [`crate::semantics`]: it returns the sequence of producer-expansion
//! outcomes it consumed, and its effect on the output, the render state and
//! the stack is exactly what the semantics gives for that sequence.

use vstd::prelude::*;
use crate::data::{Data, map_lookup, map_get, Producer, producer_invoke};
use crate::token::{Token, tok_size, toks_size, tokens_have_at, seq_has_at, lemma_tok_elem_size};
use crate::semantics::{RState, SpecEnv, Expansion, Rendered, render_toks, render_tok, render_utag_s, render_json_s, render_inverted_s, render_section_s, render_partial_s, render_items, render_entries, render_top, expand_spec, expansion_for, default_otag, default_ctag, resolve, falsy, partial_lookup, wtn_line_start, ind_of, first_nl, line_len, text_out, is_top_path, top_chars, views, agrees, lemma_toks_fail, lemma_items_fail, lemma_entries_fail, lemma_top_fail};
use crate::json::{json_append, json_chars, sp_indent, push_bool, bool_chars};
use crate::escape::{escape_append, escape_html};
use crate::util::{push_all, push_str_chars, str_chars, chars_to_string, u64_dec_chars, dec_digits};
use crate::compile::compile_tokens;
use crate::token::toks_complete;
use crate::Error;

verus! {

/// How many producer expansions and partial entries one render call may
/// nest before it fails with [`Error::TooDeep`]: producer output can
/// reference itself without bound, so a budget is the caller-level bound
/// this engine applies.
pub const EXPANSION_LIMIT: u32 = 64;

/// A compiled template: its root token list and its named partials, plus
/// whether the structured-data extension drives mapping sections with an
/// anchor into entry iteration.
pub struct Template {
    pub tokens: Vec<Token>,
    pub partials: Vec<(String, Vec<Token>)>,
    pub extended: bool,
}

impl Template {
    /// The environment that rendering this template reads.
    pub open spec fn env(&self) -> SpecEnv {
        SpecEnv { partials: self.partials@, ext: self.extended }
    }

    /// The template's root token list.
    pub open spec fn spec_tokens(&self) -> Seq<Token> {
        self.tokens@
    }
}

/// Constructs a `Template` from compiled tokens, named partials, and the
/// extension switch.
pub fn new(tokens: Vec<Token>, partials: Vec<(String, Vec<Token>)>, extended: bool) -> (t:
    Template)
    ensures
        t.spec_tokens() == tokens@,
        t.env() == (SpecEnv { partials: partials@, ext: extended }),
{
    Template { tokens, partials, extended }
}

/// The initial render state: no indentation, at a line start, no anchor.
pub open spec fn init_rstate() -> RState {
    RState { indent: Seq::empty(), line_start: true, at: Seq::empty() }
}

proof fn lemma_views_push(s: Seq<&Data>, x: &Data)
    ensures
        views(s.push(x)) == views(s).push(*x),
{
    assert(views(s.push(x)) =~= views(s).push(*x));
}

proof fn lemma_views_drop_last(s: Seq<&Data>)
    requires
        s.len() > 0,
    ensures
        views(s.drop_last()) == views(s).drop_last(),
{
    assert(views(s.drop_last()) =~= views(s).drop_last());
}

fn push_range(out: &mut Vec<char>, s: &Vec<char>, a: usize, b: usize)
    requires
        a <= b <= s@.len(),
    ensures
        final(out)@ == old(out)@ + s@.subrange(a as int, b as int),
{
    let mut k = a;
    while k < b
        invariant
            a <= k <= b <= s@.len(),
            out@ == old(out)@ + s@.subrange(a as int, k as int),
        decreases b - k,
    {
        out.push(s[k]);
        proof {
            assert(old(out)@ + s@.subrange(a as int, k as int) + seq![s@[k as int]] =~= old(out)@
                + s@.subrange(a as int, k + 1));
        }
        k = k + 1;
    }
    proof {
        assert(s@.subrange(a as int, a as int) =~= Seq::<char>::empty());
    }
}

proof fn lemma_first_nl_at(v: Seq<char>, m: int)
    requires
        0 <= m <= v.len(),
        forall|k: int| 0 <= k < m ==> v[k] != '\n',
        m < v.len() ==> v[m] == '\n',
    ensures
        first_nl(v) == m,
    decreases m,
{
    if m == 0 {
    } else {
        assert(v[0] != '\n');
        lemma_first_nl_at(v.drop_first(), m - 1);
    }
}

/// Position of the first newline at or after `from`, or the length.
fn find_nl(chars: &Vec<char>, from: usize) -> (r: usize)
    requires
        from <= chars@.len(),
    ensures
        from <= r <= chars@.len(),
        forall|k: int| from <= k < r ==> chars@[k] != '\n',
        r < chars@.len() ==> chars@[r as int] == '\n',
{
    let n = chars.len();
    let mut j = from;
    while j < n
        invariant
            from <= j <= n,
            n == chars@.len(),
            forall|k: int| from <= k < j ==> chars@[k] != '\n',
        decreases n - j,
    {
        if chars[j] == '\n' {
            return j;
        }
        j = j + 1;
    }
    j
}

/// A plain section renders nothing when its path is absent or resolves to
/// null, false, or empty text.
proof fn lemma_section_renders_nothing(
    p: Seq<String>,
    children: Seq<Token>,
    otag: Seq<char>,
    ctag: Seq<char>,
    raw: Seq<char>,
    stack: Seq<Data>,
    st: RState,
    env: SpecEnv,
    orc: Seq<Expansion>,
    fuel: nat,
)
    requires
        match resolve(p, stack) {
            None => true,
            Some(v) => match v {
                Data::Null => true,
                Data::Bool(b) => !b,
                Data::Str(sv) => sv@.len() == 0,
                _ => false,
            },
        },
    ensures
        render_section_s(p, children, otag, ctag, raw, stack, st, env, orc, fuel) == (
        Rendered::Done { out: Seq::<char>::empty(), st, rest: orc }),
{
}

/// Whether a path addresses the whole top-level context.
fn path_is_top(p: &Vec<String>) -> (r: bool)
    ensures
        r == is_top_path(p@),
{
    if p.len() == 0 {
        return false;
    }
    proof {
        reveal_strlit("-top-");
        assert("-top-"@ =~= top_chars());
    }
    crate::data::string_eq(p[0].as_str(), "-top-")
}

/// The named partial's token list.
fn partial_get<'t>(ps: &'t Vec<(String, Vec<Token>)>, name: &str) -> (r: Option<&'t Vec<Token>>)
    ensures
        match r {
            Some(v) => partial_lookup(ps@, name@) == Some(*v),
            None => partial_lookup(ps@, name@) is None,
        },
{
    let n = ps.len();
    let mut i: usize = 0;
    proof {
        assert(ps@.skip(0) =~= ps@);
    }
    while i < n
        invariant
            n == ps@.len(),
            i <= n,
            partial_lookup(ps@, name@) == partial_lookup(ps@.skip(i as int), name@),
        decreases n - i,
    {
        proof {
            assert(ps@.skip(i as int)[0] == ps@[i as int]);
            assert(ps@.skip(i as int).drop_first() =~= ps@.skip(i + 1));
        }
        if crate::data::string_eq(ps[i].0.as_str(), name) {
            return Some(&ps[i].1);
        }
        i = i + 1;
    }
    proof {
        assert(ps@.skip(i as int) =~= Seq::<(String, Vec<Token>)>::empty());
    }
    None
}

/// Path resolution against the stack of borrowed frames.
fn find<'c>(path: &Vec<String>, stack: &Vec<&'c Data>) -> (r: Option<&'c Data>)
    ensures
        match r {
            Some(v) => resolve(path@, views(stack@)) == Some(*v),
            None => resolve(path@, views(stack@)) is None,
        },
{
    let ghost sv = views(stack@);
    if path.len() == 0 {
        if stack.len() == 0 {
            return None;
        }
        let v: &Data = stack[stack.len() - 1];
        proof {
            assert(sv.last() == *v);
        }
        return Some(v);
    }
    // find the innermost mapping frame holding the first segment
    let key = &path[0];
    let mut j = stack.len();
    let mut base: Option<&Data> = None;
    proof {
        assert(sv.take(j as int) =~= sv);
    }
    while j > 0 && base.is_none()
        invariant
            path@.len() > 0,
            *key == path@[0],
            j <= stack@.len(),
            sv == views(stack@),
            match base {
                Some(b) => crate::semantics::find_base(path@[0]@, sv) == Some(*b),
                None => crate::semantics::find_base(path@[0]@, sv)
                    == crate::semantics::find_base(path@[0]@, sv.take(j as int)),
            },
        decreases j,
    {
        let frame: &Data = stack[j - 1];
        proof {
            assert(sv.take(j as int).last() == *frame);
            assert(sv.take(j as int).drop_last() =~= sv.take(j - 1));
        }
        match frame {
            Data::Obj(entries) => {
                match map_get(entries, key.as_str()) {
                    Some(v) => {
                        proof {
                            assert(map_lookup(entries@, path@[0]@) == Some(*v));
                            assert(crate::semantics::find_base(path@[0]@, sv.take(j as int))
                                == Some(*v));
                        }
                        base = Some(v);
                    },
                    None => {
                        assert(map_lookup(entries@, path@[0]@) is None);
                    },
                }
            },
            _ => {},
        }
        j = j - 1;
    }
    let mut cur: &Data = match base {
        Some(b) => b,
        None => {
            proof {
                if j == 0 {
                    assert(sv.take(0) =~= Seq::<Data>::empty());
                }
            }
            return None;
        },
    };
    // walk the remaining segments
    let ghost base0 = *cur;
    let mut k: usize = 1;
    while k < path.len()
        invariant
            1 <= k <= path@.len(),
            path@.len() > 0,
            sv == views(stack@),
            crate::semantics::find_base(path@[0]@, sv) == Some(base0),
            crate::semantics::walk(path@.skip(1), base0) == crate::semantics::walk(
                path@.skip(k as int),
                *cur,
            ),
        decreases path@.len() - k,
    {
        proof {
            assert(path@.skip(k as int)[0] == path@[k as int]);
            assert(path@.skip(k as int).skip(1) =~= path@.skip(k + 1));
        }
        match cur {
            Data::Obj(entries) => {
                match map_get(entries, path[k].as_str()) {
                    Some(v) => {
                        cur = v;
                    },
                    None => {
                        assert(crate::semantics::walk(path@.skip(k as int), *cur) is None);
                        return None;
                    },
                }
            },
            _ => {
                assert(crate::semantics::walk(path@.skip(k as int), *cur) is None);
                return None;
            },
        }
        k = k + 1;
    }
    proof {
        assert(path@.skip(k as int).len() == 0);
        assert(crate::semantics::walk(path@.skip(k as int), *cur) == Some(*cur));
    }
    Some(cur)
}

/// Per-render mutable state: the active indentation prefix, the line-start
/// flag, and the current iteration anchor.
struct RenderContext {
    indent: Vec<char>,
    line_start: bool,
    at: Vec<char>,
}

impl RenderContext {
    spec fn st(&self) -> RState {
        RState { indent: self.indent@, line_start: self.line_start, at: self.at@ }
    }

    fn new() -> (r: RenderContext)
        ensures
            r.st() == init_rstate(),
    {
        RenderContext { indent: Vec::new(), line_start: true, at: Vec::new() }
    }

    /// Writes `value` and tracks whether the output now sits at a line start.
    fn write_tracking_newlines(&mut self, out: &mut Vec<char>, value: &Vec<char>)
        ensures
            final(out)@ == old(out)@ + value@,
            final(self).st() == (RState {
                line_start: wtn_line_start(value@, old(self).st().line_start),
                ..old(self).st()
            }),
    {
        push_all(out, value);
        if value.len() > 0 {
            self.line_start = value[value.len() - 1] == '\n';
        }
    }

    /// Writes the indentation prefix when at a line start; the flag itself
    /// is left alone.
    fn write_indent(&mut self, out: &mut Vec<char>)
        ensures
            final(out)@ == old(out)@ + ind_of(old(self).st()),
            final(self).st() == old(self).st(),
    {
        if self.line_start {
            push_all(out, &self.indent);
        }
    }

    /// Writes the current anchor, if any.
    fn render_at(&mut self, out: &mut Vec<char>)
        ensures
            final(out)@ == old(out)@ + old(self).st().at,
            final(self).st() == (RState {
                line_start: wtn_line_start(old(self).st().at, old(self).st().line_start),
                ..old(self).st()
            }),
    {
        if self.at.len() > 0 {
            push_all(out, &self.at);
            self.line_start = self.at[self.at.len() - 1] == '\n';
        }
    }

    /// Writes literal text, indenting each line that starts fresh.
    #[verifier::rlimit(60)]
    fn render_text(&mut self, out: &mut Vec<char>, value: &str)
        ensures
            final(out)@ == old(out)@ + text_out(
                value@,
                old(self).st().indent,
                old(self).st().line_start,
            ),
            final(self).st() == (RState {
                line_start: wtn_line_start(value@, old(self).st().line_start),
                ..old(self).st()
            }),
    {
        let chars = str_chars(value);
        let n = chars.len();
        let mut pos: usize = 0;
        let ghost ind = self.st().indent;
        let ghost ls0 = self.st().line_start;
        proof {
            assert(chars@.skip(0) =~= chars@);
            assert(chars@.take(0) =~= Seq::<char>::empty());
        }
        while pos < n
            invariant
                n == chars@.len(),
                chars@ == value@,
                pos <= n,
                ind == old(self).st().indent,
                ls0 == old(self).st().line_start,
                self.st().indent == ind,
                self.st().at == old(self).st().at,
                self.st().line_start == wtn_line_start(chars@.take(pos as int), ls0),
                old(out)@ + text_out(chars@, ind, ls0) == out@ + text_out(
                    chars@.skip(pos as int),
                    ind,
                    self.st().line_start,
                ),
            decreases n - pos,
        {
            // find the end of the current logical line
            let j = find_nl(&chars, pos);
            let line_end: usize = if j < n {
                j + 1
            } else {
                n
            };
            let ghost tail = chars@.skip(pos as int);
            proof {
                assert forall|k: int| 0 <= k < j - pos implies tail[k] != '\n' by {
                    assert(tail[k] == chars@[pos + k]);
                }
                if j < n {
                    assert(tail[j - pos] == chars@[j as int]);
                }
                lemma_first_nl_at(tail, j - pos);
                assert(line_len(tail) == line_end - pos);
                assert(tail.len() > 0);
                assert(tail[0] == chars@[pos as int]);
            }
            if chars[pos] != '\n' {
                self.write_indent(out);
            }
            let ghost mid = out@;
            push_range(out, &chars, pos, line_end);
            self.line_start = chars[line_end - 1] == '\n';
            proof {
                let ll = (line_end - pos) as int;
                assert(tail.take(ll) =~= chars@.subrange(pos as int, line_end as int));
                assert(tail.take(ll).last() == chars@[line_end - 1]);
                assert(tail.skip(ll) =~= chars@.skip(line_end as int));
                assert(chars@.take(line_end as int).len() > 0);
                assert(chars@.take(line_end as int).last() == chars@[line_end - 1]);
                assert(out@ + text_out(chars@.skip(line_end as int), ind, self.st().line_start)
                    =~= old(out)@ + text_out(chars@, ind, ls0));
            }
            pos = line_end;
        }
        proof {
            assert(chars@.skip(pos as int) =~= Seq::<char>::empty());
            assert(chars@.take(pos as int) =~= chars@);
            assert(out@ =~= old(out)@ + text_out(chars@, ind, ls0));
        }
    }

    /// Invokes a producer with exactly `src` and compiles its output under
    /// exactly `otag` and `ctag`; reports the expansion outcome it stands
    /// for, the invocation input recorded in it.
    fn render_fun(&self, src: &str, otag: &str, ctag: &str, p: &Producer) -> (res: (
        Result<Vec<Token>, Error>,
        Ghost<Expansion>,
    ))
        ensures
            match res.0 {
                Ok(toks) => res.1@ == (Expansion::Expanded {
                    src: src@,
                    otag: otag@,
                    ctag: ctag@,
                    toks: toks@,
                }),
                Err(e) => res.1@ == (Expansion::Failed {
                    src: src@,
                    otag: otag@,
                    ctag: ctag@,
                    err: e,
                }),
            },
    {
        match producer_invoke(p, src.to_owned()) {
            None => (
                Err(Error::ProducerBusy),
                Ghost(
                    Expansion::Failed {
                        src: src@,
                        otag: otag@,
                        ctag: ctag@,
                        err: Error::ProducerBusy,
                    },
                ),
            ),
            Some(produced) => match compile_tokens(produced.as_str(), otag, ctag) {
                Ok(toks) => {
                    let ghost x = Expansion::Expanded {
                        src: src@,
                        otag: otag@,
                        ctag: ctag@,
                        toks: toks@,
                    };
                    (Ok(toks), Ghost(x))
                },
                Err(e) => (
                    Err(e),
                    Ghost(Expansion::Failed { src: src@, otag: otag@, ctag: ctag@, err: e }),
                ),
            },
        }
    }
}

impl RenderContext {
    /// Renders a token list, front to back.
    fn render<'c>(
        &mut self,
        t: &Template,
        out: &mut Vec<char>,
        stack: &mut Vec<&'c Data>,
        tokens: &Vec<Token>,
        fuel: u32,
    ) -> (res: (Result<(), Error>, Ghost<Seq<Expansion>>))
        ensures
            forall|ext: Seq<Expansion>|
                agrees(
                    #[trigger] render_toks(
                        tokens@,
                        views(old(stack)@),
                        old(self).st(),
                        t.env(),
                        res.1@ + ext,
                        fuel as nat,
                    ),
                    res.0,
                    old(out)@,
                    final(out)@,
                    final(self).st(),
                    views(old(stack)@),
                    views(final(stack)@),
                    ext,
                ),
        decreases fuel, toks_size(tokens@), 0nat, 0nat,
    {
        let ghost sv0 = views(stack@);
        let ghost st0 = self.st();
        let ghost out0 = out@;
        let ghost env = t.env();
        let mut log: Ghost<Seq<Expansion>> = Ghost(Seq::empty());
        let mut i: usize = 0;
        proof {
            assert forall|ext: Seq<Expansion>|
                agrees(
                    #[trigger] render_toks(
                        tokens@.take(0),
                        sv0,
                        st0,
                        env,
                        log@ + ext,
                        fuel as nat,
                    ),
                    Result::<(), Error>::Ok(()),
                    out0,
                    out@,
                    self.st(),
                    sv0,
                    views(stack@),
                    ext,
                ) by {
                assert(tokens@.take(0) =~= Seq::<Token>::empty());
                assert(log@ + ext =~= ext);
                assert(out@ =~= out0 + Seq::<char>::empty());
            }
        }
        while i < tokens.len()
            invariant
                i <= tokens@.len(),
                sv0 == views(old(stack)@),
                st0 == old(self).st(),
                out0 == old(out)@,
                env == t.env(),
                views(stack@) == sv0,
                forall|ext: Seq<Expansion>|
                    agrees(
                        #[trigger] render_toks(
                            tokens@.take(i as int),
                            sv0,
                            st0,
                            env,
                            log@ + ext,
                            fuel as nat,
                        ),
                        Result::<(), Error>::Ok(()),
                        out0,
                        out@,
                        self.st(),
                        sv0,
                        views(stack@),
                        ext,
                    ),
            decreases tokens@.len() - i,
        {
            let ghost st_i = self.st();
            let ghost out_i = out@;
            let ghost log_i = log@;
            proof {
                lemma_tok_elem_size(tokens@, i as int);
            }
            let (r, sub) = self.render_token(t, out, stack, &tokens[i], fuel);
            proof {
                assert(tokens@.take(i + 1).drop_last() =~= tokens@.take(i as int));
                assert(tokens@.take(i + 1).last() == tokens@[i as int]);
            }
            match r {
                Ok(()) => {
                    proof {
                        let stp0 = render_tok(
                            tokens@[i as int],
                            sv0,
                            st_i,
                            env,
                            sub@ + Seq::<Expansion>::empty(),
                            fuel as nat,
                        );
                        match stp0 {
                            Rendered::Done { out: o, st: s2, rest } => {},
                            Rendered::Fail { err } => {},
                        }
                        assert forall|ext: Seq<Expansion>|
                            agrees(
                                #[trigger] render_toks(
                                    tokens@.take(i + 1),
                                    sv0,
                                    st0,
                                    env,
                                    (log_i + sub@) + ext,
                                    fuel as nat,
                                ),
                                Result::<(), Error>::Ok(()),
                                out0,
                                out@,
                                self.st(),
                                sv0,
                                views(stack@),
                                ext,
                            ) by {
                            assert((log_i + sub@) + ext =~= log_i + (sub@ + ext));
                            let pre = render_toks(
                                tokens@.take(i as int),
                                sv0,
                                st0,
                                env,
                                log_i + (sub@ + ext),
                                fuel as nat,
                            );
                            let stp = render_tok(
                                tokens@[i as int],
                                sv0,
                                st_i,
                                env,
                                sub@ + ext,
                                fuel as nat,
                            );
                            match pre {
                                Rendered::Done { out: o1, st: s1, rest: r1 } => {
                                    match stp {
                                        Rendered::Done { out: o2, st: s2, rest: r2 } => {
                                            assert(out@ =~= out0 + (o1 + o2));
                                        },
                                        Rendered::Fail { err } => {},
                                    }
                                },
                                Rendered::Fail { err } => {},
                            }
                        }
                    }
                    log = Ghost(log_i + sub@);
                    i = i + 1;
                },
                Err(e) => {
                    proof {
                        assert forall|ext: Seq<Expansion>|
                            agrees(
                                #[trigger] render_toks(
                                    tokens@,
                                    sv0,
                                    st0,
                                    env,
                                    (log_i + sub@) + ext,
                                    fuel as nat,
                                ),
                                Result::<(), Error>::Err(e),
                                out0,
                                out@,
                                self.st(),
                                sv0,
                                views(stack@),
                                ext,
                            ) by {
                            assert((log_i + sub@) + ext =~= log_i + (sub@ + ext));
                            let pre = render_toks(
                                tokens@.take(i as int),
                                sv0,
                                st0,
                                env,
                                log_i + (sub@ + ext),
                                fuel as nat,
                            );
                            let stp = render_tok(
                                tokens@[i as int],
                                sv0,
                                st_i,
                                env,
                                sub@ + ext,
                                fuel as nat,
                            );
                            match pre {
                                Rendered::Done { out: o1, st: s1, rest: r1 } => {
                                    match stp {
                                        Rendered::Done { out: o2, st: s2, rest: r2 } => {},
                                        Rendered::Fail { err } => {
                                            assert(render_toks(
                                                tokens@.take(i + 1),
                                                sv0,
                                                st0,
                                                env,
                                                log_i + (sub@ + ext),
                                                fuel as nat,
                                            ) is Fail);
                                            lemma_toks_fail(
                                                tokens@,
                                                i + 1,
                                                sv0,
                                                st0,
                                                env,
                                                log_i + (sub@ + ext),
                                                fuel as nat,
                                            );
                                        },
                                    }
                                },
                                Rendered::Fail { err } => {},
                            }
                        }
                    }
                    return (Err(e), Ghost(log_i + sub@));
                },
            }
        }
        proof {
            assert(tokens@.take(tokens@.len() as int) =~= tokens@);
        }
        (Ok(()), log)
    }

    /// Renders one token, by kind.
    fn render_token<'c>(
        &mut self,
        t: &Template,
        out: &mut Vec<char>,
        stack: &mut Vec<&'c Data>,
        token: &Token,
        fuel: u32,
    ) -> (res: (Result<(), Error>, Ghost<Seq<Expansion>>))
        ensures
            forall|ext: Seq<Expansion>|
                agrees(
                    #[trigger] render_tok(
                        *token,
                        views(old(stack)@),
                        old(self).st(),
                        t.env(),
                        res.1@ + ext,
                        fuel as nat,
                    ),
                    res.0,
                    old(out)@,
                    final(out)@,
                    final(self).st(),
                    views(old(stack)@),
                    views(final(stack)@),
                    ext,
                ),
        decreases fuel, tok_size(*token), 3nat, 0nat,
    {
        let ghost sv0 = views(stack@);
        let ghost st0 = self.st();
        let ghost out0 = out@;
        let ghost env = t.env();
        match token {
            Token::Text(s) => {
                self.render_text(out, s.as_str());
                proof {
                    assert forall|ext: Seq<Expansion>|
                        agrees(
                            #[trigger] render_tok(
                                *token,
                                sv0,
                                st0,
                                env,
                                Seq::<Expansion>::empty() + ext,
                                fuel as nat,
                            ),
                            Result::<(), Error>::Ok(()),
                            out0,
                            out@,
                            self.st(),
                            sv0,
                            views(stack@),
                            ext,
                        ) by {
                        assert(Seq::<Expansion>::empty() + ext =~= ext);
                    }
                }
                (Ok(()), Ghost(Seq::empty()))
            },
            Token::At => {
                self.render_at(out);
                proof {
                    assert forall|ext: Seq<Expansion>|
                        agrees(
                            #[trigger] render_tok(
                                *token,
                                sv0,
                                st0,
                                env,
                                Seq::<Expansion>::empty() + ext,
                                fuel as nat,
                            ),
                            Result::<(), Error>::Ok(()),
                            out0,
                            out@,
                            self.st(),
                            sv0,
                            views(stack@),
                            ext,
                        ) by {
                        assert(Seq::<Expansion>::empty() + ext =~= ext);
                    }
                }
                (Ok(()), Ghost(Seq::empty()))
            },
            Token::Incomplete => {
                proof {
                    assert forall|ext: Seq<Expansion>|
                        agrees(
                            #[trigger] render_tok(
                                *token,
                                sv0,
                                st0,
                                env,
                                Seq::<Expansion>::empty() + ext,
                                fuel as nat,
                            ),
                            Result::<(), Error>::Err(Error::IncompleteSection),
                            out0,
                            out@,
                            self.st(),
                            sv0,
                            views(stack@),
                            ext,
                        ) by {
                        assert(Seq::<Expansion>::empty() + ext =~= ext);
                    }
                }
                (Err(Error::IncompleteSection), Ghost(Seq::empty()))
            },
            Token::UnescapedTag(p) => {
                let res = self.render_utag(t, out, stack, p, fuel);
                proof {
                    assert forall|ext: Seq<Expansion>|
                        agrees(
                            #[trigger] render_tok(*token, sv0, st0, env, res.1@ + ext, fuel as nat),
                            res.0,
                            out0,
                            out@,
                            self.st(),
                            sv0,
                            views(stack@),
                            ext,
                        ) by {
                        assert(render_tok(*token, sv0, st0, env, res.1@ + ext, fuel as nat)
                            == render_utag_s(p@, sv0, st0, env, res.1@ + ext, fuel as nat));
                    }
                }
                res
            },
            Token::EscapedTag(p) => {
                let res = self.render_etag(t, out, stack, p, fuel);
                proof {
                    assert forall|ext: Seq<Expansion>|
                        agrees(
                            #[trigger] render_tok(*token, sv0, st0, env, res.1@ + ext, fuel as nat),
                            res.0,
                            out0,
                            out@,
                            self.st(),
                            sv0,
                            views(stack@),
                            ext,
                        ) by {
                        let sr = render_utag_s(p@, sv0, st0, env, res.1@ + ext, fuel as nat);
                        match sr {
                            Rendered::Done { out: o, st: s2, rest } => {},
                            Rendered::Fail { err } => {},
                        }
                    }
                }
                res
            },
            Token::Json(p, pretty) => {
                let res = self.render_json(t, out, stack, p, *pretty, fuel);
                proof {
                    assert forall|ext: Seq<Expansion>|
                        agrees(
                            #[trigger] render_tok(*token, sv0, st0, env, res.1@ + ext, fuel as nat),
                            res.0,
                            out0,
                            out@,
                            self.st(),
                            sv0,
                            views(stack@),
                            ext,
                        ) by {
                        assert(render_tok(*token, sv0, st0, env, res.1@ + ext, fuel as nat)
                            == render_json_s(p@, *pretty, sv0, st0, env, res.1@ + ext, fuel as nat));
                    }
                }
                res
            },
            Token::Section(p, inverted, children, otag, ctag, src) => {
                if *inverted {
                    let res = self.render_inverted_section(t, out, stack, p, children, fuel);
                    proof {
                        assert forall|ext: Seq<Expansion>|
                            agrees(
                                #[trigger] render_tok(
                                    *token,
                                    sv0,
                                    st0,
                                    env,
                                    res.1@ + ext,
                                    fuel as nat,
                                ),
                                res.0,
                                out0,
                                out@,
                                self.st(),
                                sv0,
                                views(stack@),
                                ext,
                            ) by {
                            assert(render_tok(*token, sv0, st0, env, res.1@ + ext, fuel as nat)
                                == render_inverted_s(
                                p@,
                                children@,
                                sv0,
                                st0,
                                env,
                                res.1@ + ext,
                                fuel as nat,
                            ));
                        }
                    }
                    res
                } else {
                    let res = self.render_section(t, out, stack, p, children, otag, src, ctag, fuel);
                    proof {
                        assert forall|ext: Seq<Expansion>|
                            agrees(
                                #[trigger] render_tok(
                                    *token,
                                    sv0,
                                    st0,
                                    env,
                                    res.1@ + ext,
                                    fuel as nat,
                                ),
                                res.0,
                                out0,
                                out@,
                                self.st(),
                                sv0,
                                views(stack@),
                                ext,
                            ) by {
                            assert(render_tok(*token, sv0, st0, env, res.1@ + ext, fuel as nat)
                                == render_section_s(
                                p@,
                                children@,
                                otag@,
                                ctag@,
                                src@,
                                sv0,
                                st0,
                                env,
                                res.1@ + ext,
                                fuel as nat,
                            ));
                        }
                    }
                    res
                }
            },
            Token::Partial(name, pindent) => {
                let res = self.render_partial(t, out, stack, name, pindent, fuel);
                proof {
                    assert forall|ext: Seq<Expansion>|
                        agrees(
                            #[trigger] render_tok(*token, sv0, st0, env, res.1@ + ext, fuel as nat),
                            res.0,
                            out0,
                            out@,
                            self.st(),
                            sv0,
                            views(stack@),
                            ext,
                        ) by {
                        assert(render_tok(*token, sv0, st0, env, res.1@ + ext, fuel as nat)
                            == render_partial_s(
                            name@,
                            pindent@,
                            sv0,
                            st0,
                            env,
                            res.1@ + ext,
                            fuel as nat,
                        ));
                    }
                }
                res
            },
            Token::TopSection(children) => {
                let res = self.render_section_top(t, out, stack, children, fuel);
                proof {
                    assert forall|ext: Seq<Expansion>|
                        agrees(
                            #[trigger] render_tok(*token, sv0, st0, env, res.1@ + ext, fuel as nat),
                            res.0,
                            out0,
                            out@,
                            self.st(),
                            sv0,
                            views(stack@),
                            ext,
                        ) by {
                        assert(render_tok(*token, sv0, st0, env, res.1@ + ext, fuel as nat)
                            == render_top(
                            sv0,
                            children@,
                            sv0,
                            st0,
                            env,
                            res.1@ + ext,
                            fuel as nat,
                        ));
                    }
                }
                res
            },
        }
    }

    /// Invokes a producer with exactly `src`, compiles its output under
    /// exactly `otag` and `ctag`, and renders the compiled tokens against
    /// the unchanged stack.
    fn render_expansion<'c>(
        &mut self,
        t: &Template,
        out: &mut Vec<char>,
        stack: &mut Vec<&'c Data>,
        src: &str,
        otag: &str,
        ctag: &str,
        p: &Producer,
        fuel: u32,
    ) -> (res: (Result<(), Error>, Ghost<Seq<Expansion>>))
        ensures
            forall|ext: Seq<Expansion>|
                agrees(
                    #[trigger] expand_spec(
                        src@,
                        otag@,
                        ctag@,
                        views(old(stack)@),
                        old(self).st(),
                        t.env(),
                        res.1@ + ext,
                        fuel as nat,
                    ),
                    res.0,
                    old(out)@,
                    final(out)@,
                    final(self).st(),
                    views(old(stack)@),
                    views(final(stack)@),
                    ext,
                ),
        decreases fuel, 0nat, 3nat, 0nat,
    {
        let ghost sv0 = views(stack@);
        let ghost st0 = self.st();
        let ghost out0 = out@;
        let ghost env = t.env();
        if fuel == 0 {
            proof {
                assert forall|ext: Seq<Expansion>|
                    agrees(
                        #[trigger] expand_spec(
                            src@,
                            otag@,
                            ctag@,
                            sv0,
                            st0,
                            env,
                            Seq::<Expansion>::empty() + ext,
                            fuel as nat,
                        ),
                        Result::<(), Error>::Err(Error::TooDeep),
                        out0,
                        out@,
                        self.st(),
                        sv0,
                        views(stack@),
                        ext,
                    ) by {}
            }
            return (Err(Error::TooDeep), Ghost(Seq::empty()));
        }
        let (rf, x) = self.render_fun(src, otag, ctag, p);
        match rf {
            Err(e) => {
                proof {
                    assert forall|ext: Seq<Expansion>|
                        agrees(
                            #[trigger] expand_spec(src@, otag@, ctag@, sv0, st0, env, seq![x@] + ext, fuel as nat),
                            Result::<(), Error>::Err(e),
                            out0,
                            out@,
                            self.st(),
                            sv0,
                            views(stack@),
                            ext,
                        ) by {
                        assert((seq![x@] + ext)[0] == x@);
                        assert(expansion_for(x@, src@, otag@, ctag@));
                    }
                }
                let ghost flog: Seq<Expansion> = seq![x@];
                (Err(e), Ghost(flog))
            },
            Ok(toks) => {
                let (r2, log2) = self.render(t, out, stack, &toks, fuel - 1);
                let ghost log = seq![x@] + log2@;
                proof {
                    assert forall|ext: Seq<Expansion>|
                        agrees(
                            #[trigger] expand_spec(src@, otag@, ctag@, sv0, st0, env, log + ext, fuel as nat),
                            r2,
                            out0,
                            out@,
                            self.st(),
                            sv0,
                            views(stack@),
                            ext,
                        ) by {
                        assert((log + ext)[0] == x@);
                        assert(expansion_for(x@, src@, otag@, ctag@));
                        assert((log + ext).skip(1) =~= log2@ + ext);
                        assert((fuel - 1) as nat == (fuel as nat - 1) as nat);
                        let stp = render_toks(
                            toks@,
                            sv0,
                            st0,
                            env,
                            log2@ + ext,
                            (fuel - 1) as nat,
                        );
                        match stp {
                            Rendered::Done { out: o, st: s2, rest } => {},
                            Rendered::Fail { err } => {},
                        }
                    }
                }
                (r2, Ghost(log))
            },
        }
    }

    /// Renders an unescaped tag.
    fn render_utag<'c>(
        &mut self,
        t: &Template,
        out: &mut Vec<char>,
        stack: &mut Vec<&'c Data>,
        path: &Vec<String>,
        fuel: u32,
    ) -> (res: (Result<(), Error>, Ghost<Seq<Expansion>>))
        ensures
            forall|ext: Seq<Expansion>|
                agrees(
                    #[trigger] render_utag_s(
                        path@,
                        views(old(stack)@),
                        old(self).st(),
                        t.env(),
                        res.1@ + ext,
                        fuel as nat,
                    ),
                    res.0,
                    old(out)@,
                    final(out)@,
                    final(self).st(),
                    views(old(stack)@),
                    views(final(stack)@),
                    ext,
                ),
        decreases fuel, 1nat, 1nat, 0nat,
    {
        let ghost sv0 = views(stack@);
        let ghost st0 = self.st();
        let ghost out0 = out@;
        let ghost env = t.env();
        match find(path, stack) {
            None => {
                proof {
                    assert forall|ext: Seq<Expansion>|
                        agrees(
                            #[trigger] render_utag_s(
                                path@,
                                sv0,
                                st0,
                                env,
                                Seq::<Expansion>::empty() + ext,
                                fuel as nat,
                            ),
                            Result::<(), Error>::Ok(()),
                            out0,
                            out@,
                            self.st(),
                            sv0,
                            views(stack@),
                            ext,
                        ) by {
                        assert(Seq::<Expansion>::empty() + ext =~= ext);
                        assert(out@ =~= out0 + Seq::<char>::empty());
                    }
                }
                (Ok(()), Ghost(Seq::empty()))
            },
            Some(value) => {
                self.write_indent(out);
                match value {
                    Data::Str(sv) => {
                        let cs = str_chars(sv.as_str());
                        self.write_tracking_newlines(out, &cs);
                        proof {
                            assert forall|ext: Seq<Expansion>|
                                agrees(
                                    #[trigger] render_utag_s(
                                        path@,
                                        sv0,
                                        st0,
                                        env,
                                        Seq::<Expansion>::empty() + ext,
                                        fuel as nat,
                                    ),
                                    Result::<(), Error>::Ok(()),
                                    out0,
                                    out@,
                                    self.st(),
                                    sv0,
                                    views(stack@),
                                    ext,
                                ) by {
                                assert(Seq::<Expansion>::empty() + ext =~= ext);
                                assert(out@ =~= out0 + (ind_of(st0) + sv@));
                            }
                        }
                        (Ok(()), Ghost(Seq::empty()))
                    },
                    Data::Bool(b) => {
                        let mut bv: Vec<char> = Vec::new();
                        push_bool(&mut bv, *b);
                        self.write_tracking_newlines(out, &bv);
                        proof {
                            assert forall|ext: Seq<Expansion>|
                                agrees(
                                    #[trigger] render_utag_s(
                                        path@,
                                        sv0,
                                        st0,
                                        env,
                                        Seq::<Expansion>::empty() + ext,
                                        fuel as nat,
                                    ),
                                    Result::<(), Error>::Ok(()),
                                    out0,
                                    out@,
                                    self.st(),
                                    sv0,
                                    views(stack@),
                                    ext,
                                ) by {
                                assert(Seq::<Expansion>::empty() + ext =~= ext);
                                assert(out@ =~= out0 + (ind_of(st0) + bool_chars(*b)));
                            }
                        }
                        (Ok(()), Ghost(Seq::empty()))
                    },
                    Data::Fun(p) => {
                        let res = self.render_expansion(t, out, stack, "", "{{", "}}", p, fuel);
                        proof {
                            reveal_strlit("");
                            reveal_strlit("{{");
                            reveal_strlit("}}");
                            assert(""@ =~= Seq::<char>::empty());
                            assert("{{"@ =~= default_otag());
                            assert("}}"@ =~= default_ctag());
                            assert forall|ext: Seq<Expansion>|
                                agrees(
                                    #[trigger] render_utag_s(
                                        path@,
                                        sv0,
                                        st0,
                                        env,
                                        res.1@ + ext,
                                        fuel as nat,
                                    ),
                                    res.0,
                                    out0,
                                    out@,
                                    self.st(),
                                    sv0,
                                    views(stack@),
                                    ext,
                                ) by {
                                let stp = expand_spec(
                                    Seq::empty(),
                                    default_otag(),
                                    default_ctag(),
                                    sv0,
                                    st0,
                                    env,
                                    res.1@ + ext,
                                    fuel as nat,
                                );
                                match stp {
                                    Rendered::Done { out: o, st: s2, rest } => {
                                        assert(out@ =~= out0 + (ind_of(st0) + o));
                                    },
                                    Rendered::Fail { err } => {},
                                }
                            }
                        }
                        res
                    },
                    _ => {
                        proof {
                            assert forall|ext: Seq<Expansion>|
                                agrees(
                                    #[trigger] render_utag_s(
                                        path@,
                                        sv0,
                                        st0,
                                        env,
                                        Seq::<Expansion>::empty() + ext,
                                        fuel as nat,
                                    ),
                                    Result::<(), Error>::Ok(()),
                                    out0,
                                    out@,
                                    self.st(),
                                    sv0,
                                    views(stack@),
                                    ext,
                                ) by {
                                assert(Seq::<Expansion>::empty() + ext =~= ext);
                            }
                        }
                        (Ok(()), Ghost(Seq::empty()))
                    },
                }
            },
        }
    }

    /// Renders an escaped tag: the unescaped rendering, HTML-escaped whole.
    fn render_etag<'c>(
        &mut self,
        t: &Template,
        out: &mut Vec<char>,
        stack: &mut Vec<&'c Data>,
        path: &Vec<String>,
        fuel: u32,
    ) -> (res: (Result<(), Error>, Ghost<Seq<Expansion>>))
        ensures
            forall|ext: Seq<Expansion>|
                #![trigger render_utag_s(path@, views(old(stack)@), old(self).st(), t.env(), res.1@ + ext, fuel as nat)]
                match render_utag_s(
                    path@,
                    views(old(stack)@),
                    old(self).st(),
                    t.env(),
                    res.1@ + ext,
                    fuel as nat,
                ) {
                    Rendered::Done { out: o, st: s2, rest } => res.0 is Ok && final(out)@ == old(
                        out,
                    )@ + escape_html(o) && final(self).st() == s2 && views(final(stack)@) == views(
                        old(stack)@,
                    ) && rest == ext,
                    Rendered::Fail { err } => res.0 == Result::<(), Error>::Err(err),
                },
        decreases fuel, 1nat, 2nat, 0nat,
    {
        let mut buf: Vec<char> = Vec::new();
        let (r, log) = self.render_utag(t, &mut buf, stack, path, fuel);
        match r {
            Ok(()) => {
                escape_append(out, &buf);
                (Ok(()), log)
            },
            Err(e) => (Err(e), log),
        }
    }

    /// Renders a structured-serialization tag.
    fn render_json<'c>(
        &mut self,
        t: &Template,
        out: &mut Vec<char>,
        stack: &mut Vec<&'c Data>,
        path: &Vec<String>,
        pretty: bool,
        fuel: u32,
    ) -> (res: (Result<(), Error>, Ghost<Seq<Expansion>>))
        ensures
            forall|ext: Seq<Expansion>|
                agrees(
                    #[trigger] render_json_s(
                        path@,
                        pretty,
                        views(old(stack)@),
                        old(self).st(),
                        t.env(),
                        res.1@ + ext,
                        fuel as nat,
                    ),
                    res.0,
                    old(out)@,
                    final(out)@,
                    final(self).st(),
                    views(old(stack)@),
                    views(final(stack)@),
                    ext,
                ),
        decreases fuel, 1nat, 1nat, 0nat,
    {
        let ghost sv0 = views(stack@);
        let ghost st0 = self.st();
        let ghost out0 = out@;
        let ghost env = t.env();
        if path_is_top(path) {
            if stack.len() > 0 {
                let root: &Data = stack[0];
                proof {
                    assert(sv0[0] == *root);
                    assert(sp_indent(0) =~= Seq::<char>::empty());
                }
                let ind0: Vec<char> = Vec::new();
                let mut jv: Vec<char> = Vec::new();
                json_append(&mut jv, root, pretty, &ind0, Ghost(0));
                self.write_tracking_newlines(out, &jv);
                proof {
                    assert(jv@ =~= json_chars(sv0[0], pretty, 0));
                }
            }
            proof {
                assert forall|ext: Seq<Expansion>|
                    agrees(
                        #[trigger] render_json_s(
                            path@,
                            pretty,
                            sv0,
                            st0,
                            env,
                            Seq::<Expansion>::empty() + ext,
                            fuel as nat,
                        ),
                        Result::<(), Error>::Ok(()),
                        out0,
                        out@,
                        self.st(),
                        sv0,
                        views(stack@),
                        ext,
                    ) by {
                    assert(Seq::<Expansion>::empty() + ext =~= ext);
                    if sv0.len() == 0 {
                        assert(out@ =~= out0 + Seq::<char>::empty());
                    }
                }
            }
            return (Ok(()), Ghost(Seq::empty()));
        }
        match find(path, stack) {
            None => {
                proof {
                    assert forall|ext: Seq<Expansion>|
                        agrees(
                            #[trigger] render_json_s(
                                path@,
                                pretty,
                                sv0,
                                st0,
                                env,
                                Seq::<Expansion>::empty() + ext,
                                fuel as nat,
                            ),
                            Result::<(), Error>::Ok(()),
                            out0,
                            out@,
                            self.st(),
                            sv0,
                            views(stack@),
                            ext,
                        ) by {
                        assert(Seq::<Expansion>::empty() + ext =~= ext);
                        assert(out@ =~= out0 + Seq::<char>::empty());
                    }
                }
                (Ok(()), Ghost(Seq::empty()))
            },
            Some(value) => {
                self.write_indent(out);
                match value {
                    Data::Null => {
                        proof {
                            assert forall|ext: Seq<Expansion>|
                                agrees(
                                    #[trigger] render_json_s(
                                        path@,
                                        pretty,
                                        sv0,
                                        st0,
                                        env,
                                        Seq::<Expansion>::empty() + ext,
                                        fuel as nat,
                                    ),
                                    Result::<(), Error>::Ok(()),
                                    out0,
                                    out@,
                                    self.st(),
                                    sv0,
                                    views(stack@),
                                    ext,
                                ) by {
                                assert(Seq::<Expansion>::empty() + ext =~= ext);
                            }
                        }
                        (Ok(()), Ghost(Seq::empty()))
                    },
                    Data::Str(sv) => {
                        let cs = str_chars(sv.as_str());
                        self.write_tracking_newlines(out, &cs);
                        proof {
                            assert forall|ext: Seq<Expansion>|
                                agrees(
                                    #[trigger] render_json_s(
                                        path@,
                                        pretty,
                                        sv0,
                                        st0,
                                        env,
                                        Seq::<Expansion>::empty() + ext,
                                        fuel as nat,
                                    ),
                                    Result::<(), Error>::Ok(()),
                                    out0,
                                    out@,
                                    self.st(),
                                    sv0,
                                    views(stack@),
                                    ext,
                                ) by {
                                assert(Seq::<Expansion>::empty() + ext =~= ext);
                                assert(out@ =~= out0 + (ind_of(st0) + sv@));
                            }
                        }
                        (Ok(()), Ghost(Seq::empty()))
                    },
                    Data::Bool(b) => {
                        let mut bv: Vec<char> = Vec::new();
                        push_bool(&mut bv, *b);
                        self.write_tracking_newlines(out, &bv);
                        proof {
                            assert forall|ext: Seq<Expansion>|
                                agrees(
                                    #[trigger] render_json_s(
                                        path@,
                                        pretty,
                                        sv0,
                                        st0,
                                        env,
                                        Seq::<Expansion>::empty() + ext,
                                        fuel as nat,
                                    ),
                                    Result::<(), Error>::Ok(()),
                                    out0,
                                    out@,
                                    self.st(),
                                    sv0,
                                    views(stack@),
                                    ext,
                                ) by {
                                assert(Seq::<Expansion>::empty() + ext =~= ext);
                                assert(out@ =~= out0 + (ind_of(st0) + bool_chars(*b)));
                            }
                        }
                        (Ok(()), Ghost(Seq::empty()))
                    },
                    Data::Fun(p) => {
                        let res = self.render_expansion(t, out, stack, "", "{{", "}}", p, fuel);
                        proof {
                            reveal_strlit("");
                            reveal_strlit("{{");
                            reveal_strlit("}}");
                            assert(""@ =~= Seq::<char>::empty());
                            assert("{{"@ =~= default_otag());
                            assert("}}"@ =~= default_ctag());
                            assert forall|ext: Seq<Expansion>|
                                agrees(
                                    #[trigger] render_json_s(
                                        path@,
                                        pretty,
                                        sv0,
                                        st0,
                                        env,
                                        res.1@ + ext,
                                        fuel as nat,
                                    ),
                                    res.0,
                                    out0,
                                    out@,
                                    self.st(),
                                    sv0,
                                    views(stack@),
                                    ext,
                                ) by {
                                let stp = expand_spec(
                                    Seq::empty(),
                                    default_otag(),
                                    default_ctag(),
                                    sv0,
                                    st0,
                                    env,
                                    res.1@ + ext,
                                    fuel as nat,
                                );
                                match stp {
                                    Rendered::Done { out: o, st: s2, rest } => {
                                        assert(out@ =~= out0 + (ind_of(st0) + o));
                                    },
                                    Rendered::Fail { err } => {},
                                }
                            }
                        }
                        res
                    },
                    _ => {
                        let ind0: Vec<char> = Vec::new();
                        proof {
                            assert(sp_indent(0) =~= Seq::<char>::empty());
                        }
                        let mut jv: Vec<char> = Vec::new();
                        json_append(&mut jv, value, pretty, &ind0, Ghost(0));
                        self.write_tracking_newlines(out, &jv);
                        proof {
                            assert forall|ext: Seq<Expansion>|
                                agrees(
                                    #[trigger] render_json_s(
                                        path@,
                                        pretty,
                                        sv0,
                                        st0,
                                        env,
                                        Seq::<Expansion>::empty() + ext,
                                        fuel as nat,
                                    ),
                                    Result::<(), Error>::Ok(()),
                                    out0,
                                    out@,
                                    self.st(),
                                    sv0,
                                    views(stack@),
                                    ext,
                                ) by {
                                assert(Seq::<Expansion>::empty() + ext =~= ext);
                                assert(out@ =~= out0 + (ind_of(st0) + json_chars(
                                    *value,
                                    pretty,
                                    0,
                                )));
                            }
                        }
                        (Ok(()), Ghost(Seq::empty()))
                    },
                }
            },
        }
    }

    /// Renders an inverted section.
    fn render_inverted_section<'c>(
        &mut self,
        t: &Template,
        out: &mut Vec<char>,
        stack: &mut Vec<&'c Data>,
        path: &Vec<String>,
        children: &Vec<Token>,
        fuel: u32,
    ) -> (res: (Result<(), Error>, Ghost<Seq<Expansion>>))
        ensures
            forall|ext: Seq<Expansion>|
                agrees(
                    #[trigger] render_inverted_s(
                        path@,
                        children@,
                        views(old(stack)@),
                        old(self).st(),
                        t.env(),
                        res.1@ + ext,
                        fuel as nat,
                    ),
                    res.0,
                    old(out)@,
                    final(out)@,
                    final(self).st(),
                    views(old(stack)@),
                    views(final(stack)@),
                    ext,
                ),
        decreases fuel, 1 + toks_size(children@), 2nat, 0nat,
    {
        let ghost sv0 = views(stack@);
        let ghost st0 = self.st();
        let ghost out0 = out@;
        let ghost env = t.env();
        let truthy: bool = match find(path, stack) {
            None => false,
            Some(value) => match value {
                Data::Null => false,
                Data::Bool(b) => *b,
                Data::List(items) => items.len() > 0,
                _ => true,
            },
        };
        proof {
            assert(truthy == !falsy(resolve(path@, sv0)));
        }
        if truthy {
            proof {
                assert forall|ext: Seq<Expansion>|
                    agrees(
                        #[trigger] render_inverted_s(
                            path@,
                            children@,
                            sv0,
                            st0,
                            env,
                            Seq::<Expansion>::empty() + ext,
                            fuel as nat,
                        ),
                        Result::<(), Error>::Ok(()),
                        out0,
                        out@,
                        self.st(),
                        sv0,
                        views(stack@),
                        ext,
                    ) by {
                    assert(Seq::<Expansion>::empty() + ext =~= ext);
                    assert(out@ =~= out0 + Seq::<char>::empty());
                }
            }
            (Ok(()), Ghost(Seq::empty()))
        } else {
            let res = self.render(t, out, stack, children, fuel);
            proof {
                assert forall|ext: Seq<Expansion>|
                    agrees(
                        #[trigger] render_inverted_s(
                            path@,
                            children@,
                            sv0,
                            st0,
                            env,
                            res.1@ + ext,
                            fuel as nat,
                        ),
                        res.0,
                        out0,
                        out@,
                        self.st(),
                        sv0,
                        views(stack@),
                        ext,
                    ) by {
                    assert(render_inverted_s(
                        path@,
                        children@,
                        sv0,
                        st0,
                        env,
                        res.1@ + ext,
                        fuel as nat,
                    ) == render_toks(children@, sv0, st0, env, res.1@ + ext, fuel as nat));
                }
            }
            res
        }
    }
}

impl RenderContext {
    /// Renders the children once per mapping entry in stored order, the
    /// entry's value pushed and the anchor set to its key.
    fn render_entries_iter<'c>(
        &mut self,
        t: &Template,
        out: &mut Vec<char>,
        stack: &mut Vec<&'c Data>,
        entries: &'c Vec<(String, Data)>,
        children: &Vec<Token>,
        fuel: u32,
    ) -> (res: (Result<(), Error>, Ghost<Seq<Expansion>>))
        ensures
            forall|ext: Seq<Expansion>|
                agrees(
                    #[trigger] render_entries(
                        entries@,
                        children@,
                        views(old(stack)@),
                        old(self).st(),
                        t.env(),
                        res.1@ + ext,
                        fuel as nat,
                    ),
                    res.0,
                    old(out)@,
                    final(out)@,
                    final(self).st(),
                    views(old(stack)@),
                    views(final(stack)@),
                    ext,
                ),
        decreases fuel, 1 + toks_size(children@), 0nat, 0nat,
    {
        let ghost sv0 = views(stack@);
        let ghost st0 = self.st();
        let ghost out0 = out@;
        let ghost env = t.env();
        let mut log: Ghost<Seq<Expansion>> = Ghost(Seq::empty());
        let mut i: usize = 0;
        proof {
            assert forall|ext: Seq<Expansion>|
                agrees(
                    #[trigger] render_entries(
                        entries@.take(0),
                        children@,
                        sv0,
                        st0,
                        env,
                        log@ + ext,
                        fuel as nat,
                    ),
                    Result::<(), Error>::Ok(()),
                    out0,
                    out@,
                    self.st(),
                    sv0,
                    views(stack@),
                    ext,
                ) by {
                assert(entries@.take(0) =~= Seq::<(String, Data)>::empty());
                assert(log@ + ext =~= ext);
                assert(out@ =~= out0 + Seq::<char>::empty());
            }
        }
        while i < entries.len()
            invariant
                i <= entries@.len(),
                sv0 == views(old(stack)@),
                st0 == old(self).st(),
                out0 == old(out)@,
                env == t.env(),
                views(stack@) == sv0,
                forall|ext: Seq<Expansion>|
                    agrees(
                        #[trigger] render_entries(
                            entries@.take(i as int),
                            children@,
                            sv0,
                            st0,
                            env,
                            log@ + ext,
                            fuel as nat,
                        ),
                        Result::<(), Error>::Ok(()),
                        out0,
                        out@,
                        self.st(),
                        sv0,
                        views(stack@),
                        ext,
                    ),
            decreases entries@.len() - i,
        {
            let ghost st_i = self.st();
            let ghost log_i = log@;
            stack.push(&entries[i].1);
            self.at = str_chars(entries[i].0.as_str());
            proof {
                assert(views(stack@) =~= sv0.push(entries@[i as int].1));
                assert(self.st() == (RState { at: entries@[i as int].0@, ..st_i }));
            }
            let (r, sub) = self.render(t, out, stack, children, fuel);
            proof {
                assert(entries@.take(i + 1).drop_last() =~= entries@.take(i as int));
                assert(entries@.take(i + 1).last() == entries@[i as int]);
            }
            match r {
                Err(e) => {
                    proof {
                        assert forall|ext: Seq<Expansion>|
                            agrees(
                                #[trigger] render_entries(
                                    entries@,
                                    children@,
                                    sv0,
                                    st0,
                                    env,
                                    (log_i + sub@) + ext,
                                    fuel as nat,
                                ),
                                Result::<(), Error>::Err(e),
                                out0,
                                out@,
                                self.st(),
                                sv0,
                                views(stack@),
                                ext,
                            ) by {
                            assert((log_i + sub@) + ext =~= log_i + (sub@ + ext));
                            let pre = render_entries(
                                entries@.take(i as int),
                                children@,
                                sv0,
                                st0,
                                env,
                                log_i + (sub@ + ext),
                                fuel as nat,
                            );
                            let stp = render_toks(
                                children@,
                                sv0.push(entries@[i as int].1),
                                RState { at: entries@[i as int].0@, ..st_i },
                                env,
                                sub@ + ext,
                                fuel as nat,
                            );
                            match pre {
                                Rendered::Done { out: o1, st: s1, rest: r1 } => {
                                    match stp {
                                        Rendered::Done { out: o2, st: s2, rest: r2 } => {},
                                        Rendered::Fail { err } => {
                                            assert(render_entries(
                                                entries@.take(i + 1),
                                                children@,
                                                sv0,
                                                st0,
                                                env,
                                                log_i + (sub@ + ext),
                                                fuel as nat,
                                            ) is Fail);
                                            lemma_entries_fail(
                                                entries@,
                                                i + 1,
                                                children@,
                                                sv0,
                                                st0,
                                                env,
                                                log_i + (sub@ + ext),
                                                fuel as nat,
                                            );
                                        },
                                    }
                                },
                                Rendered::Fail { err } => {},
                            }
                        }
                    }
                    return (Err(e), Ghost(log_i + sub@));
                },
                Ok(()) => {
                    self.at = Vec::new();
                    proof {
                        let stp0 = render_toks(children@, sv0.push(entries@[i as int].1), RState { at: entries@[i as int].0@, ..st_i }, env, sub@ + Seq::<Expansion>::empty(), fuel as nat);
                        match stp0 {
                            Rendered::Done { out: o, st: s2, rest } => {},
                            Rendered::Fail { err } => {},
                        }
                        assert(views(stack@).len() == stack@.len());
                    }
                    let ghost svp = views(stack@);
                    let ghost spre = stack@;
                    let _ = stack.pop();
                    proof {
                        assert(stack@ =~= spre.drop_last());
                        lemma_views_drop_last(spre);
                        assert(views(stack@) == svp.drop_last());
                    }
                    proof {
                                                assert(svp.drop_last() =~= sv0);
                        assert forall|ext: Seq<Expansion>|
                            agrees(
                                #[trigger] render_entries(
                                    entries@.take(i + 1),
                                    children@,
                                    sv0,
                                    st0,
                                    env,
                                    (log_i + sub@) + ext,
                                    fuel as nat,
                                ),
                                Result::<(), Error>::Ok(()),
                                out0,
                                out@,
                                self.st(),
                                sv0,
                                views(stack@),
                                ext,
                            ) by {
                            assert((log_i + sub@) + ext =~= log_i + (sub@ + ext));
                            let pre = render_entries(
                                entries@.take(i as int),
                                children@,
                                sv0,
                                st0,
                                env,
                                log_i + (sub@ + ext),
                                fuel as nat,
                            );
                            let stp = render_toks(
                                children@,
                                sv0.push(entries@[i as int].1),
                                RState { at: entries@[i as int].0@, ..st_i },
                                env,
                                sub@ + ext,
                                fuel as nat,
                            );
                            match pre {
                                Rendered::Done { out: o1, st: s1, rest: r1 } => {
                                    match stp {
                                        Rendered::Done { out: o2, st: s2, rest: r2 } => {
                                            assert(out@ =~= out0 + (o1 + o2));
                                            assert(self.st() == (RState {
                                                at: Seq::<char>::empty(),
                                                ..s2
                                            }));
                                        },
                                        Rendered::Fail { err } => {},
                                    }
                                },
                                Rendered::Fail { err } => {},
                            }
                        }
                    }
                    log = Ghost(log_i + sub@);
                    i = i + 1;
                },
            }
        }
        proof {
            assert(entries@.take(entries@.len() as int) =~= entries@);
        }
        (Ok(()), log)
    }

    /// Renders a plain section, by the resolved value.
    #[verifier::rlimit(80)]
    fn render_section<'c>(
        &mut self,
        t: &Template,
        out: &mut Vec<char>,
        stack: &mut Vec<&'c Data>,
        path: &Vec<String>,
        children: &Vec<Token>,
        otag: &String,
        src: &String,
        ctag: &String,
        fuel: u32,
    ) -> (res: (Result<(), Error>, Ghost<Seq<Expansion>>))
        ensures
            forall|ext: Seq<Expansion>|
                agrees(
                    #[trigger] render_section_s(
                        path@,
                        children@,
                        otag@,
                        ctag@,
                        src@,
                        views(old(stack)@),
                        old(self).st(),
                        t.env(),
                        res.1@ + ext,
                        fuel as nat,
                    ),
                    res.0,
                    old(out)@,
                    final(out)@,
                    final(self).st(),
                    views(old(stack)@),
                    views(final(stack)@),
                    ext,
                ),
        decreases fuel, 1 + toks_size(children@), 2nat, 0nat,
    {
        let ghost sv0 = views(stack@);
        let ghost st0 = self.st();
        let ghost out0 = out@;
        let ghost env = t.env();
        let value = match find(path, stack) {
            None => {
                proof {
                    assert forall|ext: Seq<Expansion>|
                        agrees(
                            #[trigger] render_section_s(
                                path@,
                                children@,
                                otag@,
                                ctag@,
                                src@,
                                sv0,
                                st0,
                                env,
                                Seq::<Expansion>::empty() + ext,
                                fuel as nat,
                            ),
                            Result::<(), Error>::Ok(()),
                            out0,
                            out@,
                            self.st(),
                            sv0,
                            views(stack@),
                            ext,
                        ) by {
                        lemma_section_renders_nothing(
                            path@,
                            children@,
                            otag@,
                            ctag@,
                            src@,
                            sv0,
                            st0,
                            env,
                            Seq::<Expansion>::empty() + ext,
                            fuel as nat,
                        );
                        assert(Seq::<Expansion>::empty() + ext =~= ext);
                        assert(out@ =~= out0 + Seq::<char>::empty());
                    }
                }
                return (Ok(()), Ghost(Seq::empty()));
            },
            Some(v) => v,
        };
        match value {
            Data::Null => {
                proof {
                    assert forall|ext: Seq<Expansion>|
                        agrees(
                            #[trigger] render_section_s(
                                path@,
                                children@,
                                otag@,
                                ctag@,
                                src@,
                                sv0,
                                st0,
                                env,
                                Seq::<Expansion>::empty() + ext,
                                fuel as nat,
                            ),
                            Result::<(), Error>::Ok(()),
                            out0,
                            out@,
                            self.st(),
                            sv0,
                            views(stack@),
                            ext,
                        ) by {
                        lemma_section_renders_nothing(
                            path@,
                            children@,
                            otag@,
                            ctag@,
                            src@,
                            sv0,
                            st0,
                            env,
                            Seq::<Expansion>::empty() + ext,
                            fuel as nat,
                        );
                        assert(Seq::<Expansion>::empty() + ext =~= ext);
                        assert(out@ =~= out0 + Seq::<char>::empty());
                    }
                }
                (Ok(()), Ghost(Seq::empty()))
            },
            Data::Bool(b) => {
                if !*b {
                    proof {
                        assert forall|ext: Seq<Expansion>|
                            agrees(
                                #[trigger] render_section_s(
                                    path@,
                                    children@,
                                    otag@,
                                    ctag@,
                                    src@,
                                    sv0,
                                    st0,
                                    env,
                                    Seq::<Expansion>::empty() + ext,
                                    fuel as nat,
                                ),
                                Result::<(), Error>::Ok(()),
                                out0,
                                out@,
                                self.st(),
                                sv0,
                                views(stack@),
                                ext,
                            ) by {
                            lemma_section_renders_nothing(
                                path@,
                                children@,
                                otag@,
                                ctag@,
                                src@,
                                sv0,
                                st0,
                                env,
                                Seq::<Expansion>::empty() + ext,
                                fuel as nat,
                            );
                            assert(Seq::<Expansion>::empty() + ext =~= ext);
                            assert(out@ =~= out0 + Seq::<char>::empty());
                        }
                    }
                    return (Ok(()), Ghost(Seq::empty()));
                }
                let res = self.render(t, out, stack, children, fuel);
                proof {
                    assert forall|ext: Seq<Expansion>|
                        agrees(
                            #[trigger] render_section_s(
                                path@,
                                children@,
                                otag@,
                                ctag@,
                                src@,
                                sv0,
                                st0,
                                env,
                                res.1@ + ext,
                                fuel as nat,
                            ),
                            res.0,
                            out0,
                            out@,
                            self.st(),
                            sv0,
                            views(stack@),
                            ext,
                        ) by {
                        assert(render_section_s(
                            path@,
                            children@,
                            otag@,
                            ctag@,
                            src@,
                            sv0,
                            st0,
                            env,
                            res.1@ + ext,
                            fuel as nat,
                        ) == render_toks(children@, sv0, st0, env, res.1@ + ext, fuel as nat));
                    }
                }
                res
            },
            Data::Str(sv) => {
                if sv.as_str().is_empty() {
                    proof {
                        assert forall|ext: Seq<Expansion>|
                            agrees(
                                #[trigger] render_section_s(
                                    path@,
                                    children@,
                                    otag@,
                                    ctag@,
                                    src@,
                                    sv0,
                                    st0,
                                    env,
                                    Seq::<Expansion>::empty() + ext,
                                    fuel as nat,
                                ),
                                Result::<(), Error>::Ok(()),
                                out0,
                                out@,
                                self.st(),
                                sv0,
                                views(stack@),
                                ext,
                            ) by {
                            lemma_section_renders_nothing(
                                path@,
                                children@,
                                otag@,
                                ctag@,
                                src@,
                                sv0,
                                st0,
                                env,
                                Seq::<Expansion>::empty() + ext,
                                fuel as nat,
                            );
                            assert(Seq::<Expansion>::empty() + ext =~= ext);
                            assert(out@ =~= out0 + Seq::<char>::empty());
                        }
                    }
                    return (Ok(()), Ghost(Seq::empty()));
                }
                stack.push(value);
                proof {
                    assert(views(stack@) =~= sv0.push(*value));
                }
                let (r, log) = self.render(t, out, stack, children, fuel);
                match r {
                    Err(e) => {
                        proof {
                            assert forall|ext: Seq<Expansion>|
                                agrees(
                                    #[trigger] render_section_s(
                                        path@,
                                        children@,
                                        otag@,
                                        ctag@,
                                        src@,
                                        sv0,
                                        st0,
                                        env,
                                        log@ + ext,
                                        fuel as nat,
                                    ),
                                    Result::<(), Error>::Err(e),
                                    out0,
                                    out@,
                                    self.st(),
                                    sv0,
                                    views(stack@),
                                    ext,
                                ) by {
                                    let stp = render_toks(children@, sv0.push(*value), st0, env, log@ + ext, fuel as nat);
                                    match stp {
                                        Rendered::Done { out: o, st: s2, rest } => {},
                                        Rendered::Fail { err } => {},
                                    }
                                    assert(render_section_s(path@, children@, otag@, ctag@, src@, sv0, st0, env, log@ + ext, fuel as nat) == stp);
                                }
                        }
                        (Err(e), log)
                    },
                    Ok(()) => {
                        proof {
                            let stp0 = render_toks(children@, sv0.push(*value), st0, env, log@ + Seq::<Expansion>::empty(), fuel as nat);
                            match stp0 {
                                Rendered::Done { out: o, st: s2, rest } => {},
                                Rendered::Fail { err } => {},
                            }
                            assert(views(stack@).len() == stack@.len());
                        }
                        let ghost svp = views(stack@);
                        let ghost spre = stack@;
                        let _ = stack.pop();
                        proof {
                            assert(stack@ =~= spre.drop_last());
                            lemma_views_drop_last(spre);
                            assert(views(stack@) == svp.drop_last());
                        }
                        proof {
                            assert(svp.drop_last() =~= sv0);
                            assert forall|ext: Seq<Expansion>|
                                agrees(
                                    #[trigger] render_section_s(
                                        path@,
                                        children@,
                                        otag@,
                                        ctag@,
                                        src@,
                                        sv0,
                                        st0,
                                        env,
                                        log@ + ext,
                                        fuel as nat,
                                    ),
                                    Result::<(), Error>::Ok(()),
                                    out0,
                                    out@,
                                    self.st(),
                                    sv0,
                                    views(stack@),
                                    ext,
                                ) by {
                                    let stp = render_toks(children@, sv0.push(*value), st0, env, log@ + ext, fuel as nat);
                                    match stp {
                                        Rendered::Done { out: o, st: s2, rest } => {},
                                        Rendered::Fail { err } => {},
                                    }
                                    assert(render_section_s(path@, children@, otag@, ctag@, src@, sv0, st0, env, log@ + ext, fuel as nat) == stp);
                                }
                        }
                        (Ok(()), log)
                    },
                }
            },
            Data::List(items) => {
                let mut log: Ghost<Seq<Expansion>> = Ghost(Seq::empty());
                let mut i: usize = 0;
                proof {
                    assert forall|ext: Seq<Expansion>|
                        agrees(
                            #[trigger] render_items(
                                items@.take(0),
                                children@,
                                sv0,
                                st0,
                                env,
                                log@ + ext,
                                fuel as nat,
                            ),
                            Result::<(), Error>::Ok(()),
                            out0,
                            out@,
                            self.st(),
                            sv0,
                            views(stack@),
                            ext,
                        ) by {
                        assert(items@.take(0) =~= Seq::<Data>::empty());
                        assert(log@ + ext =~= ext);
                        assert(out@ =~= out0 + Seq::<char>::empty());
                    }
                }
                while i < items.len()
                    invariant
                        i <= items@.len(),
                        resolve(path@, sv0) == Some(Data::List(*items)),
                        sv0 == views(old(stack)@),
                        st0 == old(self).st(),
                        out0 == old(out)@,
                        env == t.env(),
                        views(stack@) == sv0,
                        forall|ext: Seq<Expansion>|
                            agrees(
                                #[trigger] render_items(
                                    items@.take(i as int),
                                    children@,
                                    sv0,
                                    st0,
                                    env,
                                    log@ + ext,
                                    fuel as nat,
                                ),
                                Result::<(), Error>::Ok(()),
                                out0,
                                out@,
                                self.st(),
                                sv0,
                                views(stack@),
                                ext,
                            ),
                    decreases items@.len() - i,
                {
                    let ghost st_i = self.st();
                    let ghost log_i = log@;
                    stack.push(&items[i]);
                    self.at = u64_dec_chars(i as u64);
                    proof {
                        assert(views(stack@) =~= sv0.push(items@[i as int]));
                        assert(self.st() == (RState { at: dec_digits(i as nat), ..st_i }));
                    }
                    let (r, sub) = self.render(t, out, stack, children, fuel);
                    proof {
                        assert(items@.take(i + 1).drop_last() =~= items@.take(i as int));
                        assert(items@.take(i + 1).last() == items@[i as int]);
                    }
                    match r {
                        Err(e) => {
                            proof {
                                assert forall|ext: Seq<Expansion>|
                                    agrees(
                                        #[trigger] render_items(
                                            items@,
                                            children@,
                                            sv0,
                                            st0,
                                            env,
                                            (log_i + sub@) + ext,
                                            fuel as nat,
                                        ),
                                        Result::<(), Error>::Err(e),
                                        out0,
                                        out@,
                                        self.st(),
                                        sv0,
                                        views(stack@),
                                        ext,
                                    ) by {
                                    assert((log_i + sub@) + ext =~= log_i + (sub@ + ext));
                                    let pre = render_items(
                                        items@.take(i as int),
                                        children@,
                                        sv0,
                                        st0,
                                        env,
                                        log_i + (sub@ + ext),
                                        fuel as nat,
                                    );
                                    let stp = render_toks(
                                        children@,
                                        sv0.push(items@[i as int]),
                                        RState { at: dec_digits(i as nat), ..st_i },
                                        env,
                                        sub@ + ext,
                                        fuel as nat,
                                    );
                                    match pre {
                                        Rendered::Done { out: o1, st: s1, rest: r1 } => {
                                            match stp {
                                                Rendered::Done { out: o2, st: s2, rest: r2 } => {},
                                                Rendered::Fail { err } => {
                                                    assert(render_items(
                                                        items@.take(i + 1),
                                                        children@,
                                                        sv0,
                                                        st0,
                                                        env,
                                                        log_i + (sub@ + ext),
                                                        fuel as nat,
                                                    ) is Fail);
                                                    lemma_items_fail(
                                                        items@,
                                                        i + 1,
                                                        children@,
                                                        sv0,
                                                        st0,
                                                        env,
                                                        log_i + (sub@ + ext),
                                                        fuel as nat,
                                                    );
                                                },
                                            }
                                        },
                                        Rendered::Fail { err } => {},
                                    }
                                    assert(render_section_s(
                                        path@,
                                        children@,
                                        otag@,
                                        ctag@,
                                        src@,
                                        sv0,
                                        st0,
                                        env,
                                        log_i + (sub@ + ext),
                                        fuel as nat,
                                    ) == render_items(
                                        items@,
                                        children@,
                                        sv0,
                                        st0,
                                        env,
                                        log_i + (sub@ + ext),
                                        fuel as nat,
                                    ));
                                }
                                assert forall|ext: Seq<Expansion>|
                                    agrees(
                                        #[trigger] render_section_s(
                                            path@,
                                            children@,
                                            otag@,
                                            ctag@,
                                            src@,
                                            sv0,
                                            st0,
                                            env,
                                            (log_i + sub@) + ext,
                                            fuel as nat,
                                        ),
                                        Result::<(), Error>::Err(e),
                                        out0,
                                        out@,
                                        self.st(),
                                        sv0,
                                        views(stack@),
                                        ext,
                                    ) by {
                                    assert((log_i + sub@) + ext =~= log_i + (sub@ + ext));
                                    assert(agrees(
                                        render_items(
                                            items@,
                                            children@,
                                            sv0,
                                            st0,
                                            env,
                                            (log_i + sub@) + ext,
                                            fuel as nat,
                                        ),
                                        Result::<(), Error>::Err(e),
                                        out0,
                                        out@,
                                        self.st(),
                                        sv0,
                                        views(stack@),
                                        ext,
                                    ));
                                    assert(render_section_s(
                                        path@,
                                        children@,
                                        otag@,
                                        ctag@,
                                        src@,
                                        sv0,
                                        st0,
                                        env,
                                        (log_i + sub@) + ext,
                                        fuel as nat,
                                    ) == render_items(
                                        items@,
                                        children@,
                                        sv0,
                                        st0,
                                        env,
                                        (log_i + sub@) + ext,
                                        fuel as nat,
                                    ));
                                }
                            }
                            return (Err(e), Ghost(log_i + sub@));
                        },
                        Ok(()) => {
                            self.at = Vec::new();
                            proof {
                                let stp0 = render_toks(children@, sv0.push(items@[i as int]), RState { at: dec_digits(i as nat), ..st_i }, env, sub@ + Seq::<Expansion>::empty(), fuel as nat);
                                match stp0 {
                                    Rendered::Done { out: o, st: s2, rest } => {},
                                    Rendered::Fail { err } => {},
                                }
                                assert(views(stack@).len() == stack@.len());
                            }
                            let ghost svp = views(stack@);
                            let ghost spre = stack@;
                            let _ = stack.pop();
                            proof {
                                assert(stack@ =~= spre.drop_last());
                                lemma_views_drop_last(spre);
                                assert(views(stack@) == svp.drop_last());
                            }
                            proof {
                                assert(svp.drop_last() =~= sv0);
                                assert forall|ext: Seq<Expansion>|
                                    agrees(
                                        #[trigger] render_items(
                                            items@.take(i + 1),
                                            children@,
                                            sv0,
                                            st0,
                                            env,
                                            (log_i + sub@) + ext,
                                            fuel as nat,
                                        ),
                                        Result::<(), Error>::Ok(()),
                                        out0,
                                        out@,
                                        self.st(),
                                        sv0,
                                        views(stack@),
                                        ext,
                                    ) by {
                                    assert((log_i + sub@) + ext =~= log_i + (sub@ + ext));
                                    let pre = render_items(
                                        items@.take(i as int),
                                        children@,
                                        sv0,
                                        st0,
                                        env,
                                        log_i + (sub@ + ext),
                                        fuel as nat,
                                    );
                                    let stp = render_toks(
                                        children@,
                                        sv0.push(items@[i as int]),
                                        RState { at: dec_digits(i as nat), ..st_i },
                                        env,
                                        sub@ + ext,
                                        fuel as nat,
                                    );
                                    match pre {
                                        Rendered::Done { out: o1, st: s1, rest: r1 } => {
                                            match stp {
                                                Rendered::Done { out: o2, st: s2, rest: r2 } => {
                                                    assert(out@ =~= out0 + (o1 + o2));
                                                    assert(self.st() == (RState {
                                                        at: Seq::<char>::empty(),
                                                        ..s2
                                                    }));
                                                },
                                                Rendered::Fail { err } => {},
                                            }
                                        },
                                        Rendered::Fail { err } => {},
                                    }
                                }
                            }
                            log = Ghost(log_i + sub@);
                            i = i + 1;
                        },
                    }
                }
                proof {
                    assert(items@.take(items@.len() as int) =~= items@);
                    assert forall|ext: Seq<Expansion>|
                        agrees(
                            #[trigger] render_section_s(
                                path@,
                                children@,
                                otag@,
                                ctag@,
                                src@,
                                sv0,
                                st0,
                                env,
                                log@ + ext,
                                fuel as nat,
                            ),
                            Result::<(), Error>::Ok(()),
                            out0,
                            out@,
                            self.st(),
                            sv0,
                            views(stack@),
                            ext,
                        ) by {
                        assert(render_section_s(path@, children@, otag@, ctag@, src@, sv0, st0, env, log@ + ext, fuel as nat)
                            == render_items(items@, children@, sv0, st0, env, log@ + ext, fuel as nat));
                    }
                }
                (Ok(()), log)
            },
            Data::Obj(entries) => {
                if t.extended && tokens_have_at(children) {
                    let res = self.render_entries_iter(t, out, stack, entries, children, fuel);
                    proof {
                        assert forall|ext: Seq<Expansion>|
                            agrees(
                                #[trigger] render_section_s(
                                    path@,
                                    children@,
                                    otag@,
                                    ctag@,
                                    src@,
                                    sv0,
                                    st0,
                                    env,
                                    res.1@ + ext,
                                    fuel as nat,
                                ),
                                res.0,
                                out0,
                                out@,
                                self.st(),
                                sv0,
                                views(stack@),
                                ext,
                            ) by {
                            assert(render_section_s(
                                path@,
                                children@,
                                otag@,
                                ctag@,
                                src@,
                                sv0,
                                st0,
                                env,
                                res.1@ + ext,
                                fuel as nat,
                            ) == render_entries(
                                entries@,
                                children@,
                                sv0,
                                st0,
                                env,
                                res.1@ + ext,
                                fuel as nat,
                            ));
                        }
                    }
                    res
                } else {
                    stack.push(value);
                    proof {
                        assert(views(stack@) =~= sv0.push(*value));
                    }
                    let (r, log) = self.render(t, out, stack, children, fuel);
                    match r {
                        Err(e) => {
                            proof {
                                assert forall|ext: Seq<Expansion>|
                                    agrees(
                                        #[trigger] render_section_s(
                                            path@,
                                            children@,
                                            otag@,
                                            ctag@,
                                            src@,
                                            sv0,
                                            st0,
                                            env,
                                            log@ + ext,
                                            fuel as nat,
                                        ),
                                        Result::<(), Error>::Err(e),
                                        out0,
                                        out@,
                                        self.st(),
                                        sv0,
                                        views(stack@),
                                        ext,
                                    ) by {
                                        let stp = render_toks(children@, sv0.push(*value), st0, env, log@ + ext, fuel as nat);
                                        match stp {
                                            Rendered::Done { out: o, st: s2, rest } => {},
                                            Rendered::Fail { err } => {},
                                        }
                                        assert(render_section_s(path@, children@, otag@, ctag@, src@, sv0, st0, env, log@ + ext, fuel as nat) == stp);
                                    }
                            }
                            (Err(e), log)
                        },
                        Ok(()) => {
                            proof {
                                let stp0 = render_toks(children@, sv0.push(*value), st0, env, log@ + Seq::<Expansion>::empty(), fuel as nat);
                                match stp0 {
                                    Rendered::Done { out: o, st: s2, rest } => {},
                                    Rendered::Fail { err } => {},
                                }
                                assert(views(stack@).len() == stack@.len());
                            }
                            let ghost svp = views(stack@);
                            let ghost spre = stack@;
                            let _ = stack.pop();
                            proof {
                                assert(stack@ =~= spre.drop_last());
                                lemma_views_drop_last(spre);
                                assert(views(stack@) == svp.drop_last());
                            }
                            proof {
                                assert(svp.drop_last() =~= sv0);
                                assert forall|ext: Seq<Expansion>|
                                    agrees(
                                        #[trigger] render_section_s(
                                            path@,
                                            children@,
                                            otag@,
                                            ctag@,
                                            src@,
                                            sv0,
                                            st0,
                                            env,
                                            log@ + ext,
                                            fuel as nat,
                                        ),
                                        Result::<(), Error>::Ok(()),
                                        out0,
                                        out@,
                                        self.st(),
                                        sv0,
                                        views(stack@),
                                        ext,
                                    ) by {
                                        let stp = render_toks(children@, sv0.push(*value), st0, env, log@ + ext, fuel as nat);
                                        match stp {
                                            Rendered::Done { out: o, st: s2, rest } => {},
                                            Rendered::Fail { err } => {},
                                        }
                                        assert(render_section_s(path@, children@, otag@, ctag@, src@, sv0, st0, env, log@ + ext, fuel as nat) == stp);
                                    }
                            }
                            (Ok(()), log)
                        },
                    }
                }
            },
            Data::Fun(p) => {
                let res = self.render_expansion(
                    t,
                    out,
                    stack,
                    src.as_str(),
                    otag.as_str(),
                    ctag.as_str(),
                    p,
                    fuel,
                );
                proof {
                    assert forall|ext: Seq<Expansion>|
                        agrees(
                            #[trigger] render_section_s(
                                path@,
                                children@,
                                otag@,
                                ctag@,
                                src@,
                                sv0,
                                st0,
                                env,
                                res.1@ + ext,
                                fuel as nat,
                            ),
                            res.0,
                            out0,
                            out@,
                            self.st(),
                            sv0,
                            views(stack@),
                            ext,
                        ) by {
                        assert(render_section_s(
                            path@,
                            children@,
                            otag@,
                            ctag@,
                            src@,
                            sv0,
                            st0,
                            env,
                            res.1@ + ext,
                            fuel as nat,
                        ) == expand_spec(src@, otag@, ctag@, sv0, st0, env, res.1@ + ext, fuel as nat));
                    }
                }
                res
            },
        }
    }

    /// Renders a whole-stack section over a snapshot of the frames.
    fn render_section_top<'c>(
        &mut self,
        t: &Template,
        out: &mut Vec<char>,
        stack: &mut Vec<&'c Data>,
        children: &Vec<Token>,
        fuel: u32,
    ) -> (res: (Result<(), Error>, Ghost<Seq<Expansion>>))
        ensures
            forall|ext: Seq<Expansion>|
                agrees(
                    #[trigger] render_top(
                        views(old(stack)@),
                        children@,
                        views(old(stack)@),
                        old(self).st(),
                        t.env(),
                        res.1@ + ext,
                        fuel as nat,
                    ),
                    res.0,
                    old(out)@,
                    final(out)@,
                    final(self).st(),
                    views(old(stack)@),
                    views(final(stack)@),
                    ext,
                ),
        decreases fuel, 1 + toks_size(children@), 1nat, 0nat,
    {
        let ghost sv0 = views(stack@);
        let ghost st0 = self.st();
        let ghost out0 = out@;
        let ghost env = t.env();
        let has_at = tokens_have_at(children);
        let n = stack.len();
        let mut log: Ghost<Seq<Expansion>> = Ghost(Seq::empty());
        let mut i: usize = 0;
        proof {
            assert forall|ext: Seq<Expansion>|
                agrees(
                    #[trigger] render_top(
                        sv0.take(0),
                        children@,
                        sv0,
                        st0,
                        env,
                        log@ + ext,
                        fuel as nat,
                    ),
                    Result::<(), Error>::Ok(()),
                    out0,
                    out@,
                    self.st(),
                    sv0,
                    views(stack@),
                    ext,
                ) by {
                assert(sv0.take(0) =~= Seq::<Data>::empty());
                assert(log@ + ext =~= ext);
                assert(out@ =~= out0 + Seq::<char>::empty());
            }
        }
        while i < n
            invariant
                i <= n,
                n == sv0.len(),
                sv0 == views(old(stack)@),
                st0 == old(self).st(),
                out0 == old(out)@,
                env == t.env(),
                has_at == seq_has_at(children@),
                views(stack@) == sv0,
                forall|ext: Seq<Expansion>|
                    agrees(
                        #[trigger] render_top(
                            sv0.take(i as int),
                            children@,
                            sv0,
                            st0,
                            env,
                            log@ + ext,
                            fuel as nat,
                        ),
                        Result::<(), Error>::Ok(()),
                        out0,
                        out@,
                        self.st(),
                        sv0,
                        views(stack@),
                        ext,
                    ),
            decreases n - i,
        {
            let ghost st_i = self.st();
            let ghost log_i = log@;
            let frame: &Data = stack[i];
            proof {
                assert(sv0[i as int] == *frame);
                assert(sv0.take(i + 1).drop_last() =~= sv0.take(i as int));
                assert(sv0.take(i + 1).last() == sv0[i as int]);
            }
            let step: (Result<(), Error>, Ghost<Seq<Expansion>>) = match frame {
                Data::Obj(entries) => {
                    if has_at {
                        self.render_entries_iter(t, out, stack, entries, children, fuel)
                    } else {
                        stack.push(frame);
                        proof {
                            assert(views(stack@) =~= sv0.push(sv0[i as int]));
                        }
                        let (r, sub) = self.render(t, out, stack, children, fuel);
                        match r {
                            Err(e) => (Err(e), sub),
                            Ok(()) => {
                                proof {
                                    let stp0 = render_toks(children@, sv0.push(sv0[i as int]), st_i, env, sub@ + Seq::<Expansion>::empty(), fuel as nat);
                                    match stp0 {
                                        Rendered::Done { out: o, st: s2, rest } => {},
                                        Rendered::Fail { err } => {},
                                    }
                                    assert(views(stack@).len() == stack@.len());
                                }
                                let ghost svp = views(stack@);
                                let ghost spre = stack@;
                                let _ = stack.pop();
                                proof {
                                    assert(stack@ =~= spre.drop_last());
                                    lemma_views_drop_last(spre);
                                    assert(views(stack@) == svp.drop_last());
                                }
                                proof {
                                assert(svp.drop_last() =~= sv0);
                                }
                                (Ok(()), sub)
                            },
                        }
                    }
                },
                _ => (Ok(()), Ghost(Seq::empty())),
            };
            let (r, sub) = step;
            match r {
                Err(e) => {
                    proof {
                        assert forall|ext: Seq<Expansion>|
                            agrees(
                                #[trigger] render_top(
                                    sv0,
                                    children@,
                                    sv0,
                                    st0,
                                    env,
                                    (log_i + sub@) + ext,
                                    fuel as nat,
                                ),
                                Result::<(), Error>::Err(e),
                                out0,
                                out@,
                                self.st(),
                                sv0,
                                views(stack@),
                                ext,
                            ) by {
                            assert((log_i + sub@) + ext =~= log_i + (sub@ + ext));
                            let pre = render_top(
                                sv0.take(i as int),
                                children@,
                                sv0,
                                st0,
                                env,
                                log_i + (sub@ + ext),
                                fuel as nat,
                            );
                            match pre {
                                Rendered::Done { out: o1, st: s1, rest: r1 } => {
                                    match sv0[i as int] {
                                        Data::Obj(es) => {
                                            if seq_has_at(children@) {
                                                let stp = render_entries(
                                                    es@,
                                                    children@,
                                                    sv0,
                                                    st_i,
                                                    env,
                                                    sub@ + ext,
                                                    fuel as nat,
                                                );
                                                match stp {
                                                    Rendered::Done { out: o2, st: s2, rest: r2 } => {},
                                                    Rendered::Fail { err } => {},
                                                }
                                            } else {
                                                let stp = render_toks(
                                                    children@,
                                                    sv0.push(sv0[i as int]),
                                                    st_i,
                                                    env,
                                                    sub@ + ext,
                                                    fuel as nat,
                                                );
                                                match stp {
                                                    Rendered::Done { out: o2, st: s2, rest: r2 } => {},
                                                    Rendered::Fail { err } => {},
                                                }
                                            }
                                        },
                                        _ => {},
                                    }
                                    assert(render_top(
                                        sv0.take(i + 1),
                                        children@,
                                        sv0,
                                        st0,
                                        env,
                                        log_i + (sub@ + ext),
                                        fuel as nat,
                                    ) is Fail);
                                    lemma_top_fail(
                                        sv0,
                                        i + 1,
                                        children@,
                                        sv0,
                                        st0,
                                        env,
                                        log_i + (sub@ + ext),
                                        fuel as nat,
                                    );
                                },
                                Rendered::Fail { err } => {},
                            }
                        }
                    }
                    return (Err(e), Ghost(log_i + sub@));
                },
                Ok(()) => {
                    proof {
                        match sv0[i as int] {
                            Data::Obj(es) => {
                                if seq_has_at(children@) {
                                    let stp0 = render_entries(es@, children@, sv0, st_i, env, sub@ + Seq::<Expansion>::empty(), fuel as nat);
                                    match stp0 {
                                        Rendered::Done { out: o, st: s2, rest } => {},
                                        Rendered::Fail { err } => {},
                                    }
                                }
                            },
                            _ => {},
                        }
                        assert forall|ext: Seq<Expansion>|
                            agrees(
                                #[trigger] render_top(
                                    sv0.take(i + 1),
                                    children@,
                                    sv0,
                                    st0,
                                    env,
                                    (log_i + sub@) + ext,
                                    fuel as nat,
                                ),
                                Result::<(), Error>::Ok(()),
                                out0,
                                out@,
                                self.st(),
                                sv0,
                                views(stack@),
                                ext,
                            ) by {
                            assert((log_i + sub@) + ext =~= log_i + (sub@ + ext));
                            assert(Seq::<Expansion>::empty() + (sub@ + ext) =~= sub@ + ext);
                            let pre = render_top(
                                sv0.take(i as int),
                                children@,
                                sv0,
                                st0,
                                env,
                                log_i + (sub@ + ext),
                                fuel as nat,
                            );
                            match pre {
                                Rendered::Done { out: o1, st: s1, rest: r1 } => {
                                    match sv0[i as int] {
                                        Data::Obj(es) => {
                                            if seq_has_at(children@) {
                                                let stp = render_entries(
                                                    es@,
                                                    children@,
                                                    sv0,
                                                    st_i,
                                                    env,
                                                    sub@ + ext,
                                                    fuel as nat,
                                                );
                                                match stp {
                                                    Rendered::Done { out: o2, st: s2, rest: r2 } => {
                                                        assert(out@ =~= out0 + (o1 + o2));
                                                    },
                                                    Rendered::Fail { err } => {},
                                                }
                                            } else {
                                                let stp = render_toks(
                                                    children@,
                                                    sv0.push(sv0[i as int]),
                                                    st_i,
                                                    env,
                                                    sub@ + ext,
                                                    fuel as nat,
                                                );
                                                match stp {
                                                    Rendered::Done { out: o2, st: s2, rest: r2 } => {
                                                        assert(out@ =~= out0 + (o1 + o2));
                                                    },
                                                    Rendered::Fail { err } => {},
                                                }
                                            }
                                        },
                                        _ => {
                                            assert(out@ =~= out0 + (o1 + Seq::<char>::empty()));
                                            assert(out@ =~= out0 + o1);
                                        },
                                    }
                                },
                                Rendered::Fail { err } => {},
                            }
                        }
                    }
                    log = Ghost(log_i + sub@);
                    i = i + 1;
                },
            }
        }
        proof {
            assert(sv0.take(n as int) =~= sv0);
        }
        (Ok(()), log)
    }

    /// Renders a partial: its indentation is appended to the active prefix
    /// around exactly its own subtree.
    fn render_partial<'c>(
        &mut self,
        t: &Template,
        out: &mut Vec<char>,
        stack: &mut Vec<&'c Data>,
        name: &String,
        pindent: &String,
        fuel: u32,
    ) -> (res: (Result<(), Error>, Ghost<Seq<Expansion>>))
        ensures
            forall|ext: Seq<Expansion>|
                agrees(
                    #[trigger] render_partial_s(
                        name@,
                        pindent@,
                        views(old(stack)@),
                        old(self).st(),
                        t.env(),
                        res.1@ + ext,
                        fuel as nat,
                    ),
                    res.0,
                    old(out)@,
                    final(out)@,
                    final(self).st(),
                    views(old(stack)@),
                    views(final(stack)@),
                    ext,
                ),
        decreases fuel, 0nat, 1nat, 0nat,
    {
        let ghost sv0 = views(stack@);
        let ghost st0 = self.st();
        let ghost out0 = out@;
        let ghost env = t.env();
        match partial_get(&t.partials, name.as_str()) {
            None => {
                proof {
                    assert forall|ext: Seq<Expansion>|
                        agrees(
                            #[trigger] render_partial_s(
                                name@,
                                pindent@,
                                sv0,
                                st0,
                                env,
                                Seq::<Expansion>::empty() + ext,
                                fuel as nat,
                            ),
                            Result::<(), Error>::Ok(()),
                            out0,
                            out@,
                            self.st(),
                            sv0,
                            views(stack@),
                            ext,
                        ) by {
                        assert(Seq::<Expansion>::empty() + ext =~= ext);
                        assert(out@ =~= out0 + Seq::<char>::empty());
                    }
                }
                (Ok(()), Ghost(Seq::empty()))
            },
            Some(ptoks) => {
                if fuel == 0 {
                    proof {
                        assert forall|ext: Seq<Expansion>|
                            agrees(
                                #[trigger] render_partial_s(
                                    name@,
                                    pindent@,
                                    sv0,
                                    st0,
                                    env,
                                    Seq::<Expansion>::empty() + ext,
                                    fuel as nat,
                                ),
                                Result::<(), Error>::Err(Error::TooDeep),
                                out0,
                                out@,
                                self.st(),
                                sv0,
                                views(stack@),
                                ext,
                            ) by {}
                    }
                    return (Err(Error::TooDeep), Ghost(Seq::empty()));
                }
                let mut ni: Vec<char> = Vec::new();
                push_all(&mut ni, &self.indent);
                push_str_chars(&mut ni, pindent.as_str());
                core::mem::swap(&mut self.indent, &mut ni);
                proof {
                    assert(self.st() == (RState { indent: st0.indent + pindent@, ..st0 }));
                    assert(ni@ == st0.indent);
                }
                let (r, log) = self.render(t, out, stack, ptoks, fuel - 1);
                proof {
                    assert((fuel - 1) as nat == (fuel as nat - 1) as nat);
                }
                match r {
                    Err(e) => {
                        proof {
                            assert forall|ext: Seq<Expansion>|
                                agrees(
                                    #[trigger] render_partial_s(
                                        name@,
                                        pindent@,
                                        sv0,
                                        st0,
                                        env,
                                        log@ + ext,
                                        fuel as nat,
                                    ),
                                    Result::<(), Error>::Err(e),
                                    out0,
                                    out@,
                                    self.st(),
                                    sv0,
                                    views(stack@),
                                    ext,
                                ) by {
                                let stp = render_toks(
                                    ptoks@,
                                    sv0,
                                    RState { indent: st0.indent + pindent@, ..st0 },
                                    env,
                                    log@ + ext,
                                    (fuel - 1) as nat,
                                );
                                match stp {
                                    Rendered::Done { out: o, st: s2, rest } => {},
                                    Rendered::Fail { err } => {},
                                }
                            }
                        }
                        (Err(e), log)
                    },
                    Ok(()) => {
                        core::mem::swap(&mut self.indent, &mut ni);
                        proof {
                            assert forall|ext: Seq<Expansion>|
                                agrees(
                                    #[trigger] render_partial_s(
                                        name@,
                                        pindent@,
                                        sv0,
                                        st0,
                                        env,
                                        log@ + ext,
                                        fuel as nat,
                                    ),
                                    Result::<(), Error>::Ok(()),
                                    out0,
                                    out@,
                                    self.st(),
                                    sv0,
                                    views(stack@),
                                    ext,
                                ) by {
                                let stp = render_toks(
                                    ptoks@,
                                    sv0,
                                    RState { indent: st0.indent + pindent@, ..st0 },
                                    env,
                                    log@ + ext,
                                    (fuel - 1) as nat,
                                );
                                match stp {
                                    Rendered::Done { out: o, st: s2, rest } => {
                                        assert(self.st() == (RState {
                                            indent: st0.indent,
                                            ..s2
                                        }));
                                    },
                                    Rendered::Fail { err } => {},
                                }
                            }
                        }
                        (Ok(()), log)
                    },
                }
            },
        }
    }
}

impl Template {
    /// Renders the template against `data`, appending the text to `out`,
    /// with a caller-chosen nesting budget for partials and producer
    /// expansions. The result is exactly the render semantics applied to
    /// some sequence of producer-expansion outcomes, all of which were
    /// consumed; a template reaching no producer consumes none.
    pub fn render_data_with_limit(&self, out: &mut String, data: &Data, limit: u32) -> (r: Result<
        (),
        Error,
    >)
        ensures
            exists|orc: Seq<Expansion>|
                match #[trigger] render_toks(
                    self.spec_tokens(),
                    seq![*data],
                    init_rstate(),
                    self.env(),
                    orc,
                    limit as nat,
                ) {
                    Rendered::Done { out: o, st, rest } => r is Ok && final(out)@ == old(out)@ + o
                        && rest == Seq::<Expansion>::empty(),
                    Rendered::Fail { err } => r == Result::<(), Error>::Err(err),
                },
            r is Err ==> final(out)@ == old(out)@,
    {
        let mut ctx = RenderContext::new();
        let mut buf: Vec<char> = Vec::new();
        let mut stack: Vec<&Data> = Vec::new();
        stack.push(data);
        proof {
            assert(views(stack@) =~= seq![*data]);
        }
        let (r, log) = ctx.render(self, &mut buf, &mut stack, &self.tokens, limit);
        proof {
            assert(log@ + Seq::<Expansion>::empty() =~= log@);
        }
        match r {
            Ok(()) => {
                let s = chars_to_string(&buf);
                out.append(s.as_str());
                proof {
                    let stp = render_toks(
                        self.spec_tokens(),
                        seq![*data],
                        init_rstate(),
                        self.env(),
                        log@,
                        limit as nat,
                    );
                    match stp {
                        Rendered::Done { out: o, st, rest } => {
                            assert(buf@ =~= Seq::<char>::empty() + o);
                            assert(out@ =~= old(out)@ + o);
                        },
                        Rendered::Fail { err } => {},
                    }
                }
                Ok(())
            },
            Err(e) => Err(e),
        }
    }

    /// Renders the template against `data`, appending the text to `out`,
    /// under the default nesting budget [`EXPANSION_LIMIT`].
    pub fn render_data(&self, out: &mut String, data: &Data) -> (r: Result<(), Error>)
        ensures
            exists|orc: Seq<Expansion>|
                match #[trigger] render_toks(
                    self.spec_tokens(),
                    seq![*data],
                    init_rstate(),
                    self.env(),
                    orc,
                    EXPANSION_LIMIT as nat,
                ) {
                    Rendered::Done { out: o, st, rest } => r is Ok && final(out)@ == old(out)@ + o
                        && rest == Seq::<Expansion>::empty(),
                    Rendered::Fail { err } => r == Result::<(), Error>::Err(err),
                },
            r is Err ==> final(out)@ == old(out)@,
    {
        self.render_data_with_limit(out, data, EXPANSION_LIMIT)
    }

    /// Renders the template against `data` into a fresh text.
    pub fn render_data_to_string(&self, data: &Data) -> (r: Result<String, Error>)
        ensures
            exists|orc: Seq<Expansion>|
                match #[trigger] render_toks(
                    self.spec_tokens(),
                    seq![*data],
                    init_rstate(),
                    self.env(),
                    orc,
                    EXPANSION_LIMIT as nat,
                ) {
                    Rendered::Done { out: o, st, rest } => (r matches Ok(s) && s@ == o) && rest
                        == Seq::<Expansion>::empty(),
                    Rendered::Fail { err } => r == Result::<String, Error>::Err(err),
                },
    {
        let mut s = String::new();
        match self.render_data(&mut s, data) {
            Ok(()) => {
                proof {
                    let orc = choose|orc: Seq<Expansion>|
                        match #[trigger] render_toks(
                            self.spec_tokens(),
                            seq![*data],
                            init_rstate(),
                            self.env(),
                            orc,
                            EXPANSION_LIMIT as nat,
                        ) {
                            Rendered::Done { out: o, st, rest } => s@ == Seq::<char>::empty() + o
                                && rest == Seq::<Expansion>::empty(),
                            Rendered::Fail { err } => false,
                        };
                }
                Ok(s)
            },
            Err(e) => Err(e),
        }
    }
}

/// Compiles template source under the default delimiters, with no partials
/// and the structured-data extension enabled.
pub fn compile_str(template: &str) -> (r: Result<Template, Error>)
    ensures
        r matches Ok(t) ==> toks_complete(t.spec_tokens()) && t.env() == (SpecEnv {
            partials: Seq::empty(),
            ext: true,
        }),
{
    match compile_tokens(template, "{{", "}}") {
        Ok(toks) => Ok(new(toks, Vec::new(), true)),
        Err(e) => Err(e),
    }
}

} // verus!
