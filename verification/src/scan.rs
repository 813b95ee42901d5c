//! Scope-aware scanning for literal `require` references. A single pass over
//! the token stream drives a small state machine that tracks lexical frames
//! (blocks and function bodies) and the names declared in them, so that a
//! local binding of `require` shadows the global loader from its point of
//! declaration to the end of its frame. A reference is a call of the
//! unqualified, unshadowed identifier `require` whose argument is exactly one
//! string literal, in either the parenthesized or the bare-string form.

use vstd::prelude::*;

use crate::lex::{
    next_tok, quote_v, tok_v, x_next_tok, LexV, Lexed, QuoteKind, QuoteV, Tok, TokKind,
    TokKindV, TokV,
};
use crate::text::str_eq;

verus! {

/// A matched reference site: the callee token span, the string token span,
/// the span of the literal content inside the quotes, and the quoting style.
#[derive(Debug, Clone, Copy)]
pub struct Site {
    pub callee_start: usize,
    pub callee_end: usize,
    pub str_start: usize,
    pub str_end: usize,
    pub content_start: usize,
    pub content_end: usize,
    pub quote: QuoteKind,
}

#[verifier::ext_equal]
pub ghost struct SiteV {
    pub callee_start: int,
    pub callee_end: int,
    pub str_start: int,
    pub str_end: int,
    pub content_start: int,
    pub content_end: int,
    pub quote: QuoteV,
}

pub open spec fn site_v(s: Site) -> SiteV {
    SiteV {
        callee_start: s.callee_start as int,
        callee_end: s.callee_end as int,
        str_start: s.str_start as int,
        str_end: s.str_end as int,
        content_start: s.content_start as int,
        content_end: s.content_end as int,
        quote: quote_v(s.quote),
    }
}

/// Spans of one site are ordered and lie inside a text of length `n`.
pub open spec fn site_wf(s: SiteV, n: int) -> bool {
    &&& 0 <= s.callee_start < s.callee_end <= s.str_start
    &&& s.str_start < s.content_start <= s.content_end < s.str_end
    &&& s.str_end <= n
}

/// Parsing mode of the scanner between tokens.
enum Mode {
    Normal,
    LocalKw,
    LocalName,
    LocalMore,
    FnKw,
    FnLocalKw,
    FnNamed,
    FnDot,
    Params,
    ReqCallee { cs: usize, ce: usize },
    ReqParen { cs: usize, ce: usize },
    ReqStr { cs: usize, ce: usize, ss: usize, se: usize, acs: usize, ace: usize, q: QuoteKind },
}

pub ghost enum ModeV {
    Normal,
    LocalKw,
    LocalName,
    LocalMore,
    FnKw,
    FnLocalKw,
    FnNamed,
    FnDot,
    Params,
    ReqCallee { cs: int, ce: int },
    ReqParen { cs: int, ce: int },
    ReqStr { cs: int, ce: int, ss: int, se: int, acs: int, ace: int, q: QuoteV },
}

spec fn mode_v(m: Mode) -> ModeV {
    match m {
        Mode::Normal => ModeV::Normal,
        Mode::LocalKw => ModeV::LocalKw,
        Mode::LocalName => ModeV::LocalName,
        Mode::LocalMore => ModeV::LocalMore,
        Mode::FnKw => ModeV::FnKw,
        Mode::FnLocalKw => ModeV::FnLocalKw,
        Mode::FnNamed => ModeV::FnNamed,
        Mode::FnDot => ModeV::FnDot,
        Mode::Params => ModeV::Params,
        Mode::ReqCallee { cs, ce } => ModeV::ReqCallee { cs: cs as int, ce: ce as int },
        Mode::ReqParen { cs, ce } => ModeV::ReqParen { cs: cs as int, ce: ce as int },
        Mode::ReqStr { cs, ce, ss, se, acs, ace, q } => ModeV::ReqStr {
            cs: cs as int,
            ce: ce as int,
            ss: ss as int,
            se: se as int,
            acs: acs as int,
            ace: ace as int,
            q: quote_v(q),
        },
    }
}

/// Scanner state: current mode, the stack of scope frames (each frame the
/// names declared in it), and whether the previous significant token was a
/// member-access dot or colon.
#[verifier::ext_equal]
pub ghost struct ScanStV {
    pub mode: ModeV,
    pub stack: Seq<Seq<Seq<char>>>,
    pub prev_member: bool,
}

struct ScanSt {
    mode: Mode,
    stack: Vec<Vec<String>>,
    prev_member: bool,
}

spec fn st_v(st: ScanSt) -> ScanStV {
    ScanStV { mode: mode_v(st.mode), stack: st.stack.deep_view(), prev_member: st.prev_member }
}

pub open spec fn init_st() -> ScanStV {
    ScanStV { mode: ModeV::Normal, stack: seq![Seq::<Seq<char>>::empty()], prev_member: false }
}

/// A name is in scope when any active frame declares it.
pub open spec fn in_scope(stack: Seq<Seq<Seq<char>>>, name: Seq<char>) -> bool {
    exists|f: int| 0 <= f < stack.len() && stack[f].contains(name)
}

/// Declare a name in the innermost frame.
pub open spec fn declare(stack: Seq<Seq<Seq<char>>>, name: Seq<char>) -> Seq<Seq<Seq<char>>> {
    stack.update(stack.len() - 1, stack.last().push(name))
}

pub open spec fn push_frame(stack: Seq<Seq<Seq<char>>>) -> Seq<Seq<Seq<char>>> {
    stack.push(Seq::empty())
}

/// Leave the innermost frame; the root frame is never popped.
pub open spec fn pop_frame(stack: Seq<Seq<Seq<char>>>) -> Seq<Seq<Seq<char>>> {
    if stack.len() > 1 {
        stack.take(stack.len() - 1)
    } else {
        stack
    }
}

pub open spec fn tok_text(code: Seq<char>, t: TokV) -> Seq<char> {
    code.subrange(t.start, t.end)
}

pub open spec fn kw_block_open(s: Seq<char>) -> bool {
    s == "do"@ || s == "repeat"@ || s == "th"@ + "en"@
}

pub open spec fn kw_block_close(s: Seq<char>) -> bool {
    s == "end"@ || s == "until"@
}

pub open spec fn kw_branch(s: Seq<char>) -> bool {
    s == "else"@ || s == "elseif"@
}

/// `elseif` only closes the branch before it; the `then` that follows opens
/// the next one. `else` closes the previous branch and opens its own block.
pub open spec fn kw_elseif(s: Seq<char>) -> bool {
    s == "elseif"@
}

pub open spec fn sym_char(code: Seq<char>, t: TokV) -> char
    recommends
        0 <= t.start < code.len(),
{
    code[t.start]
}

/// Behavior of a token seen in the base mode: keywords manage the scope
/// stack, an unshadowed `require` identifier (not after `.` or `:`) arms the
/// reference matcher, everything else is skipped.
pub open spec fn m0_step(st: ScanStV, t: TokV, code: Seq<char>) -> ScanStV {
    match t.kind {
        TokKindV::Ident => {
            let text = tok_text(code, t);
            if text == "require"@ && !st.prev_member && !in_scope(st.stack, "require"@) {
                ScanStV { mode: ModeV::ReqCallee { cs: t.start, ce: t.end }, ..st }
            } else if text == "local"@ {
                ScanStV { mode: ModeV::LocalKw, ..st }
            } else if text == "function"@ {
                ScanStV { mode: ModeV::FnKw, ..st }
            } else if kw_block_open(text) {
                ScanStV { mode: ModeV::Normal, stack: push_frame(st.stack), ..st }
            } else if kw_block_close(text) || kw_elseif(text) {
                ScanStV { mode: ModeV::Normal, stack: pop_frame(st.stack), ..st }
            } else if kw_branch(text) {
                ScanStV { mode: ModeV::Normal, stack: push_frame(pop_frame(st.stack)), ..st }
            } else {
                ScanStV { mode: ModeV::Normal, ..st }
            }
        },
        _ => ScanStV { mode: ModeV::Normal, ..st },
    }
}

/// One transition of the scanner on one token: returns the next state and
/// the site this token completed, if any.
pub open spec fn scan_step(st: ScanStV, t: TokV, code: Seq<char>) -> (ScanStV, Option<SiteV>) {
    let stepped = match st.mode {
        ModeV::Normal => (m0_step(st, t, code), None::<SiteV>),
        ModeV::LocalKw => match t.kind {
            TokKindV::Ident => {
                let text = tok_text(code, t);
                if text == "function"@ {
                    (ScanStV { mode: ModeV::FnLocalKw, ..st }, None)
                } else if kw_block_open(text) || kw_block_close(text) || kw_branch(text) || text
                    == "local"@ {
                    (m0_step(st, t, code), None)
                } else {
                    (
                        ScanStV { mode: ModeV::LocalName, stack: declare(st.stack, text), ..st },
                        None,
                    )
                }
            },
            _ => (m0_step(st, t, code), None),
        },
        ModeV::LocalName => {
            if t.kind == TokKindV::Sym && sym_char(code, t) == ',' {
                (ScanStV { mode: ModeV::LocalMore, ..st }, None)
            } else {
                (m0_step(st, t, code), None)
            }
        },
        ModeV::LocalMore => match t.kind {
            TokKindV::Ident => {
                let text = tok_text(code, t);
                if kw_block_open(text) || kw_block_close(text) || kw_branch(text) || text
                    == "local"@ || text == "function"@ {
                    (m0_step(st, t, code), None)
                } else {
                    (
                        ScanStV { mode: ModeV::LocalName, stack: declare(st.stack, text), ..st },
                        None,
                    )
                }
            },
            _ => (m0_step(st, t, code), None),
        },
        ModeV::FnKw => match t.kind {
            TokKindV::Ident => {
                let text = tok_text(code, t);
                if kw_block_open(text) || kw_block_close(text) || kw_branch(text) || text
                    == "local"@ || text == "function"@ {
                    (m0_step(st, t, code), None)
                } else {
                    // a global function statement declares nothing
                    (ScanStV { mode: ModeV::FnNamed, ..st }, None)
                }
            },
            TokKindV::Sym => {
                if sym_char(code, t) == '(' {
                    (ScanStV { mode: ModeV::Params, stack: push_frame(st.stack), ..st }, None)
                } else {
                    (m0_step(st, t, code), None)
                }
            },
            _ => (m0_step(st, t, code), None),
        },
        ModeV::FnLocalKw => match t.kind {
            TokKindV::Ident => {
                let text = tok_text(code, t);
                if kw_block_open(text) || kw_block_close(text) || kw_branch(text) || text
                    == "local"@ || text == "function"@ {
                    (m0_step(st, t, code), None)
                } else {
                    // a local function's own name is in scope
                    (ScanStV { mode: ModeV::FnNamed, stack: declare(st.stack, text), ..st }, None)
                }
            },
            TokKindV::Sym => {
                if sym_char(code, t) == '(' {
                    (ScanStV { mode: ModeV::Params, stack: push_frame(st.stack), ..st }, None)
                } else {
                    (m0_step(st, t, code), None)
                }
            },
            _ => (m0_step(st, t, code), None),
        },
        ModeV::FnNamed => {
            if t.kind == TokKindV::Sym && (sym_char(code, t) == '.' || sym_char(code, t) == ':') {
                (ScanStV { mode: ModeV::FnDot, ..st }, None)
            } else if t.kind == TokKindV::Sym && sym_char(code, t) == '(' {
                (ScanStV { mode: ModeV::Params, stack: push_frame(st.stack), ..st }, None)
            } else {
                (m0_step(st, t, code), None)
            }
        },
        ModeV::FnDot => match t.kind {
            TokKindV::Ident => (ScanStV { mode: ModeV::FnNamed, ..st }, None),
            _ => (m0_step(st, t, code), None),
        },
        ModeV::Params => match t.kind {
            TokKindV::Ident => (
                ScanStV { mode: ModeV::Params, stack: declare(st.stack, tok_text(code, t)), ..st },
                None,
            ),
            TokKindV::Sym => {
                if sym_char(code, t) == ')' {
                    (ScanStV { mode: ModeV::Normal, ..st }, None)
                } else {
                    (ScanStV { mode: ModeV::Params, ..st }, None)
                }
            },
            _ => (ScanStV { mode: ModeV::Params, ..st }, None),
        },
        ModeV::ReqCallee { cs, ce } => match t.kind {
            TokKindV::Sym => {
                if sym_char(code, t) == '(' {
                    (ScanStV { mode: ModeV::ReqParen { cs, ce }, ..st }, None)
                } else {
                    (m0_step(st, t, code), None)
                }
            },
            TokKindV::Str { cs: acs, ce: ace, q } => (
                ScanStV { mode: ModeV::Normal, ..st },
                Some(
                    SiteV {
                        callee_start: cs,
                        callee_end: ce,
                        str_start: t.start,
                        str_end: t.end,
                        content_start: acs,
                        content_end: ace,
                        quote: q,
                    },
                ),
            ),
            _ => (m0_step(st, t, code), None),
        },
        ModeV::ReqParen { cs, ce } => match t.kind {
            TokKindV::Str { cs: acs, ce: ace, q } => (
                ScanStV {
                    mode: ModeV::ReqStr { cs, ce, ss: t.start, se: t.end, acs, ace, q },
                    ..st
                },
                None,
            ),
            _ => (m0_step(st, t, code), None),
        },
        ModeV::ReqStr { cs, ce, ss, se, acs, ace, q } => {
            if t.kind == TokKindV::Sym && sym_char(code, t) == ')' {
                (
                    ScanStV { mode: ModeV::Normal, ..st },
                    Some(
                        SiteV {
                            callee_start: cs,
                            callee_end: ce,
                            str_start: ss,
                            str_end: se,
                            content_start: acs,
                            content_end: ace,
                            quote: q,
                        },
                    ),
                )
            } else {
                (m0_step(st, t, code), None)
            }
        },
    };
    let nst = stepped.0;
    (
        ScanStV {
            prev_member: t.kind == TokKindV::Sym && (sym_char(code, t) == '.' || sym_char(code, t)
                == ':'),
            ..nst
        },
        stepped.1,
    )
}

/// All reference sites of `code` from position `i` in state `st`, or `None`
/// when the input cannot be tokenized.
pub open spec fn scan_from(code: Seq<char>, i: int, st: ScanStV) -> Option<Seq<SiteV>>
    decreases code.len() - i,
        when 0 <= i <= code.len()
{
    match next_tok(code, i) {
        LexV::Done => Some(Seq::empty()),
        LexV::Fail => None,
        LexV::Found(t) => {
            if i < t.end && t.end <= code.len() {
                let stepped = scan_step(st, t, code);
                match scan_from(code, t.end, stepped.0) {
                    None => None,
                    Some(rest) => match stepped.1 {
                        None => Some(rest),
                        Some(s) => Some(seq![s] + rest),
                    },
                }
            } else {
                None
            }
        },
    }
}

/// The reference sites of a whole source unit.
pub open spec fn spec_sites(code: Seq<char>) -> Option<Seq<SiteV>> {
    scan_from(code, 0, init_st())
}

/// The sites are ordered left to right and lie within a text of length `n`.
pub open spec fn sites_sep(sites: Seq<SiteV>, n: int) -> bool {
    &&& forall|k: int| 0 <= k < sites.len() ==> site_wf(#[trigger] sites[k], n)
    &&& forall|k: int|
        0 < k < sites.len() ==> (#[trigger] sites[k]).callee_start >= sites[k - 1].str_end
}

fn x_in_scope(stack: &Vec<Vec<String>>, name: &str) -> (r: bool)
    ensures
        r == in_scope(stack.deep_view(), name@),
{
    let n = stack.len();
    let mut f: usize = 0;
    while f < n
        invariant
            f <= n,
            n == stack@.len(),
            forall|g: int| 0 <= g < f ==> !stack.deep_view()[g].contains(name@),
        decreases n - f,
    {
        let frame = &stack[f];
        let m = frame.len();
        let mut k: usize = 0;
        while k < m
            invariant
                k <= m,
                f < n,
                n == stack@.len(),
                m == frame@.len(),
                frame.deep_view() == stack.deep_view()[f as int],
                forall|j: int| 0 <= j < k ==> frame.deep_view()[j] != name@,
            decreases m - k,
        {
            if str_eq(frame[k].as_str(), name) {
                proof {
                    assert(stack.deep_view()[f as int][k as int] == name@);
                    assert(stack.deep_view()[f as int].contains(name@));
                }
                return true;
            }
            k += 1;
        }
        proof {
            assert(!stack.deep_view()[f as int].contains(name@));
        }
        f += 1;
    }
    false
}

fn x_declare(stack: &mut Vec<Vec<String>>, name: String)
    requires
        old(stack)@.len() >= 1,
    ensures
        final(stack).deep_view() == declare(old(stack).deep_view(), name@),
        final(stack)@.len() == old(stack)@.len(),
{
    let ghost pre = stack.deep_view();
    let last = stack.len() - 1;
    let mut frame = match stack.pop() {
        Some(fr) => fr,
        None => Vec::new(),
    };
    frame.push(name);
    stack.push(frame);
    proof {
        assert(stack.deep_view() =~~= declare(pre, name@));
    }
}

fn x_push_frame(stack: &mut Vec<Vec<String>>)
    ensures
        final(stack).deep_view() == push_frame(old(stack).deep_view()),
        final(stack)@.len() == old(stack)@.len() + 1,
{
    let ghost pre = stack.deep_view();
    stack.push(Vec::new());
    proof {
        assert(stack.deep_view() =~~= push_frame(pre));
    }
}

fn x_pop_frame(stack: &mut Vec<Vec<String>>)
    requires
        old(stack)@.len() >= 1,
    ensures
        final(stack).deep_view() == pop_frame(old(stack).deep_view()),
        final(stack)@.len() >= 1,
{
    let ghost pre = stack.deep_view();
    if stack.len() > 1 {
        let _ = stack.pop();
        proof {
            assert(stack.deep_view() =~~= pop_frame(pre));
        }
    } else {
        proof {
            assert(stack.deep_view() =~~= pop_frame(pre));
        }
    }
}

/// Base-mode transition; returns the new mode, updating the stack in place.
fn x_m0_step(
    stack: &mut Vec<Vec<String>>,
    prev_member: bool,
    t: &Tok,
    code: &str,
) -> (r: Mode)
    requires
        old(stack)@.len() >= 1,
        t.start < t.end,
        t.end <= code@.len(),
    ensures
        final(stack)@.len() >= 1,
        ({
            let st0 = ScanStV {
                mode: ModeV::Normal,
                stack: old(stack).deep_view(),
                prev_member: prev_member,
            };
            let st1 = m0_step(st0, tok_v(*t), code@);
            st1.stack == final(stack).deep_view() && st1.mode == mode_v(r) && st1.prev_member
                == prev_member
        }),
        match r {
            Mode::ReqCallee { cs, ce } => cs == t.start && ce == t.end,
            Mode::ReqParen { .. } => false,
            Mode::ReqStr { .. } => false,
            _ => true,
        },
{
    match t.kind {
        TokKind::Ident => {
            let text = code.substring_char(t.start, t.end);
            proof {
                assert(text@ == tok_text(code@, tok_v(*t)));
            }
            if str_eq(text, "require") && !prev_member && !x_in_scope(stack, "require") {
                Mode::ReqCallee { cs: t.start, ce: t.end }
            } else if str_eq(text, "local") {
                Mode::LocalKw
            } else if str_eq(text, "function") {
                Mode::FnKw
            } else if str_eq(text, "do") || str_eq(text, "repeat") || x_is_kw_cond(text) {
                x_push_frame(stack);
                Mode::Normal
            } else if str_eq(text, "end") || str_eq(text, "until") || str_eq(text, "elseif") {
                x_pop_frame(stack);
                Mode::Normal
            } else if str_eq(text, "else") {
                x_pop_frame(stack);
                x_push_frame(stack);
                Mode::Normal
            } else {
                Mode::Normal
            }
        },
        _ => Mode::Normal,
    }
}

/// Whether an identifier is the keyword that opens a conditional branch
/// block.
fn x_is_kw_cond(text: &str) -> (r: bool)
    ensures
        r == (text@ == "th"@ + "en"@),
{
    let mut kw = String::new();
    kw.append("th");
    kw.append("en");
    let r = str_eq(text, kw.as_str());
    r
}

/// Whether an identifier token is one of the keywords the scanner reacts to.
fn x_is_reserved(text: &str) -> (r: bool)
    ensures
        r == (kw_block_open(text@) || kw_block_close(text@) || kw_branch(text@) || text@
            == "local"@ || text@ == "function"@),
{
    str_eq(text, "do") || str_eq(text, "repeat") || x_is_kw_cond(text) || str_eq(text, "end")
        || str_eq(text, "until") || str_eq(text, "else") || str_eq(text, "elseif") || str_eq(
        text,
        "local",
    ) || str_eq(text, "function")
}

/// Scans a whole source unit; `None` when it cannot be tokenized.
#[verifier::rlimit(100)]
pub(crate) fn x_scan_sites(code: &str) -> (r: Option<Vec<Site>>)
    ensures
        match r {
            Some(v) => {
                &&& spec_sites(code@) == Some(v@.map_values(|s: Site| site_v(s)))
                &&& sites_sep(v@.map_values(|s: Site| site_v(s)), code@.len() as int)
            },
            None => spec_sites(code@) is None,
        },
{
    let n = code.unicode_len();
    let mut out: Vec<Site> = Vec::new();
    let mut stack: Vec<Vec<String>> = Vec::new();
    stack.push(Vec::new());
    let mut mode = Mode::Normal;
    let mut prev_member = false;
    let mut i: usize = 0;
    proof {
        assert(stack.deep_view() =~~= init_st().stack);
        assert(st_v(
            ScanSt { mode: Mode::Normal, stack: stack, prev_member: false },
        ) =~= init_st());
        assert(out@.map_values(|s: Site| site_v(s)) =~= Seq::<SiteV>::empty());
    }
    loop
        invariant_except_break
            i <= n,
            n == code@.len(),
            stack@.len() >= 1,
            // mode spans are ordered and below the cursor
            match mode_v(mode) {
                ModeV::ReqCallee { cs, ce } => emitted_below(
                    out@.map_values(|s: Site| site_v(s)),
                    cs,
                ) && 0 <= cs < ce <= i,
                ModeV::ReqParen { cs, ce } => emitted_below(
                    out@.map_values(|s: Site| site_v(s)),
                    cs,
                ) && 0 <= cs < ce <= i,
                ModeV::ReqStr { cs, ce, ss, se, acs, ace, q } => emitted_below(
                    out@.map_values(|s: Site| site_v(s)),
                    cs,
                ) && 0 <= cs < ce <= ss && ss < acs <= ace && ace < se && se <= i,
                _ => true,
            },
            emitted_below(out@.map_values(|s: Site| site_v(s)), i as int),
            sites_sep(out@.map_values(|s: Site| site_v(s)), n as int),
            // the remaining scan completes the spec result
            spec_sites(code@) == (match scan_from(
                code@,
                i as int,
                ScanStV {
                    mode: mode_v(mode),
                    stack: stack.deep_view(),
                    prev_member: prev_member,
                },
            ) {
                None => None::<Seq<SiteV>>,
                Some(rest) => Some(out@.map_values(|s: Site| site_v(s)) + rest),
            }),
        ensures
            match spec_sites(code@) {
                Some(sites) => sites == out@.map_values(|s: Site| site_v(s)) && sites_sep(
                    sites,
                    code@.len() as int,
                ),
                None => false,
            },
        decreases n - i,
    {
        let ghost pre_sites = out@.map_values(|s: Site| site_v(s));
        let ghost st0 = ScanStV {
            mode: mode_v(mode),
            stack: stack.deep_view(),
            prev_member: prev_member,
        };
        let lx = x_next_tok(code, i);
        let t = match lx {
            Lexed::Done => {
                proof {
                    assert(pre_sites + Seq::<SiteV>::empty() =~= pre_sites);
                }
                break;
            },
            Lexed::Fail => {
                return None;
            },
            Lexed::Found(t) => t,
        };
        let ghost stepped = scan_step(st0, tok_v(t), code@);
        let next_prev_member = match t.kind {
            TokKind::Sym => {
                let c = code.get_char(t.start);
                c == '.' || c == ':'
            },
            _ => false,
        };
        let mut emitted: Option<Site> = None;
        match mode {
            Mode::Normal => {
                mode = x_m0_step(&mut stack, prev_member, &t, code);
            },
            Mode::LocalKw => {
                match t.kind {
                    TokKind::Ident => {
                        let text = code.substring_char(t.start, t.end);
                        proof {
                            assert(text@ == tok_text(code@, tok_v(t)));
                        }
                        if str_eq(text, "function") {
                            mode = Mode::FnLocalKw;
                        } else if x_is_reserved(text) {
                            mode = x_m0_step(&mut stack, prev_member, &t, code);
                        } else {
                            x_declare(&mut stack, text.to_owned());
                            mode = Mode::LocalName;
                        }
                    },
                    _ => {
                        mode = x_m0_step(&mut stack, prev_member, &t, code);
                    },
                }
            },
            Mode::LocalName => {
                let is_comma = match t.kind {
                    TokKind::Sym => code.get_char(t.start) == ',',
                    _ => false,
                };
                if is_comma {
                    mode = Mode::LocalMore;
                } else {
                    mode = x_m0_step(&mut stack, prev_member, &t, code);
                }
            },
            Mode::LocalMore => {
                match t.kind {
                    TokKind::Ident => {
                        let text = code.substring_char(t.start, t.end);
                        proof {
                            assert(text@ == tok_text(code@, tok_v(t)));
                        }
                        if x_is_reserved(text) {
                            mode = x_m0_step(&mut stack, prev_member, &t, code);
                        } else {
                            x_declare(&mut stack, text.to_owned());
                            mode = Mode::LocalName;
                        }
                    },
                    _ => {
                        mode = x_m0_step(&mut stack, prev_member, &t, code);
                    },
                }
            },
            Mode::FnKw => {
                match t.kind {
                    TokKind::Ident => {
                        let text = code.substring_char(t.start, t.end);
                        proof {
                            assert(text@ == tok_text(code@, tok_v(t)));
                        }
                        if x_is_reserved(text) {
                            mode = x_m0_step(&mut stack, prev_member, &t, code);
                        } else {
                            mode = Mode::FnNamed;
                        }
                    },
                    TokKind::Sym => {
                        if code.get_char(t.start) == '(' {
                            x_push_frame(&mut stack);
                            mode = Mode::Params;
                        } else {
                            mode = x_m0_step(&mut stack, prev_member, &t, code);
                        }
                    },
                    _ => {
                        mode = x_m0_step(&mut stack, prev_member, &t, code);
                    },
                }
            },
            Mode::FnLocalKw => {
                match t.kind {
                    TokKind::Ident => {
                        let text = code.substring_char(t.start, t.end);
                        proof {
                            assert(text@ == tok_text(code@, tok_v(t)));
                        }
                        if x_is_reserved(text) {
                            mode = x_m0_step(&mut stack, prev_member, &t, code);
                        } else {
                            x_declare(&mut stack, text.to_owned());
                            mode = Mode::FnNamed;
                        }
                    },
                    TokKind::Sym => {
                        if code.get_char(t.start) == '(' {
                            x_push_frame(&mut stack);
                            mode = Mode::Params;
                        } else {
                            mode = x_m0_step(&mut stack, prev_member, &t, code);
                        }
                    },
                    _ => {
                        mode = x_m0_step(&mut stack, prev_member, &t, code);
                    },
                }
            },
            Mode::FnNamed => {
                let c = match t.kind {
                    TokKind::Sym => Some(code.get_char(t.start)),
                    _ => None,
                };
                match c {
                    Some(ch) => {
                        if ch == '.' || ch == ':' {
                            mode = Mode::FnDot;
                        } else if ch == '(' {
                            x_push_frame(&mut stack);
                            mode = Mode::Params;
                        } else {
                            mode = x_m0_step(&mut stack, prev_member, &t, code);
                        }
                    },
                    None => {
                        mode = x_m0_step(&mut stack, prev_member, &t, code);
                    },
                }
            },
            Mode::FnDot => {
                match t.kind {
                    TokKind::Ident => {
                        mode = Mode::FnNamed;
                    },
                    _ => {
                        mode = x_m0_step(&mut stack, prev_member, &t, code);
                    },
                }
            },
            Mode::Params => {
                match t.kind {
                    TokKind::Ident => {
                        let text = code.substring_char(t.start, t.end);
                        proof {
                            assert(text@ == tok_text(code@, tok_v(t)));
                        }
                        x_declare(&mut stack, text.to_owned());
                        mode = Mode::Params;
                    },
                    TokKind::Sym => {
                        if code.get_char(t.start) == ')' {
                            mode = Mode::Normal;
                        } else {
                            mode = Mode::Params;
                        }
                    },
                    _ => {
                        mode = Mode::Params;
                    },
                }
            },
            Mode::ReqCallee { cs, ce } => {
                match t.kind {
                    TokKind::Sym => {
                        if code.get_char(t.start) == '(' {
                            mode = Mode::ReqParen { cs, ce };
                        } else {
                            mode = x_m0_step(&mut stack, prev_member, &t, code);
                        }
                    },
                    TokKind::Str { cs: acs, ce: ace, q } => {
                        emitted = Some(
                            Site {
                                callee_start: cs,
                                callee_end: ce,
                                str_start: t.start,
                                str_end: t.end,
                                content_start: acs,
                                content_end: ace,
                                quote: q,
                            },
                        );
                        mode = Mode::Normal;
                    },
                    _ => {
                        mode = x_m0_step(&mut stack, prev_member, &t, code);
                    },
                }
            },
            Mode::ReqParen { cs, ce } => {
                match t.kind {
                    TokKind::Str { cs: acs, ce: ace, q } => {
                        mode = Mode::ReqStr { cs, ce, ss: t.start, se: t.end, acs, ace, q };
                    },
                    _ => {
                        mode = x_m0_step(&mut stack, prev_member, &t, code);
                    },
                }
            },
            Mode::ReqStr { cs, ce, ss, se, acs, ace, q } => {
                let is_close = match t.kind {
                    TokKind::Sym => code.get_char(t.start) == ')',
                    _ => false,
                };
                if is_close {
                    emitted = Some(
                        Site {
                            callee_start: cs,
                            callee_end: ce,
                            str_start: ss,
                            str_end: se,
                            content_start: acs,
                            content_end: ace,
                            quote: q,
                        },
                    );
                    mode = Mode::Normal;
                } else {
                    mode = x_m0_step(&mut stack, prev_member, &t, code);
                }
            },
        }
        prev_member = next_prev_member;
        proof {
            let st1 = ScanStV {
                mode: mode_v(mode),
                stack: stack.deep_view(),
                prev_member: prev_member,
            };
            assert(st1 =~= stepped.0);
            match emitted {
                None => {
                    assert(stepped.1 is None);
                },
                Some(s) => {
                    assert(stepped.1 == Some(site_v(s)));
                },
            }
        }
        match emitted {
            Some(s) => {
                out.push(s);
                proof {
                    assert(out@.map_values(|x: Site| site_v(x)) =~= pre_sites.push(site_v(s)));
                }
            },
            None => {},
        }
        i = t.end;
        proof {
            let now_sites = out@.map_values(|x: Site| site_v(x));
            match stepped.1 {
                Some(s) => {
                    assert(now_sites =~= pre_sites + seq![s]);
                    assert(pre_sites + (seq![s] + scan_from_val(code@, i as int, stepped.0))
                        =~= now_sites + scan_from_val(code@, i as int, stepped.0));
                },
                None => {
                    assert(now_sites =~= pre_sites);
                },
            }
        }
    }
    Some(out)
}

/// The tail of the scan when it succeeds; used only to state loop proofs.
pub open spec fn scan_from_val(code: Seq<char>, i: int, st: ScanStV) -> Seq<SiteV> {
    match scan_from(code, i, st) {
        Some(s) => s,
        None => Seq::empty(),
    }
}

/// No emitted site reaches past position `p`.
pub open spec fn emitted_below(sites: Seq<SiteV>, p: int) -> bool {
    sites.len() > 0 ==> sites.last().str_end <= p
}

/// A literal module reference found by the scanner, with the one-based line
/// and column of its callee.
#[derive(Debug, Clone)]
pub struct RequireMatch {
    pub module: String,
    pub line: usize,
    pub col: usize,
}

/// One-based line of position `pos`: one more than the newlines before it.
pub open spec fn line_of(code: Seq<char>, pos: int) -> int
    decreases pos,
        when 0 <= pos <= code.len()
{
    if pos <= 0 {
        1
    } else {
        line_of(code, pos - 1) + (if code[pos - 1] == '\n' {
            1int
        } else {
            0int
        })
    }
}

/// One-based column of position `pos`: characters since the last newline.
pub open spec fn col_of(code: Seq<char>, pos: int) -> int
    decreases pos,
        when 0 <= pos <= code.len()
{
    if pos <= 0 {
        1
    } else if code[pos - 1] == '\n' {
        1
    } else {
        col_of(code, pos - 1) + 1
    }
}

fn line_col_at(code: &str, pos: usize) -> (r: (usize, usize))
    requires
        pos <= code@.len(),
        pos < usize::MAX,
    ensures
        r.0 as int == line_of(code@, pos as int),
        r.1 as int == col_of(code@, pos as int),
{
    let mut line: usize = 1;
    let mut col: usize = 1;
    let mut j: usize = 0;
    while j < pos
        invariant
            j <= pos,
            pos <= code@.len(),
            pos < usize::MAX,
            line as int == line_of(code@, j as int),
            col as int == col_of(code@, j as int),
            line <= j + 1,
            col <= j + 1,
        decreases pos - j,
    {
        if code.get_char(j) == '\n' {
            line += 1;
            col = 1;
        } else {
            col += 1;
        }
        j += 1;
    }
    (line, col)
}

/// Every literal `require` reference of `code`, in source order, each with
/// the line and column of its callee; an input that cannot be scanned yields
/// no references.
pub fn find_literal_requires(code: &str) -> (r: Vec<RequireMatch>)
    ensures
        match spec_sites(code@) {
            Some(sites) => {
                &&& r@.len() == sites.len()
                &&& forall|k: int|
                    0 <= k < sites.len() ==> (#[trigger] r@[k]).module@ == code@.subrange(
                        sites[k].content_start,
                        sites[k].content_end,
                    )
                &&& forall|k: int|
                    0 <= k < sites.len() ==> (#[trigger] r@[k]).line as int == line_of(
                        code@,
                        sites[k].callee_start,
                    ) && r@[k].col as int == col_of(code@, sites[k].callee_start)
            },
            None => r@.len() == 0,
        },
{
    let sites = match x_scan_sites(code) {
        None => {
            return Vec::new();
        },
        Some(s) => s,
    };
    let mut out: Vec<RequireMatch> = Vec::new();
    let n = sites.len();
    let mut k: usize = 0;
    proof {
        assert(spec_sites(code@) == Some(sites@.map_values(|s: Site| site_v(s))));
    }
    while k < n
        invariant
            k <= n,
            n == sites@.len(),
            out@.len() == k,
            spec_sites(code@) == Some(sites@.map_values(|s: Site| site_v(s))),
            sites_sep(sites@.map_values(|s: Site| site_v(s)), code@.len() as int),
            forall|j: int|
                0 <= j < k ==> (#[trigger] out@[j]).module@ == code@.subrange(
                    sites@.map_values(|s: Site| site_v(s))[j].content_start,
                    sites@.map_values(|s: Site| site_v(s))[j].content_end,
                ),
            forall|j: int|
                0 <= j < k ==> (#[trigger] out@[j]).line as int == line_of(
                    code@,
                    sites@.map_values(|s: Site| site_v(s))[j].callee_start,
                ) && out@[j].col as int == col_of(
                    code@,
                    sites@.map_values(|s: Site| site_v(s))[j].callee_start,
                ),
        decreases n - k,
    {
        let s = &sites[k];
        proof {
            assert(site_wf(sites@.map_values(|x: Site| site_v(x))[k as int], code@.len() as int));
        }
        let module = code.substring_char(s.content_start, s.content_end).to_owned();
        let (line, col) = line_col_at(code, s.callee_start);
        out.push(RequireMatch { module, line, col });
        k += 1;
    }
    out
}

} // verus!
