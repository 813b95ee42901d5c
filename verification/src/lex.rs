//! A small Lua lexer, just strong enough to recognize identifiers, the two
//! short string forms, long-bracket strings, comments, numbers and single
//! punctuation characters, with exact character positions. Formatting and
//! comments are skipped, so splicing between token spans preserves them.

use vstd::prelude::*;

verus! {

/// Quoting style of a string token, kept so a rewritten argument can be
/// printed back in the original style.
#[derive(Debug, Clone, Copy, PartialEq, Eq)]
pub enum QuoteKind {
    Single,
    Double,
    Long { level: usize },
}

#[derive(Debug, Clone, Copy, PartialEq, Eq)]
pub enum TokKind {
    Ident,
    Num,
    Str { cs: usize, ce: usize, q: QuoteKind },
    Sym,
}

/// One significant token: `[start, end)` in character positions.
#[derive(Debug, Clone, Copy)]
pub struct Tok {
    pub kind: TokKind,
    pub start: usize,
    pub end: usize,
}

/// Outcome of asking for the next token.
pub enum Lexed {
    Done,
    Fail,
    Found(Tok),
}

pub ghost enum QuoteV {
    Single,
    Double,
    Long(int),
}

pub ghost enum TokKindV {
    Ident,
    Num,
    Str { cs: int, ce: int, q: QuoteV },
    Sym,
}

#[verifier::ext_equal]
pub ghost struct TokV {
    pub kind: TokKindV,
    pub start: int,
    pub end: int,
}

pub ghost enum LexV {
    Done,
    Fail,
    Found(TokV),
}

pub open spec fn quote_v(q: QuoteKind) -> QuoteV {
    match q {
        QuoteKind::Single => QuoteV::Single,
        QuoteKind::Double => QuoteV::Double,
        QuoteKind::Long { level } => QuoteV::Long(level as int),
    }
}

pub open spec fn kind_v(k: TokKind) -> TokKindV {
    match k {
        TokKind::Ident => TokKindV::Ident,
        TokKind::Num => TokKindV::Num,
        TokKind::Str { cs, ce, q } => TokKindV::Str {
            cs: cs as int,
            ce: ce as int,
            q: quote_v(q),
        },
        TokKind::Sym => TokKindV::Sym,
    }
}

pub open spec fn tok_v(t: Tok) -> TokV {
    TokV { kind: kind_v(t.kind), start: t.start as int, end: t.end as int }
}

pub open spec fn lexed_v(l: Lexed) -> LexV {
    match l {
        Lexed::Done => LexV::Done,
        Lexed::Fail => LexV::Fail,
        Lexed::Found(t) => LexV::Found(tok_v(t)),
    }
}

pub open spec fn is_ws(c: char) -> bool {
    c == ' ' || c == '\t' || c == '\r' || c == '\n'
}

pub open spec fn is_digit(c: char) -> bool {
    ('0' as u32) <= (c as u32) && (c as u32) <= ('9' as u32)
}

pub open spec fn is_ident_start(c: char) -> bool {
    (('a' as u32) <= (c as u32) && (c as u32) <= ('z' as u32)) || (('A' as u32) <= (c as u32) && (c
        as u32) <= ('Z' as u32)) || c == '_'
}

pub open spec fn is_ident_char(c: char) -> bool {
    is_ident_start(c) || is_digit(c)
}

/// Characters a number token keeps consuming: digits, letters (hex and
/// exponent markers) and the decimal point.
pub open spec fn is_num_char(c: char) -> bool {
    is_ident_char(c) || c == '.'
}

/// First position at or after `i` that is not an identifier character.
pub open spec fn ident_end(code: Seq<char>, i: int) -> int
    decreases code.len() - i,
        when 0 <= i <= code.len()
{
    if i < code.len() && is_ident_char(code[i]) {
        ident_end(code, i + 1)
    } else {
        i
    }
}

pub open spec fn num_end(code: Seq<char>, i: int) -> int
    decreases code.len() - i,
        when 0 <= i <= code.len()
{
    if i < code.len() && is_num_char(code[i]) {
        num_end(code, i + 1)
    } else {
        i
    }
}

/// First position at or after `i` that does not hold `=`.
pub open spec fn eq_run_end(code: Seq<char>, i: int) -> int
    decreases code.len() - i,
        when 0 <= i <= code.len()
{
    if i < code.len() && code[i] == '=' {
        eq_run_end(code, i + 1)
    } else {
        i
    }
}

/// Position just after the closing quote of a short string whose content
/// starts at `i`; a backslash escapes the next character; an unescaped
/// newline or the end of input leaves the string unterminated.
pub open spec fn short_str_end(code: Seq<char>, i: int, q: char) -> Option<int>
    decreases code.len() - i,
        when 0 <= i <= code.len()
{
    if i >= code.len() {
        None
    } else if code[i] == q {
        Some(i + 1)
    } else if code[i] == '\n' {
        None
    } else if code[i] == '\\' {
        if i + 2 <= code.len() {
            short_str_end(code, i + 2, q)
        } else {
            None
        }
    } else {
        short_str_end(code, i + 1, q)
    }
}

/// At a `[`: the bracket level and content start of a long bracket opening
/// (`[`, a run of `=`, `[`), if one starts at `i`.
pub open spec fn long_open(code: Seq<char>, i: int) -> Option<(int, int)> {
    if 0 <= i < code.len() && code[i] == '[' {
        let j = eq_run_end(code, i + 1);
        if j < code.len() && code[j] == '[' {
            Some((j - i - 1, j + 1))
        } else {
            None
        }
    } else {
        None
    }
}

/// A closing long bracket of `level` stands at `i`.
pub open spec fn is_close_at(code: Seq<char>, i: int, level: int) -> bool {
    &&& 0 <= i
    &&& i + level + 2 <= code.len()
    &&& code[i] == ']'
    &&& (forall|a: int| i + 1 <= a < i + 1 + level ==> code[a] == '=')
    &&& code[i + 1 + level] == ']'
}

/// Position of the first closing bracket of `level` at or after `i`.
pub open spec fn long_close_at(code: Seq<char>, i: int, level: int) -> Option<int>
    decreases code.len() - i,
        when 0 <= i <= code.len()
{
    if i >= code.len() {
        None
    } else if is_close_at(code, i, level) {
        Some(i)
    } else {
        long_close_at(code, i + 1, level)
    }
}

/// The next significant token at or after position `i`: whitespace and
/// comments are skipped; an unterminated string or long comment fails the
/// whole scan.
pub open spec fn next_tok(code: Seq<char>, i: int) -> LexV
    decreases code.len() - i,
        when 0 <= i <= code.len()
{
    if i >= code.len() {
        LexV::Done
    } else {
        let c = code[i];
        if is_ws(c) {
            next_tok(code, i + 1)
        } else if c == '-' && i + 1 < code.len() && code[i + 1] == '-' {
            match long_open(code, i + 2) {
                Some((level, cs)) => match long_close_at(code, cs, level) {
                    None => LexV::Fail,
                    Some(close) => {
                        let after = close + level + 2;
                        if i < after <= code.len() {
                            next_tok(code, after)
                        } else {
                            LexV::Fail
                        }
                    },
                },
                None => {
                    match find_nl(code, i + 2) {
                        None => LexV::Done,
                        Some(nl) => {
                            if i < nl + 1 <= code.len() {
                                next_tok(code, nl + 1)
                            } else {
                                LexV::Fail
                            }
                        },
                    }
                },
            }
        } else if c == '\'' || c == '"' {
            match short_str_end(code, i + 1, c) {
                None => LexV::Fail,
                Some(e) => LexV::Found(
                    TokV {
                        kind: TokKindV::Str {
                            cs: i + 1,
                            ce: e - 1,
                            q: if c == '\'' {
                                QuoteV::Single
                            } else {
                                QuoteV::Double
                            },
                        },
                        start: i,
                        end: e,
                    },
                ),
            }
        } else if c == '[' && long_open(code, i) is Some {
            let (level, cs) = long_open(code, i)->0;
            match long_close_at(code, cs, level) {
                None => LexV::Fail,
                Some(close) => LexV::Found(
                    TokV {
                        kind: TokKindV::Str { cs, ce: close, q: QuoteV::Long(level) },
                        start: i,
                        end: close + level + 2,
                    },
                ),
            }
        } else if is_ident_start(c) {
            LexV::Found(TokV { kind: TokKindV::Ident, start: i, end: ident_end(code, i + 1) })
        } else if is_digit(c) {
            LexV::Found(TokV { kind: TokKindV::Num, start: i, end: num_end(code, i + 1) })
        } else {
            LexV::Found(TokV { kind: TokKindV::Sym, start: i, end: i + 1 })
        }
    }
}

/// First newline at or after `i`.
pub open spec fn find_nl(code: Seq<char>, i: int) -> Option<int>
    decreases code.len() - i,
        when 0 <= i <= code.len()
{
    if i >= code.len() {
        None
    } else if code[i] == '\n' {
        Some(i)
    } else {
        find_nl(code, i + 1)
    }
}

pub proof fn lemma_ident_end(code: Seq<char>, i: int)
    requires
        0 <= i <= code.len(),
    ensures
        i <= ident_end(code, i) <= code.len(),
    decreases code.len() - i,
{
    if i < code.len() && is_ident_char(code[i]) {
        lemma_ident_end(code, i + 1);
    }
}

pub proof fn lemma_num_end(code: Seq<char>, i: int)
    requires
        0 <= i <= code.len(),
    ensures
        i <= num_end(code, i) <= code.len(),
    decreases code.len() - i,
{
    if i < code.len() && is_num_char(code[i]) {
        lemma_num_end(code, i + 1);
    }
}

pub proof fn lemma_eq_run_end(code: Seq<char>, i: int)
    requires
        0 <= i <= code.len(),
    ensures
        i <= eq_run_end(code, i) <= code.len(),
        forall|a: int| i <= a < eq_run_end(code, i) ==> code[a] == '=',
        eq_run_end(code, i) < code.len() ==> code[eq_run_end(code, i)] != '=',
    decreases code.len() - i,
{
    if i < code.len() && code[i] == '=' {
        lemma_eq_run_end(code, i + 1);
    }
}

pub proof fn lemma_short_str_end(code: Seq<char>, i: int, q: char)
    requires
        0 <= i <= code.len(),
    ensures
        match short_str_end(code, i, q) {
            Some(e) => i < e <= code.len(),
            None => true,
        },
    decreases code.len() - i,
{
    if i >= code.len() {
    } else if code[i] == q {
    } else if code[i] == '\n' {
    } else if code[i] == '\\' {
        if i + 2 <= code.len() {
            lemma_short_str_end(code, i + 2, q);
        }
    } else {
        lemma_short_str_end(code, i + 1, q);
    }
}

pub proof fn lemma_long_close_at(code: Seq<char>, i: int, level: int)
    requires
        0 <= i <= code.len(),
    ensures
        match long_close_at(code, i, level) {
            Some(e) => i <= e && is_close_at(code, e, level) && e + level + 2 <= code.len(),
            None => true,
        },
    decreases code.len() - i,
{
    if i >= code.len() {
    } else if is_close_at(code, i, level) {
    } else {
        lemma_long_close_at(code, i + 1, level);
    }
}

/// Every token the lexer hands out sits inside the input, after the position
/// asked for, and has positive width; string content sits inside the token.
pub proof fn lemma_next_tok_bounds(code: Seq<char>, i: int)
    requires
        0 <= i <= code.len(),
    ensures
        match next_tok(code, i) {
            LexV::Found(t) => {
                &&& i <= t.start < t.end <= code.len()
                &&& match t.kind {
                    TokKindV::Str { cs, ce, q } => t.start < cs <= ce < t.end,
                    _ => true,
                }
            },
            _ => true,
        },
    decreases code.len() - i,
{
    if i >= code.len() {
    } else {
        let c = code[i];
        if is_ws(c) {
            lemma_next_tok_bounds(code, i + 1);
        } else if c == '-' && i + 1 < code.len() && code[i + 1] == '-' {
            match long_open(code, i + 2) {
                Some((level, cs)) => {
                    lemma_eq_run_end(code, i + 3);
                    match long_close_at(code, cs, level) {
                        None => {},
                        Some(close) => {
                            lemma_long_close_at(code, cs, level);
                            let after = close + level + 2;
                            if i < after <= code.len() {
                                lemma_next_tok_bounds(code, after);
                            }
                        },
                    }
                },
                None => {
                    match find_nl(code, i + 2) {
                        None => {},
                        Some(nl) => {
                            lemma_find_nl(code, i + 2);
                            if i < nl + 1 <= code.len() {
                                lemma_next_tok_bounds(code, nl + 1);
                            }
                        },
                    }
                },
            }
        } else if c == '\'' || c == '"' {
            lemma_short_str_end(code, i + 1, c);
        } else if c == '[' && long_open(code, i) is Some {
            let (level, cs) = long_open(code, i)->0;
            lemma_eq_run_end(code, i + 1);
            lemma_long_close_at(code, cs, level);
        } else if is_ident_start(c) {
            lemma_ident_end(code, i + 1);
        } else if is_digit(c) {
            lemma_num_end(code, i + 1);
        } else {
        }
    }
}

pub proof fn lemma_find_nl(code: Seq<char>, i: int)
    requires
        0 <= i <= code.len(),
    ensures
        match find_nl(code, i) {
            Some(nl) => i <= nl < code.len(),
            None => true,
        },
    decreases code.len() - i,
{
    if i >= code.len() {
    } else if code[i] == '\n' {
    } else {
        lemma_find_nl(code, i + 1);
    }
}

fn x_is_ws(c: char) -> (r: bool)
    ensures
        r == is_ws(c),
{
    c == ' ' || c == '\t' || c == '\r' || c == '\n'
}

fn x_is_digit(c: char) -> (r: bool)
    ensures
        r == is_digit(c),
{
    let u = c as u32;
    ('0' as u32) <= u && u <= ('9' as u32)
}

fn x_is_ident_start(c: char) -> (r: bool)
    ensures
        r == is_ident_start(c),
{
    let u = c as u32;
    (('a' as u32) <= u && u <= ('z' as u32)) || (('A' as u32) <= u && u <= ('Z' as u32)) || c == '_'
}

fn x_is_ident_char(c: char) -> (r: bool)
    ensures
        r == is_ident_char(c),
{
    x_is_ident_start(c) || x_is_digit(c)
}

fn x_is_num_char(c: char) -> (r: bool)
    ensures
        r == is_num_char(c),
{
    x_is_ident_char(c) || c == '.'
}

fn x_ident_end(code: &str, i: usize) -> (r: usize)
    requires
        i <= code@.len(),
    ensures
        r == ident_end(code@, i as int),
        i <= r <= code@.len(),
{
    let n = code.unicode_len();
    let mut j = i;
    while j < n && x_is_ident_char(code.get_char(j))
        invariant
            i <= j <= n,
            n == code@.len(),
            ident_end(code@, i as int) == ident_end(code@, j as int),
        decreases n - j,
    {
        j += 1;
    }
    j
}

fn x_num_end(code: &str, i: usize) -> (r: usize)
    requires
        i <= code@.len(),
    ensures
        r == num_end(code@, i as int),
        i <= r <= code@.len(),
{
    let n = code.unicode_len();
    let mut j = i;
    while j < n && x_is_num_char(code.get_char(j))
        invariant
            i <= j <= n,
            n == code@.len(),
            num_end(code@, i as int) == num_end(code@, j as int),
        decreases n - j,
    {
        j += 1;
    }
    j
}

fn x_eq_run_end(code: &str, i: usize) -> (r: usize)
    requires
        i <= code@.len(),
    ensures
        r == eq_run_end(code@, i as int),
        i <= r <= code@.len(),
{
    let n = code.unicode_len();
    let mut j = i;
    while j < n && code.get_char(j) == '='
        invariant
            i <= j <= n,
            n == code@.len(),
            eq_run_end(code@, i as int) == eq_run_end(code@, j as int),
        decreases n - j,
    {
        j += 1;
    }
    j
}

fn x_short_str_end(code: &str, i: usize, q: char) -> (r: Option<usize>)
    requires
        i <= code@.len(),
    ensures
        match r {
            Some(e) => short_str_end(code@, i as int, q) == Some(e as int) && i < e <= code@.len(),
            None => short_str_end(code@, i as int, q) is None,
        },
{
    let n = code.unicode_len();
    let mut j = i;
    loop
        invariant
            i <= j <= n,
            n == code@.len(),
            short_str_end(code@, i as int, q) == short_str_end(code@, j as int, q),
        decreases n - j,
    {
        if j >= n {
            return None;
        }
        let c = code.get_char(j);
        if c == q {
            return Some(j + 1);
        }
        if c == '\n' {
            return None;
        }
        if c == '\\' {
            if n - j >= 2 {
                j += 2;
            } else {
                return None;
            }
        } else {
            j += 1;
        }
    }
}

fn x_long_open(code: &str, i: usize) -> (r: Option<(usize, usize)>)
    requires
        i <= code@.len(),
    ensures
        match r {
            Some(p) => long_open(code@, i as int) == Some((p.0 as int, p.1 as int)) && i < p.1
                <= code@.len() && p.0 == p.1 - i - 2,
            None => long_open(code@, i as int) is None,
        },
{
    let n = code.unicode_len();
    if i < n && code.get_char(i) == '[' {
        let j = x_eq_run_end(code, i + 1);
        if j < n && code.get_char(j) == '[' {
            return Some((j - i - 1, j + 1));
        }
    }
    None
}

fn x_is_close_at(code: &str, i: usize, level: usize) -> (r: bool)
    requires
        i <= code@.len(),
    ensures
        r == is_close_at(code@, i as int, level as int),
{
    let n = code.unicode_len();
    if i >= n || n - i < 2 || level > n - i - 2 {
        return false;
    }
    if code.get_char(i) != ']' {
        return false;
    }
    let run = x_eq_run_end(code, i + 1);
    proof {
        lemma_eq_run_end(code@, i + 1);
    }
    if run - (i + 1) >= level {
        let r = code.get_char(i + 1 + level) == ']';
        proof {
            if r {
                assert(forall|a: int| i + 1 <= a < i + 1 + level ==> code@[a] == '=');
            } else {
                assert(!is_close_at(code@, i as int, level as int));
            }
        }
        r
    } else {
        proof {
            let re = run as int;
            assert(code@[re] != '=');
            if is_close_at(code@, i as int, level as int) {
                assert(code@[re] == '=');
            }
        }
        false
    }
}

fn x_long_close_at(code: &str, i: usize, level: usize) -> (r: Option<usize>)
    requires
        i <= code@.len(),
    ensures
        match r {
            Some(e) => long_close_at(code@, i as int, level as int) == Some(e as int) && i <= e && e
                + level + 2 <= code@.len(),
            None => long_close_at(code@, i as int, level as int) is None,
        },
{
    let n = code.unicode_len();
    let mut j = i;
    loop
        invariant
            i <= j <= n,
            n == code@.len(),
            long_close_at(code@, i as int, level as int) == long_close_at(
                code@,
                j as int,
                level as int,
            ),
        decreases n - j,
    {
        if j >= n {
            return None;
        }
        if x_is_close_at(code, j, level) {
            return Some(j);
        }
        j += 1;
    }
}

fn x_find_nl(code: &str, i: usize) -> (r: Option<usize>)
    requires
        i <= code@.len(),
    ensures
        match r {
            Some(nl) => find_nl(code@, i as int) == Some(nl as int) && i <= nl < code@.len(),
            None => find_nl(code@, i as int) is None,
        },
{
    let n = code.unicode_len();
    let mut j = i;
    loop
        invariant
            i <= j <= n,
            n == code@.len(),
            find_nl(code@, i as int) == find_nl(code@, j as int),
        decreases n - j,
    {
        if j >= n {
            return None;
        }
        if code.get_char(j) == '\n' {
            return Some(j);
        }
        j += 1;
    }
}

/// The next significant token at or after `i`.
pub fn x_next_tok(code: &str, i: usize) -> (r: Lexed)
    requires
        i <= code@.len(),
    ensures
        lexed_v(r) == next_tok(code@, i as int),
        match r {
            Lexed::Found(t) => i <= t.start < t.end <= code@.len() && (match t.kind {
                TokKind::Str { cs, ce, q } => t.start < cs <= ce && ce < t.end,
                _ => true,
            }),
            _ => true,
        },
    decreases code@.len() - i,
{
    proof {
        lemma_next_tok_bounds(code@, i as int);
    }
    let n = code.unicode_len();
    if i >= n {
        return Lexed::Done;
    }
    let c = code.get_char(i);
    if x_is_ws(c) {
        return x_next_tok(code, i + 1);
    }
    if c == '-' && i + 1 < n && code.get_char(i + 1) == '-' {
        match x_long_open(code, i + 2) {
            Some((level, cs)) => {
                match x_long_close_at(code, cs, level) {
                    None => {
                        return Lexed::Fail;
                    },
                    Some(close) => {
                        let after = close + level + 2;
                        return x_next_tok(code, after);
                    },
                }
            },
            None => {
                match x_find_nl(code, i + 2) {
                    None => {
                        return Lexed::Done;
                    },
                    Some(nl) => {
                        return x_next_tok(code, nl + 1);
                    },
                }
            },
        }
    }
    if c == '\'' || c == '"' {
        match x_short_str_end(code, i + 1, c) {
            None => {
                return Lexed::Fail;
            },
            Some(e) => {
                let q = if c == '\'' {
                    QuoteKind::Single
                } else {
                    QuoteKind::Double
                };
                return Lexed::Found(
                    Tok { kind: TokKind::Str { cs: i + 1, ce: e - 1, q }, start: i, end: e },
                );
            },
        }
    }
    match x_long_open(code, i) {
        Some((level, cs)) => {
            match x_long_close_at(code, cs, level) {
                None => {
                    return Lexed::Fail;
                },
                Some(close) => {
                    return Lexed::Found(
                        Tok {
                            kind: TokKind::Str { cs, ce: close, q: QuoteKind::Long { level } },
                            start: i,
                            end: close + level + 2,
                        },
                    );
                },
            }
        },
        None => {},
    }
    if x_is_ident_start(c) {
        let e = x_ident_end(code, i + 1);
        return Lexed::Found(Tok { kind: TokKind::Ident, start: i, end: e });
    }
    if x_is_digit(c) {
        let e = x_num_end(code, i + 1);
        return Lexed::Found(Tok { kind: TokKind::Num, start: i, end: e });
    }
    Lexed::Found(Tok { kind: TokKind::Sym, start: i, end: i + 1 })
}

} // verus!
