//! Tokens and syntax-tree nodes, the lexer, and the parser with its macro
//! expansion and array-fusion pass.
//!
//! All offsets count grapheme clusters of the source text; a token or node
//! never stores text of its own, only its half-open offset span.

use vstd::prelude::*;

use crate::error::CompileError;
use crate::error::ErrV;
use crate::error::syntax_err;
use crate::seg::graphemes_of;
use crate::seg::split_graphemes;

verus! {

/// The lexical class of one grapheme, or of a finished token.
#[derive(Debug, PartialEq, Eq, Structural, Copy, Clone)]
pub enum TokenType {
    Int,
    Name,
    Literal,
    CodeBegin,
    CodeEnd,
    ExprBegin,
    ExprEnd,
    Quote,
    String,
    Space,
    NewLine,
    EscapeSymbol,
    FormatSymbol,
    Range,
    RangeBegin,
    RangeSep,
    RangeEnd,
    MacroDef,
    MacroExp,
    Pipe,
}

/// The lexical class of a single grapheme cluster.
pub open spec fn spec_classify(g: Seq<char>) -> TokenType {
    if g =~= seq!['\n'] || g =~= seq!['\r', '\n'] {
        TokenType::NewLine
    } else if g =~= seq![' '] || g =~= seq!['\t'] {
        TokenType::Space
    } else if g =~= seq!['?'] {
        TokenType::MacroExp
    } else if g =~= seq!['{'] {
        TokenType::CodeBegin
    } else if g =~= seq!['}'] {
        TokenType::CodeEnd
    } else if g =~= seq!['\\'] {
        TokenType::EscapeSymbol
    } else if g =~= seq!['$'] {
        TokenType::FormatSymbol
    } else if g =~= seq!['"'] {
        TokenType::Quote
    } else if g =~= seq!['['] {
        TokenType::RangeBegin
    } else if g =~= seq![':'] {
        TokenType::RangeSep
    } else if g =~= seq![']'] {
        TokenType::RangeEnd
    } else if g =~= seq!['@'] {
        TokenType::MacroDef
    } else if g.len() == 1 && '0' <= g[0] && g[0] <= '9' {
        TokenType::Int
    } else if g =~= seq!['('] {
        TokenType::ExprBegin
    } else if g =~= seq![')'] {
        TokenType::ExprEnd
    } else {
        TokenType::Literal
    }
}

/// Whether the grapheme is exactly the one character `c`.
pub open spec fn spec_is_char(g: Seq<char>, c: char) -> bool {
    g =~= seq![c]
}

fn is_char(g: &String, c: char) -> (r: bool)
    ensures
        r == spec_is_char(g@, c),
{
    let r = g.as_str().unicode_len() == 1 && g.as_str().get_char(0) == c;
    proof {
        if r {
            assert(g@ =~= seq![c]);
        }
    }
    r
}

fn classify(g: &String) -> (r: TokenType)
    ensures
        r == spec_classify(g@),
{
    let s = g.as_str();
    let n = s.unicode_len();
    if n == 1 {
        let c = s.get_char(0);
        let r = if c == '\n' {
            TokenType::NewLine
        } else if c == ' ' || c == '\t' {
            TokenType::Space
        } else if c == '?' {
            TokenType::MacroExp
        } else if c == '{' {
            TokenType::CodeBegin
        } else if c == '}' {
            TokenType::CodeEnd
        } else if c == '\\' {
            TokenType::EscapeSymbol
        } else if c == '$' {
            TokenType::FormatSymbol
        } else if c == '"' {
            TokenType::Quote
        } else if c == '[' {
            TokenType::RangeBegin
        } else if c == ':' {
            TokenType::RangeSep
        } else if c == ']' {
            TokenType::RangeEnd
        } else if c == '@' {
            TokenType::MacroDef
        } else if '0' <= c && c <= '9' {
            TokenType::Int
        } else if c == '(' {
            TokenType::ExprBegin
        } else if c == ')' {
            TokenType::ExprEnd
        } else {
            TokenType::Literal
        };
        proof {
            assert(g@ =~= seq![g@[0]]);
        }
        r
    } else if n == 2 && s.get_char(0) == '\r' && s.get_char(1) == '\n' {
        proof {
            assert(g@ =~= seq!['\r', '\n']);
        }
        TokenType::NewLine
    } else {
        proof {
            assert(g@.len() != 1 && !(g@ =~= seq!['\r', '\n']));
        }
        TokenType::Literal
    }
}

/// One token: a lexical class and a half-open grapheme span of the source.
#[derive(Debug, PartialEq, Eq, Structural, Copy, Clone)]
pub struct Token {
    pub token_type: TokenType,
    pub first_char: usize,
    pub end_char: usize,
}

impl Token {
    pub fn new(first_char: usize, end_char: usize, token_type: TokenType) -> (r: Token)
        ensures
            r == (Token { token_type, first_char, end_char }),
    {
        Token { token_type, first_char, end_char }
    }

    /// The text this token spans, as a fresh string.
    pub fn as_str(&self, code: &str) -> (r: String)
        requires
            self.first_char <= self.end_char <= graphemes_of(code@).len(),
        ensures
            r@ == graphemes_of(code@).subrange(
                self.first_char as int,
                self.end_char as int,
            ).flatten(),
    {
        let gs = split_graphemes(code);
        crate::seg::concat_range(&gs, self.first_char, self.end_char)
    }
}

/// The result of one scanning helper: what it found (or the failure), and the
/// position just past everything it consumed.
pub ghost enum Found {
    At { index: int, next: int },
    Failed { e: ErrV, next: int },
}

/// Pulls one grapheme, skipping escape backslashes, and demands that it be of
/// one of the `expected` classes and unescaped; reports the matched index.
pub open spec fn spec_expect(gs: Seq<Seq<char>>, i: int, esc: bool, hi: int, expected: Seq<
    TokenType,
>) -> Found
    decreases hi - i,
{
    if i >= hi {
        Found::Failed { e: syntax_err(0, expected), next: i }
    } else if gs[i] =~= seq!['\\'] && !esc {
        spec_expect(gs, i + 1, true, hi, expected)
    } else if expected.contains(spec_classify(gs[i])) {
        if esc {
            Found::Failed { e: syntax_err(i - 1, expected), next: i + 1 }
        } else {
            Found::At { index: i, next: i + 1 }
        }
    } else {
        Found::Failed { e: syntax_err(i, expected), next: i + 1 }
    }
}

/// Scans forward to the first unescaped grapheme of one of the `expected`
/// classes, consuming it; everything else is skipped. Failure reports the
/// last index scanned, or `last`'s starting value when nothing was.
pub open spec fn spec_find_symbol(
    gs: Seq<Seq<char>>,
    i: int,
    esc: bool,
    hi: int,
    expected: Seq<TokenType>,
    last: int,
) -> Found
    decreases hi - i,
{
    if i >= hi {
        Found::Failed { e: syntax_err(last, expected), next: i }
    } else if gs[i] =~= seq!['\\'] && !esc {
        spec_find_symbol(gs, i + 1, true, hi, expected, last)
    } else if expected.contains(spec_classify(gs[i])) && !esc {
        Found::At { index: i, next: i + 1 }
    } else {
        spec_find_symbol(gs, i + 1, false, hi, expected, i)
    }
}

/// Scans a maximal run of graphemes of class `expected` (escaped graphemes
/// count as literal text), ending at a grapheme of one of the `term` classes,
/// which is consumed; any other class is a failure. Running out of graphemes
/// ends the run one past its last grapheme.
pub open spec fn spec_find_boundary(
    gs: Seq<Seq<char>>,
    i: int,
    esc: bool,
    hi: int,
    expected: TokenType,
    term: Seq<TokenType>,
    last: int,
) -> Found
    decreases hi - i,
{
    if i >= hi {
        Found::At { index: last + 1, next: i }
    } else if gs[i] =~= seq!['\\'] && !esc {
        spec_find_boundary(gs, i + 1, true, hi, expected, term, last)
    } else {
        let t = if esc {
            TokenType::Literal
        } else {
            spec_classify(gs[i])
        };
        if t != expected {
            if term.contains(t) {
                Found::At { index: i, next: i + 1 }
            } else {
                Found::Failed { e: syntax_err(i, term), next: i + 1 }
            }
        } else {
            spec_find_boundary(gs, i + 1, false, hi, expected, term, i)
        }
    }
}

fn contains_type(v: &Vec<TokenType>, t: TokenType) -> (r: bool)
    ensures
        r == v@.contains(t),
{
    let mut j: usize = 0;
    while j < v.len()
        invariant
            j <= v.len(),
            forall|k: int| 0 <= k < j ==> v@[k] != t,
        decreases v.len() - j,
    {
        if v[j] == t {
            return true;
        }
        j += 1;
    }
    false
}

fn one_type(a: TokenType) -> (r: Vec<TokenType>)
    ensures
        r@ == seq![a],
{
    let mut v: Vec<TokenType> = Vec::new();
    v.push(a);
    proof {
        assert(v@ =~= seq![a]);
    }
    v
}

fn two_types(a: TokenType, b: TokenType) -> (r: Vec<TokenType>)
    ensures
        r@ == seq![a, b],
{
    let mut v: Vec<TokenType> = Vec::new();
    v.push(a);
    v.push(b);
    proof {
        assert(v@ =~= seq![a, b]);
    }
    v
}

fn three_types(a: TokenType, b: TokenType, c: TokenType) -> (r: Vec<TokenType>)
    ensures
        r@ == seq![a, b, c],
{
    let mut v: Vec<TokenType> = Vec::new();
    v.push(a);
    v.push(b);
    v.push(c);
    proof {
        assert(v@ =~= seq![a, b, c]);
    }
    v
}

fn expect_symbol(gs: &Vec<String>, i: usize, esc: bool, hi: usize, expected: &Vec<TokenType>) -> (r:
    (Result<usize, CompileError>, usize))
    requires
        hi <= gs.len(),
        gs.len() < usize::MAX,
        esc ==> i >= 1,
    ensures
        (match r.0 {
            Ok(idx) => spec_expect(gs.deep_view(), i as int, esc, hi as int, expected@)
                == (Found::At { index: idx as int, next: r.1 as int }) && i <= idx < hi && r.1 == idx
                + 1,
            Err(e) => spec_expect(gs.deep_view(), i as int, esc, hi as int, expected@)
                == (Found::Failed { e: e@, next: r.1 as int }),
        }),
{
    let ghost gsv = gs.deep_view();
    let mut j = i;
    let mut e = esc;
    while j < hi
        invariant
            i <= j,
            hi <= gs.len(),
            gs.len() < usize::MAX,
            gsv == gs.deep_view(),
            e ==> j >= 1,
            spec_expect(gsv, i as int, esc, hi as int, expected@) == spec_expect(
                gsv,
                j as int,
                e,
                hi as int,
                expected@,
            ),
        decreases hi - j,
    {
        if is_char(&gs[j], '\\') && !e {
            j += 1;
            e = true;
        } else if contains_type(expected, classify(&gs[j])) {
            if e {
                return (Err(CompileError::new_syntax(j - 1, expected.as_slice())), j + 1);
            } else {
                return (Ok(j), j + 1);
            }
        } else {
            return (Err(CompileError::new_syntax(j, expected.as_slice())), j + 1);
        }
    }
    (Err(CompileError::new_syntax(0, expected.as_slice())), j)
}

fn find_symbol(gs: &Vec<String>, i: usize, esc: bool, hi: usize, expected: &Vec<TokenType>, last:
    usize) -> (r: Result<(usize, usize), CompileError>)
    requires
        hi <= gs.len(),
        gs.len() < usize::MAX,
    ensures
        (match r {
            Ok((idx, next)) => spec_find_symbol(
                gs.deep_view(),
                i as int,
                esc,
                hi as int,
                expected@,
                last as int,
            ) == (Found::At { index: idx as int, next: next as int }) && i <= idx < hi && next == idx
                + 1,
            Err(e) => (exists|next: int|
                spec_find_symbol(gs.deep_view(), i as int, esc, hi as int, expected@, last as int)
                    == (Found::Failed { e: e@, next })),
        }),
{
    let ghost gsv = gs.deep_view();
    let mut j = i;
    let mut e = esc;
    let mut l = last;
    while j < hi
        invariant
            i <= j,
            hi <= gs.len(),
            gs.len() < usize::MAX,
            gsv == gs.deep_view(),
            spec_find_symbol(gsv, i as int, esc, hi as int, expected@, last as int)
                == spec_find_symbol(gsv, j as int, e, hi as int, expected@, l as int),
        decreases hi - j,
    {
        if is_char(&gs[j], '\\') && !e {
            j += 1;
            e = true;
        } else if contains_type(expected, classify(&gs[j])) && !e {
            return Ok((j, j + 1));
        } else {
            l = j;
            j += 1;
            e = false;
        }
    }
    Err(CompileError::new_syntax(l, expected.as_slice()))
}

fn find_boundary(
    gs: &Vec<String>,
    i: usize,
    esc: bool,
    hi: usize,
    expected: TokenType,
    term: &Vec<TokenType>,
    last: usize,
) -> (r: Result<(usize, usize), CompileError>)
    requires
        i <= hi <= gs.len(),
        gs.len() < usize::MAX,
        last < i,
    ensures
        (match r {
            Ok((idx, next)) => spec_find_boundary(
                gs.deep_view(),
                i as int,
                esc,
                hi as int,
                expected,
                term@,
                last as int,
            ) == (Found::At { index: idx as int, next: next as int }) && idx <= hi && next <= hi
                && idx <= next && last < idx,
            Err(e) => (exists|next: int|
                spec_find_boundary(
                    gs.deep_view(),
                    i as int,
                    esc,
                    hi as int,
                    expected,
                    term@,
                    last as int,
                ) == (Found::Failed { e: e@, next })),
        }),
{
    let ghost gsv = gs.deep_view();
    let mut j = i;
    let mut e = esc;
    let mut l = last;
    while j < hi
        invariant
            i <= j <= hi,
            hi <= gs.len(),
            gs.len() < usize::MAX,
            l < hi,
            last <= l < j,
            gsv == gs.deep_view(),
            spec_find_boundary(gsv, i as int, esc, hi as int, expected, term@, last as int)
                == spec_find_boundary(gsv, j as int, e, hi as int, expected, term@, l as int),
        decreases hi - j,
    {
        if is_char(&gs[j], '\\') && !e {
            j += 1;
            e = true;
        } else {
            let t = if e {
                TokenType::Literal
            } else {
                classify(&gs[j])
            };
            if t != expected {
                if contains_type(term, t) {
                    return Ok((j, j + 1));
                } else {
                    return Err(CompileError::new_syntax(j, term.as_slice()));
                }
            } else {
                l = j;
                j += 1;
                e = false;
            }
        }
    }
    Ok((l + 1, j))
}

/// Scans the inside of a directive block for its closing marker: an unescaped
/// `}` ends it; an unescaped `{` is a nesting error; running out of graphemes
/// leaves the block unterminated.
pub open spec fn spec_find_code_end(gs: Seq<Seq<char>>, i: int, esc: bool, hi: int) -> Found
    decreases hi - i,
{
    if i >= hi {
        Found::Failed { e: syntax_err(0, seq![TokenType::CodeEnd]), next: i }
    } else if gs[i] =~= seq!['\\'] && !esc {
        spec_find_code_end(gs, i + 1, true, hi)
    } else if !esc && spec_is_char(gs[i], '{') {
        Found::Failed { e: syntax_err(i, seq![TokenType::CodeEnd]), next: i + 1 }
    } else if !esc && spec_is_char(gs[i], '}') {
        Found::At { index: i, next: i + 1 }
    } else {
        spec_find_code_end(gs, i + 1, false, hi)
    }
}

pub proof fn lemma_expect_bounds(gs: Seq<Seq<char>>, i: int, esc: bool, hi: int, expected: Seq<
    TokenType,
>)
    requires
        i <= hi,
    ensures
        (match spec_expect(gs, i, esc, hi, expected) {
            Found::At { index, next } => i <= index < hi && next == index + 1,
            Found::Failed { e, next } => i <= next <= hi,
        }),
    decreases hi - i,
{
    if i < hi && gs[i] =~= seq!['\\'] && !esc {
        lemma_expect_bounds(gs, i + 1, true, hi, expected);
    }
}

pub proof fn lemma_find_symbol_bounds(
    gs: Seq<Seq<char>>,
    i: int,
    esc: bool,
    hi: int,
    expected: Seq<TokenType>,
    last: int,
)
    requires
        i <= hi,
    ensures
        (match spec_find_symbol(gs, i, esc, hi, expected, last) {
            Found::At { index, next } => i <= index < hi && next == index + 1,
            Found::Failed { e, next } => next == hi,
        }),
    decreases hi - i,
{
    if i < hi {
        if gs[i] =~= seq!['\\'] && !esc {
            lemma_find_symbol_bounds(gs, i + 1, true, hi, expected, last);
        } else if !(expected.contains(spec_classify(gs[i])) && !esc) {
            lemma_find_symbol_bounds(gs, i + 1, false, hi, expected, i);
        }
    }
}

pub proof fn lemma_find_boundary_bounds(
    gs: Seq<Seq<char>>,
    i: int,
    esc: bool,
    hi: int,
    expected: TokenType,
    term: Seq<TokenType>,
    last: int,
)
    requires
        i <= hi,
        last < i,
    ensures
        (match spec_find_boundary(gs, i, esc, hi, expected, term, last) {
            Found::At { index, next } => last < index <= hi && i <= next <= hi && index <= next && (
            i < hi ==> i < next),
            Found::Failed { e, next } => i <= next <= hi,
        }),
    decreases hi - i,
{
    if i < hi {
        if gs[i] =~= seq!['\\'] && !esc {
            lemma_find_boundary_bounds(gs, i + 1, true, hi, expected, term, last);
        } else {
            let t = if esc {
                TokenType::Literal
            } else {
                spec_classify(gs[i])
            };
            if t == expected {
                lemma_find_boundary_bounds(gs, i + 1, false, hi, expected, term, i);
            }
        }
    }
}

pub proof fn lemma_find_code_end_bounds(gs: Seq<Seq<char>>, i: int, esc: bool, hi: int)
    requires
        i <= hi,
    ensures
        (match spec_find_code_end(gs, i, esc, hi) {
            Found::At { index, next } => i <= index < hi && next == index + 1,
            Found::Failed { e, next } => i <= next <= hi,
        }),
    decreases hi - i,
{
    if i < hi {
        if gs[i] =~= seq!['\\'] && !esc {
            lemma_find_code_end_bounds(gs, i + 1, true, hi);
        } else if !(!esc && spec_is_char(gs[i], '{')) && !(!esc && spec_is_char(gs[i], '}')) {
            lemma_find_code_end_bounds(gs, i + 1, false, hi);
        }
    }
}

/// All graphemes in `[a, b)` are ASCII text.
pub open spec fn spec_ascii_range(gs: Seq<Seq<char>>, a: int, b: int) -> bool {
    forall|j: int| a <= j < b ==> vstd::utf8::is_ascii_chars(#[trigger] gs[j])
}

fn ascii_range(gs: &Vec<String>, a: usize, b: usize) -> (r: bool)
    requires
        a <= b <= gs.len(),
    ensures
        r == spec_ascii_range(gs.deep_view(), a as int, b as int),
{
    let mut j = a;
    while j < b
        invariant
            a <= j <= b <= gs.len(),
            forall|k: int| a <= k < j ==> vstd::utf8::is_ascii_chars(#[trigger] gs.deep_view()[k]),
        decreases b - j,
    {
        proof {
            assert(gs.deep_view()[j as int] == gs@[j as int]@);
        }
        if !gs[j].as_str().is_ascii() {
            return false;
        }
        j += 1;
    }
    true
}

/// The token stream of the inside of one directive block, `[i, hi)` of the
/// source's graphemes, appended to `acc`. Whitespace only separates tokens;
/// newlines are significant; comments run to the end of the line; a quoted
/// string must be followed by a separator; names must be ASCII and may carry
/// a bracketed range with no separation; escaping is not permitted.
pub open spec fn spec_lex_code(gs: Seq<Seq<char>>, i: int, esc: bool, hi: int, acc: Seq<Token>) -> Result<
    Seq<Token>,
    ErrV,
>
    decreases hi - i,
        via check_lex_code_decreases
{
    if i >= hi {
        Ok(acc)
    } else if gs[i] =~= seq!['\\'] && !esc {
        spec_lex_code(gs, i + 1, true, hi, acc)
    } else if esc {
        Err(syntax_err(i - 1, Seq::empty()))
    } else if spec_is_char(gs[i], '@') {
        match spec_find_boundary(gs, i + 1, false, hi, TokenType::Literal, seq![TokenType::Space], i) {
            Found::At { index: end_t, next } => spec_lex_code(
                gs,
                next,
                false,
                hi,
                acc.push(Token { token_type: TokenType::MacroDef, first_char: i as usize, end_char: end_t as usize }),
            ),
            Found::Failed { e, .. } => Err(e),
        }
    } else if spec_is_char(gs[i], '?') {
        match spec_find_symbol(gs, i + 1, false, hi, seq![TokenType::Space, TokenType::NewLine], 0) {
            Found::At { index: end_t, next } => spec_lex_code(
                gs,
                next,
                false,
                hi,
                acc.push(Token { token_type: TokenType::MacroExp, first_char: i as usize, end_char: end_t as usize }),
            ),
            Found::Failed { e, .. } => Err(e),
        }
    } else if spec_is_char(gs[i], '"') {
        match spec_find_symbol(gs, i + 1, false, hi, seq![TokenType::Quote], i) {
            Found::At { index: qend, next } => match spec_expect(
                gs,
                next,
                false,
                hi,
                seq![TokenType::Space, TokenType::NewLine],
            ) {
                Found::At { index: sym, next: n2 } => {
                    let acc1 = acc.push(Token { token_type: TokenType::String, first_char: i as usize, end_char: (qend + 1) as usize });
                    let acc2 = if spec_classify(gs[sym]) == TokenType::NewLine {
                        acc1.push(Token { token_type: TokenType::NewLine, first_char: qend as usize, end_char: (qend + 1) as usize })
                    } else {
                        acc1
                    };
                    spec_lex_code(gs, n2, false, hi, acc2)
                },
                Found::Failed { e, .. } => Err(e),
            },
            Found::Failed { e, .. } => Err(e),
        }
    } else if spec_is_char(gs[i], '#') {
        match spec_find_symbol(gs, i + 1, false, hi, seq![TokenType::NewLine], 0) {
            Found::At { index: nl, next } => spec_lex_code(
                gs,
                next,
                false,
                hi,
                acc.push(Token { token_type: TokenType::NewLine, first_char: nl as usize, end_char: (nl + 1) as usize }),
            ),
            Found::Failed { .. } => Ok(acc),
        }
    } else if spec_is_char(gs[i], '|') {
        spec_lex_code(
            gs,
            i + 1,
            false,
            hi,
            acc.push(Token { token_type: TokenType::Pipe, first_char: i as usize, end_char: (i + 1) as usize }),
        )
    } else if spec_classify(gs[i]) == TokenType::Int {
        match spec_find_boundary(
            gs,
            i + 1,
            false,
            hi,
            TokenType::Int,
            seq![TokenType::Space, TokenType::NewLine],
            i,
        ) {
            Found::At { index: end_t, next } => spec_lex_code(
                gs,
                next,
                false,
                hi,
                acc.push(Token { token_type: TokenType::Int, first_char: i as usize, end_char: end_t as usize }),
            ),
            Found::Failed { e, .. } => Err(e),
        }
    } else if spec_classify(gs[i]) == TokenType::NewLine {
        spec_lex_code(
            gs,
            i + 1,
            false,
            hi,
            acc.push(Token { token_type: TokenType::NewLine, first_char: i as usize, end_char: (i + 1) as usize }),
        )
    } else if spec_is_char(gs[i], ' ') || spec_is_char(gs[i], '\t') {
        spec_lex_code(gs, i + 1, false, hi, acc)
    } else {
        match spec_find_boundary(
            gs,
            i + 1,
            false,
            hi,
            TokenType::Literal,
            seq![TokenType::Space, TokenType::NewLine, TokenType::RangeBegin],
            i,
        ) {
            Found::At { index: end_t, next } => {
                let acc1 = acc.push(Token { token_type: TokenType::Name, first_char: i as usize, end_char: end_t as usize });
                if !spec_ascii_range(gs, i, end_t) {
                    Err(crate::error::name_err(i))
                } else if end_t + 1 < hi && spec_is_char(gs[end_t], '[') {
                    match spec_find_symbol(gs, next, false, hi, seq![TokenType::RangeEnd], 0) {
                        Found::At { index: rend, next: n2 } => spec_lex_code(
                            gs,
                            n2,
                            false,
                            hi,
                            acc1.push(Token { token_type: TokenType::Range, first_char: end_t as usize, end_char: (rend + 1) as usize }),
                        ),
                        Found::Failed { e, .. } => Err(e),
                    }
                } else {
                    spec_lex_code(gs, next, false, hi, acc1)
                }
            },
            Found::Failed { e, .. } => Err(e),
        }
    }
}

#[via_fn]
proof fn check_lex_code_decreases(gs: Seq<Seq<char>>, i: int, esc: bool, hi: int, acc: Seq<Token>) {
    if i < hi {
        lemma_find_boundary_bounds(
            gs,
            i + 1,
            false,
            hi,
            TokenType::Literal,
            seq![TokenType::Space],
            i,
        );
        lemma_find_symbol_bounds(
            gs,
            i + 1,
            false,
            hi,
            seq![TokenType::Space, TokenType::NewLine],
            0,
        );
        lemma_find_symbol_bounds(gs, i + 1, false, hi, seq![TokenType::Quote], i);
        match spec_find_symbol(gs, i + 1, false, hi, seq![TokenType::Quote], i) {
            Found::At { index: qend, next } => {
                lemma_expect_bounds(
                    gs,
                    next,
                    false,
                    hi,
                    seq![TokenType::Space, TokenType::NewLine],
                );
            },
            Found::Failed { .. } => {},
        }
        lemma_find_symbol_bounds(gs, i + 1, false, hi, seq![TokenType::NewLine], 0);
        lemma_find_boundary_bounds(
            gs,
            i + 1,
            false,
            hi,
            TokenType::Int,
            seq![TokenType::Space, TokenType::NewLine],
            i,
        );
        lemma_find_boundary_bounds(
            gs,
            i + 1,
            false,
            hi,
            TokenType::Literal,
            seq![TokenType::Space, TokenType::NewLine, TokenType::RangeBegin],
            i,
        );
        match spec_find_boundary(
            gs,
            i + 1,
            false,
            hi,
            TokenType::Literal,
            seq![TokenType::Space, TokenType::NewLine, TokenType::RangeBegin],
            i,
        ) {
            Found::At { index: end_t, next } => {
                lemma_find_symbol_bounds(gs, next, false, hi, seq![TokenType::RangeEnd], 0);
            },
            Found::Failed { .. } => {},
        }
    }
}

/// A token's span lies within the source and is ordered; every token but a
/// literal run spans at least one grapheme.
pub open spec fn token_wf(t: Token, glen: int) -> bool {
    &&& t.first_char <= t.end_char <= glen
    &&& (t.token_type != TokenType::Literal ==> t.first_char < t.end_char)
}

fn lex_code(gs: &Vec<String>, lo: usize, hi: usize, tokens: &mut Vec<Token>) -> (r: Result<
    (),
    CompileError,
>)
    requires
        lo <= hi <= gs.len(),
        gs.len() < usize::MAX,
    ensures
        (match r {
            Ok(()) => spec_lex_code(gs.deep_view(), lo as int, false, hi as int, old(tokens)@)
                == Ok::<Seq<Token>, ErrV>(final(tokens)@) && final(tokens)@.len() >= old(
                tokens,
            )@.len() && final(tokens)@.subrange(0, old(tokens)@.len() as int) == old(tokens)@
                && (forall|j: int|
                old(tokens)@.len() <= j < final(tokens)@.len() ==> token_wf(
                    #[trigger] final(tokens)@[j],
                    gs.len() as int,
                )),
            Err(e) => spec_lex_code(gs.deep_view(), lo as int, false, hi as int, old(tokens)@)
                == Err::<Seq<Token>, ErrV>(e@),
        }),
{
    let ghost gsv = gs.deep_view();
    let ghost toks0 = old(tokens)@;
    let mut i = lo;
    let mut esc = false;
    while i < hi
        invariant
            lo <= i,
            hi <= gs.len(),
            gs.len() < usize::MAX,
            gsv == gs.deep_view(),
            toks0 == old(tokens)@,
            esc ==> i >= 1,
            spec_lex_code(gsv, lo as int, false, hi as int, toks0) == spec_lex_code(
                gsv,
                i as int,
                esc,
                hi as int,
                tokens@,
            ),
            tokens@.len() >= toks0.len(),
            tokens@.subrange(0, toks0.len() as int) == toks0,
            forall|j: int|
                toks0.len() <= j < tokens@.len() ==> token_wf(
                    #[trigger] tokens@[j],
                    gs.len() as int,
                ),
        decreases hi - i,
    {
        let ghost toks_pre = tokens@;
        if is_char(&gs[i], '\\') && !esc {
            i += 1;
            esc = true;
        } else if esc {
            return Err(CompileError::new_syntax(i - 1, Vec::new().as_slice()));
        } else if is_char(&gs[i], '@') {
            let term = one_type(TokenType::Space);
            match find_boundary(gs, i + 1, false, hi, TokenType::Literal, &term, i) {
                Ok((end_t, next)) => {
                    tokens.push(Token::new(i, end_t, TokenType::MacroDef));
                    proof {
                        assert(tokens@.subrange(0, toks0.len() as int) =~= toks0);
                    }
                    i = next;
                    esc = false;
                },
                Err(e) => {
                    return Err(e);
                },
            }
        } else if is_char(&gs[i], '?') {
            let term = two_types(TokenType::Space, TokenType::NewLine);
            match find_symbol(gs, i + 1, false, hi, &term, 0) {
                Ok((end_t, next)) => {
                    tokens.push(Token::new(i, end_t, TokenType::MacroExp));
                    proof {
                        assert(tokens@.subrange(0, toks0.len() as int) =~= toks0);
                    }
                    i = next;
                    esc = false;
                },
                Err(e) => {
                    return Err(e);
                },
            }
        } else if is_char(&gs[i], '"') {
            let quote = one_type(TokenType::Quote);
            match find_symbol(gs, i + 1, false, hi, &quote, i) {
                Ok((qend, n1)) => {
                    let sep = two_types(TokenType::Space, TokenType::NewLine);
                    let (res, n2) = expect_symbol(gs, n1, false, hi, &sep);
                    match res {
                        Ok(sym) => {
                            tokens.push(Token::new(i, qend + 1, TokenType::String));
                            if classify(&gs[sym]) == TokenType::NewLine {
                                tokens.push(Token::new(qend, qend + 1, TokenType::NewLine));
                            }
                            proof {
                                assert(tokens@.subrange(0, toks0.len() as int) =~= toks0);
                            }
                            i = n2;
                            esc = false;
                        },
                        Err(e) => {
                            return Err(e);
                        },
                    }
                },
                Err(e) => {
                    return Err(e);
                },
            }
        } else if is_char(&gs[i], '#') {
            let nl = one_type(TokenType::NewLine);
            match find_symbol(gs, i + 1, false, hi, &nl, 0) {
                Ok((at, next)) => {
                    tokens.push(Token::new(at, at + 1, TokenType::NewLine));
                    proof {
                        assert(tokens@.subrange(0, toks0.len() as int) =~= toks0);
                    }
                    i = next;
                    esc = false;
                },
                Err(_) => {
                    proof {
                        assert(spec_lex_code(gsv, i as int, esc, hi as int, toks_pre)
                            == Ok::<Seq<Token>, ErrV>(toks_pre));
                    }
                    return Ok(());
                },
            }
        } else if is_char(&gs[i], '|') {
            tokens.push(Token::new(i, i + 1, TokenType::Pipe));
            proof {
                assert(tokens@.subrange(0, toks0.len() as int) =~= toks0);
            }
            i += 1;
            esc = false;
        } else if classify(&gs[i]) == TokenType::Int {
            let term = two_types(TokenType::Space, TokenType::NewLine);
            match find_boundary(gs, i + 1, false, hi, TokenType::Int, &term, i) {
                Ok((end_t, next)) => {
                    tokens.push(Token::new(i, end_t, TokenType::Int));
                    proof {
                        assert(tokens@.subrange(0, toks0.len() as int) =~= toks0);
                    }
                    i = next;
                    esc = false;
                },
                Err(e) => {
                    return Err(e);
                },
            }
        } else if classify(&gs[i]) == TokenType::NewLine {
            tokens.push(Token::new(i, i + 1, TokenType::NewLine));
            proof {
                assert(tokens@.subrange(0, toks0.len() as int) =~= toks0);
            }
            i += 1;
            esc = false;
        } else if is_char(&gs[i], ' ') || is_char(&gs[i], '\t') {
            i += 1;
            esc = false;
        } else {
            let term = three_types(TokenType::Space, TokenType::NewLine, TokenType::RangeBegin);
            match find_boundary(gs, i + 1, false, hi, TokenType::Literal, &term, i) {
                Ok((end_t, n1)) => {
                    tokens.push(Token::new(i, end_t, TokenType::Name));
                    if !ascii_range(gs, i, end_t) {
                        return Err(CompileError::new_name(i));
                    }
                    if end_t + 1 < hi && is_char(&gs[end_t], '[') {
                        let rb = one_type(TokenType::RangeEnd);
                        match find_symbol(gs, n1, false, hi, &rb, 0) {
                            Ok((rend, n2)) => {
                                tokens.push(Token::new(end_t, rend + 1, TokenType::Range));
                                proof {
                                    assert(tokens@.subrange(0, toks0.len() as int) =~= toks0);
                                }
                                i = n2;
                                esc = false;
                            },
                            Err(e) => {
                                return Err(e);
                            },
                        }
                    } else {
                        proof {
                            assert(tokens@.subrange(0, toks0.len() as int) =~= toks0);
                        }
                        i = n1;
                        esc = false;
                    }
                },
                Err(e) => {
                    return Err(e);
                },
            }
        }
    }
    Ok(())
}

/// The token stream of a whole source text. Outside directive blocks all
/// text accumulates into literal tokens; an unescaped `{` must open a `{{`
/// block whose inside is lexed by `spec_lex_code`; `\` may escape only the
/// block markers; a stray `}` or an unterminated block is a syntax error.
pub open spec fn spec_lex_main(
    gs: Seq<Seq<char>>,
    i: int,
    esc: bool,
    lit_begin: int,
    lit_end: int,
    acc: Seq<Token>,
) -> Result<Seq<Token>, ErrV>
    decreases gs.len() - i,
        via check_lex_main_decreases
{
    let hi = gs.len() as int;
    if i >= hi {
        Ok(
            acc.push(
                Token {
                    token_type: TokenType::Literal,
                    first_char: lit_begin as usize,
                    end_char: (lit_end + 1) as usize,
                },
            ),
        )
    } else if gs[i] =~= seq!['\\'] && !esc {
        spec_lex_main(gs, i + 1, true, lit_begin, lit_end, acc)
    } else if !esc && spec_is_char(gs[i], '{') {
        let acc1 = acc.push(
            Token {
                token_type: TokenType::Literal,
                first_char: lit_begin as usize,
                end_char: i as usize,
            },
        );
        match spec_expect(gs, i + 1, false, hi, seq![TokenType::CodeBegin]) {
            Found::Failed { e, .. } => Err(e),
            Found::At { next: i2, .. } => match spec_find_code_end(gs, i2, false, hi) {
                Found::Failed { e, .. } => Err(e),
                Found::At { index: end, next: i3 } => match spec_expect(
                    gs,
                    i3,
                    false,
                    hi,
                    seq![TokenType::CodeEnd],
                ) {
                    Found::Failed { e, .. } => Err(e),
                    Found::At { .. } => match spec_lex_code(gs, i2, false, end, acc1) {
                        Err(e) => Err(e),
                        Ok(acc2) => {
                            let nb = end + 2;
                            let ne = if nb <= hi - 1 {
                                nb
                            } else {
                                hi - 1
                            };
                            spec_lex_main(gs, nb, false, nb, ne, acc2)
                        },
                    },
                },
            },
        }
    } else if !esc && spec_is_char(gs[i], '}') {
        Err(syntax_err(i, seq![TokenType::CodeBegin]))
    } else if esc && !(spec_is_char(gs[i], '{') || spec_is_char(gs[i], '}')) {
        Err(syntax_err(i, seq![TokenType::CodeBegin, TokenType::CodeEnd]))
    } else {
        spec_lex_main(gs, i + 1, false, lit_begin, i, acc)
    }
}

#[via_fn]
proof fn check_lex_main_decreases(
    gs: Seq<Seq<char>>,
    i: int,
    esc: bool,
    lit_begin: int,
    lit_end: int,
    acc: Seq<Token>,
) {
    let hi = gs.len() as int;
    if i < hi {
        lemma_expect_bounds(gs, i + 1, false, hi, seq![TokenType::CodeBegin]);
        match spec_expect(gs, i + 1, false, hi, seq![TokenType::CodeBegin]) {
            Found::At { next: i2, .. } => {
                lemma_find_code_end_bounds(gs, i2, false, hi);
                match spec_find_code_end(gs, i2, false, hi) {
                    Found::At { index: end, next: i3 } => {
                        lemma_expect_bounds(gs, i3, false, hi, seq![TokenType::CodeEnd]);
                    },
                    Found::Failed { .. } => {},
                }
            },
            Found::Failed { .. } => {},
        }
    }
}

/// The token stream of a whole source text; the empty text has no tokens.
pub open spec fn spec_lex(gs: Seq<Seq<char>>) -> Result<Seq<Token>, ErrV> {
    if gs.len() == 0 {
        Ok(Seq::empty())
    } else {
        spec_lex_main(gs, 0, false, 0, 0, Seq::empty())
    }
}

fn find_code_end(gs: &Vec<String>, i: usize, hi: usize) -> (r: Result<(usize, usize), CompileError>)
    requires
        i <= hi <= gs.len(),
        gs.len() < usize::MAX,
    ensures
        (match r {
            Ok((end, next)) => spec_find_code_end(gs.deep_view(), i as int, false, hi as int)
                == (Found::At { index: end as int, next: next as int }) && i <= end < hi && next
                == end + 1,
            Err(e) => (exists|next: int|
                spec_find_code_end(gs.deep_view(), i as int, false, hi as int) == (Found::Failed {
                    e: e@,
                    next,
                })),
        }),
{
    let ghost gsv = gs.deep_view();
    let mut j = i;
    let mut e = false;
    while j < hi
        invariant
            i <= j <= hi <= gs.len(),
            gs.len() < usize::MAX,
            gsv == gs.deep_view(),
            spec_find_code_end(gsv, i as int, false, hi as int) == spec_find_code_end(
                gsv,
                j as int,
                e,
                hi as int,
            ),
        decreases hi - j,
    {
        if is_char(&gs[j], '\\') && !e {
            j += 1;
            e = true;
        } else if !e && is_char(&gs[j], '{') {
            let ce = one_type(TokenType::CodeEnd);
            return Err(CompileError::new_syntax(j, ce.as_slice()));
        } else if !e && is_char(&gs[j], '}') {
            return Ok((j, j + 1));
        } else {
            j += 1;
            e = false;
        }
    }
    let ce = one_type(TokenType::CodeEnd);
    Err(CompileError::new_syntax(0, ce.as_slice()))
}

fn lex(gs: &Vec<String>) -> (r: Result<Vec<Token>, CompileError>)
    requires
        gs.len() < usize::MAX,
    ensures
        (match r {
            Ok(toks) => spec_lex(gs.deep_view()) == Ok::<Seq<Token>, ErrV>(toks@) && (forall|
                j: int,
            |
                0 <= j < toks@.len() ==> token_wf(#[trigger] toks@[j], gs.len() as int)),
            Err(e) => spec_lex(gs.deep_view()) == Err::<Seq<Token>, ErrV>(e@),
        }),
{
    let ghost gsv = gs.deep_view();
    let mut tokens: Vec<Token> = Vec::new();
    if gs.len() == 0 {
        return Ok(tokens);
    }
    let glen = gs.len();
    let mut i: usize = 0;
    let mut esc = false;
    let mut lb: usize = 0;
    let mut le: usize = 0;
    while i < glen
        invariant
            glen == gs.len(),
            0 < gs.len() < usize::MAX,
            gsv == gs.deep_view(),
            lb <= i,
            lb <= le + 1,
            le < glen,
            esc ==> i >= 1,
            spec_lex_main(gsv, i as int, esc, lb as int, le as int, tokens@) == spec_lex_main(
                gsv,
                0,
                false,
                0,
                0,
                Seq::empty(),
            ),
            forall|j: int| 0 <= j < tokens@.len() ==> token_wf(#[trigger] tokens@[j], glen as int),
        decreases glen - i,
    {
        if is_char(&gs[i], '\\') && !esc {
            i += 1;
            esc = true;
        } else if !esc && is_char(&gs[i], '{') {
            tokens.push(Token::new(lb, i, TokenType::Literal));
            let ghost tk1 = tokens@;
            let cb = one_type(TokenType::CodeBegin);
            let (r1, i2) = expect_symbol(gs, i + 1, false, glen, &cb);
            match r1 {
                Ok(_) => {
                    match find_code_end(gs, i2, glen) {
                        Ok((end, i3)) => {
                            let ce = one_type(TokenType::CodeEnd);
                            let (r2, _i4) = expect_symbol(gs, i3, false, glen, &ce);
                            match r2 {
                                Ok(_) => {
                                    match lex_code(gs, i2, end, &mut tokens) {
                                        Ok(()) => {
                                            proof {
                                                assert forall|j: int|
                                                    0 <= j < tokens@.len() implies token_wf(
                                                    tokens@[j],
                                                    glen as int,
                                                ) by {
                                                    if j < tk1.len() {
                                                        assert(tokens@.subrange(
                                                            0,
                                                            tk1.len() as int,
                                                        )[j] == tokens@[j]);
                                                    }
                                                }
                                            }
                                            lb = end + 2;
                                            le = if lb <= glen - 1 {
                                                lb
                                            } else {
                                                glen - 1
                                            };
                                            i = end + 2;
                                            esc = false;
                                        },
                                        Err(e) => {
                                            return Err(e);
                                        },
                                    }
                                },
                                Err(e) => {
                                    return Err(e);
                                },
                            }
                        },
                        Err(e) => {
                            return Err(e);
                        },
                    }
                },
                Err(e) => {
                    return Err(e);
                },
            }
        } else if !esc && is_char(&gs[i], '}') {
            let cb = one_type(TokenType::CodeBegin);
            return Err(CompileError::new_syntax(i, cb.as_slice()));
        } else if esc && !(is_char(&gs[i], '{') || is_char(&gs[i], '}')) {
            let both = two_types(TokenType::CodeBegin, TokenType::CodeEnd);
            return Err(CompileError::new_syntax(i, both.as_slice()));
        } else {
            le = i;
            i += 1;
            esc = false;
        }
    }
    tokens.push(Token::new(lb, le + 1, TokenType::Literal));
    Ok(tokens)
}

/// Whether a child of an interpolated string is an opaque text run or a
/// variable reference.
#[derive(Debug, PartialEq, Eq, Structural, Copy, Clone)]
pub enum ChildKind {
    Literal,
    Name,
}

/// One child of an interpolated string: a text run between interpolation
/// sites, or the name inside one `$(name)` site.
#[derive(Debug, PartialEq, Eq, Structural, Copy, Clone)]
pub struct StrChild {
    pub first_char: usize,
    pub end_char: usize,
    pub kind: ChildKind,
}

/// What a node is; spans live on the surrounding `Node`.
#[derive(Debug, Clone)]
pub enum InnerNode {
    String { children: Vec<StrChild> },
    Int { value: usize },
    Range { start: Option<usize>, end: Option<usize> },
    Array { name: String, start: Option<usize>, end: Option<usize> },
    MacroDef,
    MacroExp,
    Literal,
    Name,
    Pipe,
    NewLine,
}

/// The mathematical value of an `InnerNode`.
pub ghost enum InnerV {
    String { children: Seq<StrChild> },
    Int { value: usize },
    Range { start: Option<usize>, end: Option<usize> },
    Array { name: Seq<char>, start: Option<usize>, end: Option<usize> },
    MacroDef,
    MacroExp,
    Literal,
    Name,
    Pipe,
    NewLine,
}

impl View for InnerNode {
    type V = InnerV;

    open spec fn view(&self) -> InnerV {
        match self {
            InnerNode::String { children } => InnerV::String { children: children@ },
            InnerNode::Int { value } => InnerV::Int { value: *value },
            InnerNode::Range { start, end } => InnerV::Range { start: *start, end: *end },
            InnerNode::Array { name, start, end } => InnerV::Array {
                name: name@,
                start: *start,
                end: *end,
            },
            InnerNode::MacroDef => InnerV::MacroDef,
            InnerNode::MacroExp => InnerV::MacroExp,
            InnerNode::Literal => InnerV::Literal,
            InnerNode::Name => InnerV::Name,
            InnerNode::Pipe => InnerV::Pipe,
            InnerNode::NewLine => InnerV::NewLine,
        }
    }
}

/// One element of the syntax tree: a variant and its grapheme span.
#[derive(Debug, Clone)]
pub struct Node {
    pub first_char: usize,
    pub end_char: usize,
    pub inner: InnerNode,
}

/// The mathematical value of a `Node`.
#[verifier::ext_equal]
pub ghost struct NodeV {
    pub first_char: int,
    pub end_char: int,
    pub inner: InnerV,
}

impl View for Node {
    type V = NodeV;

    open spec fn view(&self) -> NodeV {
        NodeV {
            first_char: self.first_char as int,
            end_char: self.end_char as int,
            inner: self.inner@,
        }
    }
}

impl DeepView for Node {
    type V = NodeV;

    open spec fn deep_view(&self) -> NodeV {
        self@
    }
}

/// The text of the graphemes `[i, hi)` with escapes resolved: an unescaped
/// backslash is dropped and marks its successor, an escaped `n` or `t`
/// becomes the control character, any other escaped grapheme stands as is.
pub open spec fn spec_unescape(gs: Seq<Seq<char>>, i: int, esc: bool, hi: int) -> Seq<char>
    decreases hi - i,
{
    if i >= hi {
        Seq::empty()
    } else if gs[i] =~= seq!['\\'] && !esc {
        spec_unescape(gs, i + 1, true, hi)
    } else {
        let t = if esc && gs[i] =~= seq!['n'] {
            seq!['\n']
        } else if esc && gs[i] =~= seq!['t'] {
            seq!['\t']
        } else {
            gs[i]
        };
        t + spec_unescape(gs, i + 1, false, hi)
    }
}

pub(crate) fn unescape_range(gs: &Vec<String>, a: usize, b: usize) -> (r: String)
    requires
        a <= gs.len(),
        b <= gs.len(),
    ensures
        r@ == spec_unescape(gs.deep_view(), a as int, false, b as int),
{
    let ghost gsv = gs.deep_view();
    let mut out = String::new();
    let mut i = a;
    let mut esc = false;
    proof {
        assert(out@ + spec_unescape(gsv, a as int, false, b as int) =~= spec_unescape(
            gsv,
            a as int,
            false,
            b as int,
        ));
    }
    while i < b
        invariant
            a <= i,
            b <= gs.len(),
            i <= gs.len(),
            i <= b || i == a,
            gsv == gs.deep_view(),
            spec_unescape(gsv, a as int, false, b as int) == out@ + spec_unescape(
                gsv,
                i as int,
                esc,
                b as int,
            ),
        decreases b - i,
    {
        let ghost out_pre = out@;
        if is_char(&gs[i], '\\') && !esc {
            esc = true;
            i += 1;
        } else {
            let ghost piece = if esc && gs@[i as int]@ =~= seq!['n'] {
                seq!['\n']
            } else if esc && gs@[i as int]@ =~= seq!['t'] {
                seq!['\t']
            } else {
                gsv[i as int]
            };
            if esc && is_char(&gs[i], 'n') {
                let nl = "\n";
                proof {
                    reveal_strlit("\n");
                    assert(nl@ =~= seq!['\n']);
                }
                out.append(nl);
            } else if esc && is_char(&gs[i], 't') {
                let tb = "\t";
                proof {
                    reveal_strlit("\t");
                    assert(tb@ =~= seq!['\t']);
                }
                out.append(tb);
            } else {
                out.append(gs[i].as_str());
            }
            proof {
                assert(gsv[i as int] == gs@[i as int]@);
                assert(out@ == out_pre + piece);
                assert(out_pre + (piece + spec_unescape(gsv, i + 1, false, b as int)) =~= (out_pre
                    + piece) + spec_unescape(gsv, i + 1, false, b as int));
            }
            esc = false;
            i += 1;
        }
    }
    proof {
        assert(out@ + Seq::<char>::empty() =~= out@);
    }
    out
}

/// The digit value of one grapheme; anything but a decimal digit counts 0.
pub open spec fn grapheme_digit(g: Seq<char>) -> nat {
    if g.len() == 1 && '0' <= g[0] && g[0] <= '9' {
        (g[0] as u32 - 48) as nat
    } else {
        0
    }
}

/// The decimal value of the digit graphemes `[a, b)`.
pub open spec fn digits_val(gs: Seq<Seq<char>>, a: int, b: int) -> nat
    decreases b - a,
{
    if b <= a {
        0
    } else {
        digits_val(gs, a, b - 1) * 10 + grapheme_digit(gs[b - 1])
    }
}

proof fn lemma_digits_mono(gs: Seq<Seq<char>>, a: int, j: int, b: int)
    requires
        j <= b,
    ensures
        digits_val(gs, a, b) >= digits_val(gs, a, j),
    decreases b - j,
{
    if j < b {
        lemma_digits_mono(gs, a, j, b - 1);
        if b > a {
            let prev = digits_val(gs, a, b - 1);
            let d = grapheme_digit(gs[b - 1]);
            assert(digits_val(gs, a, b) == prev * 10 + d);
            assert(prev * 10 >= prev) by (nonlinear_arith);
        }
    }
}

fn parse_digits(gs: &Vec<String>, a: usize, b: usize) -> (r: Option<usize>)
    requires
        a <= gs.len(),
        b <= gs.len(),
    ensures
        (match r {
            Some(v) => v as nat == digits_val(gs.deep_view(), a as int, b as int),
            None => digits_val(gs.deep_view(), a as int, b as int) > usize::MAX,
        }),
{
    let ghost gsv = gs.deep_view();
    let mut acc: usize = 0;
    let mut i = a;
    while i < b
        invariant
            a <= i,
            b <= gs.len(),
            i <= gs.len(),
            i <= b || i == a,
            gsv == gs.deep_view(),
            acc as nat == digits_val(gsv, a as int, i as int),
        decreases b - i,
    {
        let g = &gs[i];
        let d: usize = if g.as_str().unicode_len() == 1 {
            let c = g.as_str().get_char(0);
            if '0' <= c && c <= '9' {
                (c as usize) - 48
            } else {
                0
            }
        } else {
            0
        };
        proof {
            assert(gsv[i as int] == gs@[i as int]@);
            assert(d as nat == grapheme_digit(gsv[i as int]));
        }
        let acc10 = match acc.checked_mul(10) {
            Some(m) => m,
            None => {
                proof {
                    lemma_digits_mono(gsv, a as int, i + 1, b as int);
                }
                return None;
            },
        };
        acc = match acc10.checked_add(d) {
            Some(s) => s,
            None => {
                proof {
                    lemma_digits_mono(gsv, a as int, i + 1, b as int);
                }
                return None;
            },
        };
        i += 1;
    }
    Some(acc)
}

impl Node {
    pub fn new(first_char: usize, end_char: usize, inner: InnerNode) -> (r: Node)
        ensures
            r@ == (NodeV { first_char: first_char as int, end_char: end_char as int, inner: inner@ }),
    {
        Node { first_char, end_char, inner }
    }

    /// The text this node spans, as a fresh string.
    pub fn as_str(&self, code: &str) -> (r: String)
        requires
            self.first_char <= self.end_char <= graphemes_of(code@).len(),
        ensures
            r@ == graphemes_of(code@).subrange(
                self.first_char as int,
                self.end_char as int,
            ).flatten(),
    {
        let gs = split_graphemes(code);
        crate::seg::concat_range(&gs, self.first_char, self.end_char)
    }

    /// The text this node spans with escapes resolved, as the generator
    /// materializes literal runs. A span end past the text is clamped to it.
    pub fn as_escaped_string(&self, code: &str) -> (r: String)
        ensures
            ({
                let g = graphemes_of(code@);
                let a = if self.first_char <= g.len() {
                    self.first_char as int
                } else {
                    g.len() as int
                };
                let b = if self.end_char <= g.len() {
                    self.end_char as int
                } else {
                    g.len() as int
                };
                r@ == spec_unescape(g, a, false, b)
            }),
    {
        let gs = split_graphemes(code);
        let a = if self.first_char <= gs.len() {
            self.first_char
        } else {
            gs.len()
        };
        let b = if self.end_char <= gs.len() {
            self.end_char
        } else {
            gs.len()
        };
        unescape_range(&gs, a, b)
    }
}

/// The children of one interpolated string token `[first, hi)`, quotes
/// included: text runs interleaved with the names of `$(name)` sites. Text
/// after the last site's `)` folds into the trailing run.
pub open spec fn spec_ps_loop(
    gs: Seq<Seq<char>>,
    i: int,
    esc: bool,
    hi: int,
    first_lit: int,
    end_lit: int,
    acc: Seq<StrChild>,
) -> Result<Seq<StrChild>, ErrV>
    decreases hi - i,
        via check_ps_decreases
{
    if i >= hi {
        if end_lit != first_lit {
            Ok(
                acc.push(
                    StrChild {
                        first_char: first_lit as usize,
                        end_char: end_lit as usize,
                        kind: ChildKind::Literal,
                    },
                ),
            )
        } else {
            Ok(acc)
        }
    } else if gs[i] =~= seq!['\\'] && !esc {
        spec_ps_loop(gs, i + 1, true, hi, first_lit, end_lit, acc)
    } else if !esc && spec_is_char(gs[i], '$') {
        let acc1 = if i != first_lit {
            acc.push(
                StrChild {
                    first_char: first_lit as usize,
                    end_char: i as usize,
                    kind: ChildKind::Literal,
                },
            )
        } else {
            acc
        };
        match spec_expect(gs, i + 1, false, hi, seq![TokenType::ExprBegin]) {
            Found::Failed { e, .. } => Err(e),
            Found::At { next: p1, .. } => match spec_expect(gs, p1, false, hi, seq![TokenType::Literal]) {
                Found::Failed { e, .. } => Err(e),
                Found::At { next: p2, .. } => match spec_find_boundary(
                    gs,
                    p2,
                    false,
                    hi,
                    TokenType::Literal,
                    seq![TokenType::ExprEnd],
                    i,
                ) {
                    Found::Failed { e, .. } => Err(e),
                    Found::At { index: bnd, next: p3 } => {
                        let nfl = if bnd + 1 <= hi {
                            bnd + 1
                        } else {
                            hi
                        };
                        spec_ps_loop(
                            gs,
                            p3,
                            false,
                            hi,
                            nfl,
                            nfl,
                            acc1.push(
                                StrChild {
                                    first_char: (i + 2) as usize,
                                    end_char: bnd as usize,
                                    kind: ChildKind::Name,
                                },
                            ),
                        )
                    },
                },
            },
        }
    } else {
        spec_ps_loop(gs, i + 1, false, hi, first_lit, i, acc)
    }
}

#[via_fn]
proof fn check_ps_decreases(
    gs: Seq<Seq<char>>,
    i: int,
    esc: bool,
    hi: int,
    first_lit: int,
    end_lit: int,
    acc: Seq<StrChild>,
) {
    if i < hi {
        lemma_expect_bounds(gs, i + 1, false, hi, seq![TokenType::ExprBegin]);
        match spec_expect(gs, i + 1, false, hi, seq![TokenType::ExprBegin]) {
            Found::At { next: p1, .. } => {
                lemma_expect_bounds(gs, p1, false, hi, seq![TokenType::Literal]);
                match spec_expect(gs, p1, false, hi, seq![TokenType::Literal]) {
                    Found::At { next: p2, .. } => {
                        lemma_find_boundary_bounds(
                            gs,
                            p2,
                            false,
                            hi,
                            TokenType::Literal,
                            seq![TokenType::ExprEnd],
                            i,
                        );
                    },
                    Found::Failed { .. } => {},
                }
            },
            Found::Failed { .. } => {},
        }
    }
}

/// An interpolated-string node for the token `[first, end)`.
pub open spec fn spec_parse_string(gs: Seq<Seq<char>>, first: int, end: int) -> Result<
    NodeV,
    ErrV,
> {
    match spec_ps_loop(gs, first, false, end, first + 1, 0, Seq::empty()) {
        Ok(children) => Ok(
            NodeV { first_char: first, end_char: end, inner: InnerV::String { children } },
        ),
        Err(e) => Err(e),
    }
}

fn parse_string(gs: &Vec<String>, first: usize, end: usize) -> (r: Result<Node, CompileError>)
    requires
        first < end <= gs.len(),
        gs.len() < usize::MAX,
    ensures
        (match r {
            Ok(n) => spec_parse_string(gs.deep_view(), first as int, end as int) == Ok::<
                NodeV,
                ErrV,
            >(n@) && n.first_char == first && n.end_char == end && (match n@.inner {
                InnerV::String { children } => forall|k: int|
                    0 <= k < children.len() ==> (#[trigger] children[k]).first_char <= gs.len()
                        && children[k].end_char <= gs.len(),
                _ => false,
            }),
            Err(e) => spec_parse_string(gs.deep_view(), first as int, end as int) == Err::<
                NodeV,
                ErrV,
            >(e@),
        }),
{
    let ghost gsv = gs.deep_view();
    let mut children: Vec<StrChild> = Vec::new();
    let mut i = first;
    let mut esc = false;
    let mut first_lit = first + 1;
    let mut end_lit: usize = 0;
    while i < end
        invariant
            first <= i,
            end <= gs.len(),
            i <= gs.len(),
            i <= end || i == first,
            gs.len() < usize::MAX,
            gsv == gs.deep_view(),
            first_lit <= gs.len(),
            end_lit <= gs.len(),
            esc ==> i >= 1,
            spec_ps_loop(gsv, first as int, false, end as int, first + 1 as int, 0, Seq::empty())
                == spec_ps_loop(
                gsv,
                i as int,
                esc,
                end as int,
                first_lit as int,
                end_lit as int,
                children@,
            ),
            forall|k: int|
                0 <= k < children@.len() ==> (#[trigger] children@[k]).first_char <= gs.len()
                    && children@[k].end_char <= gs.len(),
        decreases end - i,
    {
        if is_char(&gs[i], '\\') && !esc {
            i += 1;
            esc = true;
        } else if !esc && is_char(&gs[i], '$') {
            if i != first_lit {
                children.push(
                    StrChild { first_char: first_lit, end_char: i, kind: ChildKind::Literal },
                );
            }
            let eb = one_type(TokenType::ExprBegin);
            let (r1, p1) = expect_symbol(gs, i + 1, false, end, &eb);
            match r1 {
                Ok(_) => {
                    let lt = one_type(TokenType::Literal);
                    let (r2, p2) = expect_symbol(gs, p1, false, end, &lt);
                    match r2 {
                        Ok(_) => {
                            let ee = one_type(TokenType::ExprEnd);
                            match find_boundary(gs, p2, false, end, TokenType::Literal, &ee, i) {
                                Ok((bnd, p3)) => {
                                    children.push(
                                        StrChild {
                                            first_char: i + 2,
                                            end_char: bnd,
                                            kind: ChildKind::Name,
                                        },
                                    );
                                    first_lit = if bnd + 1 <= end {
                                        bnd + 1
                                    } else {
                                        end
                                    };
                                    end_lit = first_lit;
                                    i = p3;
                                    esc = false;
                                },
                                Err(e) => {
                                    return Err(e);
                                },
                            }
                        },
                        Err(e) => {
                            return Err(e);
                        },
                    }
                },
                Err(e) => {
                    return Err(e);
                },
            }
        } else {
            end_lit = i;
            i += 1;
            esc = false;
        }
    }
    if end_lit != first_lit {
        children.push(StrChild { first_char: first_lit, end_char: end_lit, kind: ChildKind::Literal });
    }
    Ok(Node { first_char: first, end_char: end, inner: InnerNode::String { children } })
}

/// A range node for the token `[first, end)`: `[`, an optional decimal
/// start, `:`, an optional decimal end, `]`. A malformed inside quietly
/// yields an unbounded side where the scan finds no number.
pub open spec fn spec_parse_range(gs: Seq<Seq<char>>, first: int, end: int) -> Result<
    NodeV,
    ErrV,
> {
    let hi = end;
    match spec_expect(gs, first, false, hi, seq![TokenType::RangeBegin]) {
        Found::Failed { e, .. } => Err(e),
        Found::At { next: p1, .. } => match spec_expect(gs, p1, false, hi, seq![TokenType::Int]) {
            Found::At { next: p2, .. } => match spec_find_boundary(
                gs,
                p2,
                false,
                hi,
                TokenType::Int,
                seq![TokenType::RangeSep],
                0,
            ) {
                Found::Failed { e, .. } => Err(e),
                Found::At { index: sep, next: p3 } => {
                    let sv = digits_val(gs, first + 1, sep);
                    if sv > usize::MAX {
                        Err(syntax_err(first + 1, seq![TokenType::Int]))
                    } else {
                        spec_parse_range_end(gs, p3, hi, first, end, Some(sv as usize), sep)
                    }
                },
            },
            Found::Failed { next: p2, .. } => spec_parse_range_end(
                gs,
                p2,
                hi,
                first,
                end,
                None,
                first + 1,
            ),
        },
    }
}

pub open spec fn spec_parse_range_end(
    gs: Seq<Seq<char>>,
    p: int,
    hi: int,
    first: int,
    end: int,
    start: Option<usize>,
    sep: int,
) -> Result<NodeV, ErrV> {
    match spec_expect(gs, p, false, hi, seq![TokenType::Int]) {
        Found::At { next: q, .. } => match spec_find_boundary(
            gs,
            q,
            false,
            hi,
            TokenType::Int,
            seq![TokenType::RangeEnd],
            0,
        ) {
            Found::Failed { e, .. } => Err(e),
            Found::At { index: bnd, .. } => {
                let ev = digits_val(gs, sep + 1, bnd);
                if ev > usize::MAX {
                    Err(syntax_err(sep + 1, seq![TokenType::Int]))
                } else {
                    Ok(
                        NodeV {
                            first_char: first,
                            end_char: end,
                            inner: InnerV::Range { start, end: Some(ev as usize) },
                        },
                    )
                }
            },
        },
        Found::Failed { .. } => Ok(
            NodeV { first_char: first, end_char: end, inner: InnerV::Range { start, end: None } },
        ),
    }
}

fn parse_range(gs: &Vec<String>, first: usize, end: usize) -> (r: Result<Node, CompileError>)
    requires
        first < end <= gs.len(),
        gs.len() < usize::MAX,
    ensures
        (match r {
            Ok(n) => spec_parse_range(gs.deep_view(), first as int, end as int) == Ok::<
                NodeV,
                ErrV,
            >(n@) && n.first_char == first && n.end_char == end,
            Err(e) => spec_parse_range(gs.deep_view(), first as int, end as int) == Err::<
                NodeV,
                ErrV,
            >(e@),
        }),
{
    let ghost gsv = gs.deep_view();
    let rb = one_type(TokenType::RangeBegin);
    let (r0, p1) = expect_symbol(gs, first, false, end, &rb);
    let mut start: Option<usize> = None;
    let mut sep: usize = 0;
    let p: usize;
    match r0 {
        Ok(_) => {},
        Err(e) => {
            return Err(e);
        },
    }
    let it = one_type(TokenType::Int);
    let (r1, p2) = expect_symbol(gs, p1, false, end, &it);
    match r1 {
        Ok(_) => {
            let rs = one_type(TokenType::RangeSep);
            match find_boundary(gs, p2, false, end, TokenType::Int, &rs, 0) {
                Ok((s, p3)) => {
                    match parse_digits(gs, first + 1, s) {
                        Some(v) => {
                            start = Some(v);
                            sep = s;
                            p = p3;
                        },
                        None => {
                            let it2 = one_type(TokenType::Int);
                            return Err(CompileError::new_syntax(first + 1, it2.as_slice()));
                        },
                    }
                },
                Err(e) => {
                    return Err(e);
                },
            }
        },
        Err(_) => {
            start = None;
            sep = first + 1;
            p = p2;
        },
    }
    let it3 = one_type(TokenType::Int);
    let (r2, q) = expect_symbol(gs, p, false, end, &it3);
    match r2 {
        Ok(_) => {
            let re = one_type(TokenType::RangeEnd);
            match find_boundary(gs, q, false, end, TokenType::Int, &re, 0) {
                Ok((bnd, _)) => {
                    match parse_digits(gs, sep + 1, bnd) {
                        Some(v) => Ok(
                            Node {
                                first_char: first,
                                end_char: end,
                                inner: InnerNode::Range { start, end: Some(v) },
                            },
                        ),
                        None => {
                            let it4 = one_type(TokenType::Int);
                            Err(CompileError::new_syntax(sep + 1, it4.as_slice()))
                        },
                    }
                },
                Err(e) => Err(e),
            }
        },
        Err(_) => Ok(
            Node {
                first_char: first,
                end_char: end,
                inner: InnerNode::Range { start, end: None },
            },
        ),
    }
}

/// A node's spans lie within the source, as far as later stages read them:
/// the spans of literal runs, numbers and names are ordered; a macro marker
/// has a name after its sigil; an interpolated string's children stay in
/// bounds.
pub open spec fn node_span_wf(n: NodeV, glen: int) -> bool {
    &&& 0 <= n.first_char
    &&& match n.inner {
        InnerV::Literal => n.first_char <= n.end_char <= glen,
        InnerV::Int { .. } => n.first_char <= n.end_char <= glen,
        InnerV::Name => n.first_char <= n.end_char <= glen,
        InnerV::MacroDef => n.first_char < n.end_char <= glen,
        InnerV::MacroExp => n.first_char < n.end_char <= glen,
        InnerV::String { children } => forall|k: int|
            0 <= k < children.len() ==> (#[trigger] children[k]).first_char <= glen
                && children[k].end_char <= glen,
        _ => true,
    }
}

/// The node for each token, in order: literal runs, numbers (a number too
/// large for the machine is a syntax error), names, pipes, newlines and
/// macro markers map directly; string and range tokens are parsed.
pub open spec fn spec_nodes_of(gs: Seq<Seq<char>>, toks: Seq<Token>, i: int, acc: Seq<NodeV>) -> Result<
    Seq<NodeV>,
    ErrV,
>
    decreases toks.len() - i,
{
    if i >= toks.len() {
        Ok(acc)
    } else {
        let t = toks[i];
        let f = t.first_char as int;
        let e = t.end_char as int;
        match t.token_type {
            TokenType::Literal => spec_nodes_of(
                gs,
                toks,
                i + 1,
                acc.push(NodeV { first_char: f, end_char: e, inner: InnerV::Literal }),
            ),
            TokenType::Int => {
                let v = digits_val(gs, f, e);
                if v > usize::MAX {
                    Err(syntax_err(f, seq![TokenType::Int]))
                } else {
                    spec_nodes_of(
                        gs,
                        toks,
                        i + 1,
                        acc.push(
                            NodeV {
                                first_char: f,
                                end_char: e,
                                inner: InnerV::Int { value: v as usize },
                            },
                        ),
                    )
                }
            },
            TokenType::Name => spec_nodes_of(
                gs,
                toks,
                i + 1,
                acc.push(NodeV { first_char: f, end_char: e, inner: InnerV::Name }),
            ),
            TokenType::Pipe => spec_nodes_of(
                gs,
                toks,
                i + 1,
                acc.push(NodeV { first_char: f, end_char: e, inner: InnerV::Pipe }),
            ),
            TokenType::String => match spec_parse_string(gs, f, e) {
                Ok(n) => spec_nodes_of(gs, toks, i + 1, acc.push(n)),
                Err(er) => Err(er),
            },
            TokenType::Range => match spec_parse_range(gs, f, e) {
                Ok(n) => spec_nodes_of(gs, toks, i + 1, acc.push(n)),
                Err(er) => Err(er),
            },
            TokenType::MacroDef => spec_nodes_of(
                gs,
                toks,
                i + 1,
                acc.push(NodeV { first_char: f, end_char: e, inner: InnerV::MacroDef }),
            ),
            TokenType::MacroExp => spec_nodes_of(
                gs,
                toks,
                i + 1,
                acc.push(NodeV { first_char: f, end_char: e, inner: InnerV::MacroExp }),
            ),
            TokenType::NewLine => spec_nodes_of(
                gs,
                toks,
                i + 1,
                acc.push(NodeV { first_char: f, end_char: e, inner: InnerV::NewLine }),
            ),
            _ => spec_nodes_of(gs, toks, i + 1, acc),
        }
    }
}

/// A macro body: every node after the definition marker up to, and not
/// including, the next newline. A nested macro marker is an error; the end
/// of the stream closes an open body.
pub open spec fn spec_collect_body(nodes: Seq<NodeV>, i: int) -> Result<(Seq<NodeV>, int), ErrV>
    decreases nodes.len() - i,
{
    if i >= nodes.len() {
        Ok((Seq::empty(), i))
    } else {
        match nodes[i].inner {
            InnerV::NewLine => Ok((Seq::empty(), i + 1)),
            InnerV::MacroExp => Err(crate::error::nested_macro_err(nodes[i].first_char)),
            InnerV::MacroDef => Err(crate::error::nested_macro_err(nodes[i].first_char)),
            _ => match spec_collect_body(nodes, i + 1) {
                Ok((rest, j)) => Ok((seq![nodes[i]] + rest, j)),
                Err(e) => Err(e),
            },
        }
    }
}

proof fn lemma_collect_bounds(nodes: Seq<NodeV>, i: int)
    requires
        i <= nodes.len(),
    ensures
        (match spec_collect_body(nodes, i) {
            Ok((c, j)) => i <= j <= nodes.len(),
            Err(e) => true,
        }),
    decreases nodes.len() - i,
{
    if i < nodes.len() {
        lemma_collect_bounds(nodes, i + 1);
    }
}

/// When `[i, j)` holds only plain nodes and `j` is the next newline (or the
/// stream's end), the collected body is exactly that window.
proof fn lemma_collect_plain(nodes: Seq<NodeV>, i: int, j: int)
    requires
        0 <= i <= j <= nodes.len(),
        forall|k: int|
            i <= k < j ==> !((#[trigger] nodes[k]).inner is NewLine) && !(nodes[k].inner
                is MacroDef) && !(nodes[k].inner is MacroExp),
        j == nodes.len() || nodes[j].inner is NewLine,
    ensures
        spec_collect_body(nodes, i) == Ok::<(Seq<NodeV>, int), ErrV>(
            (nodes.subrange(i, j), if j < nodes.len() { j + 1 } else { j }),
        ),
    decreases j - i,
{
    if i == j {
        assert(nodes.subrange(i, j) =~= Seq::<NodeV>::empty());
    } else {
        lemma_collect_plain(nodes, i + 1, j);
        assert(nodes.subrange(i, j) =~= seq![nodes[i]] + nodes.subrange(i + 1, j));
    }
}

/// When `[i, k)` holds only plain nodes and `k` is a macro marker, the
/// collection fails there as an illegally nested macro.
proof fn lemma_collect_nested(nodes: Seq<NodeV>, i: int, k: int)
    requires
        0 <= i <= k < nodes.len(),
        forall|j: int|
            i <= j < k ==> !((#[trigger] nodes[j]).inner is NewLine) && !(nodes[j].inner
                is MacroDef) && !(nodes[j].inner is MacroExp),
        nodes[k].inner is MacroDef || nodes[k].inner is MacroExp,
    ensures
        spec_collect_body(nodes, i) == Err::<(Seq<NodeV>, int), ErrV>(
            crate::error::nested_macro_err(nodes[k].first_char),
        ),
    decreases k - i,
{
    if i < k {
        lemma_collect_nested(nodes, i + 1, k);
    }
}

/// The macro-resolution and array-fusion pass. Macro definitions are
/// recorded once each and spliced at every expansion; a name directly
/// followed by a range fuses into one array node; newlines are dropped; a
/// name ending the stream is dropped with it.
pub open spec fn spec_expand(
    gs: Seq<Seq<char>>,
    nodes: Seq<NodeV>,
    i: int,
    table: Map<Seq<char>, Seq<NodeV>>,
    acc: Seq<NodeV>,
) -> Result<Seq<NodeV>, ErrV>
    decreases nodes.len() - i,
        via check_expand_decreases
{
    if i >= nodes.len() {
        Ok(acc)
    } else {
        let n = nodes[i];
        match n.inner {
            InnerV::MacroDef => {
                let name = crate::seg::text_of(gs, n.first_char + 1, n.end_char);
                if table.contains_key(name) {
                    Err(crate::error::macro_redefinition_err(n.first_char, name))
                } else {
                    match spec_collect_body(nodes, i + 1) {
                        Err(e) => Err(e),
                        Ok((children, j)) => if children.len() == 0 {
                            Err(crate::error::empty_macro_err(n.first_char))
                        } else {
                            spec_expand(gs, nodes, j, table.insert(name, children), acc)
                        },
                    }
                }
            },
            InnerV::MacroExp => {
                let name = crate::seg::text_of(gs, n.first_char + 1, n.end_char);
                if table.contains_key(name) {
                    spec_expand(gs, nodes, i + 1, table, acc + table[name])
                } else {
                    Err(crate::error::undefined_macro_err(n.first_char, name))
                }
            },
            InnerV::Name => {
                if i + 1 < nodes.len() {
                    match nodes[i + 1].inner {
                        InnerV::Range { start, end } => spec_expand(
                            gs,
                            nodes,
                            i + 2,
                            table,
                            acc.push(
                                NodeV {
                                    first_char: n.first_char,
                                    end_char: nodes[i + 1].end_char,
                                    inner: InnerV::Array {
                                        name: crate::seg::text_of(gs, n.first_char, n.end_char),
                                        start,
                                        end,
                                    },
                                },
                            ),
                        ),
                        _ => spec_expand(gs, nodes, i + 2, table, acc.push(n).push(nodes[i + 1])),
                    }
                } else {
                    Ok(acc)
                }
            },
            InnerV::NewLine => spec_expand(gs, nodes, i + 1, table, acc),
            _ => spec_expand(gs, nodes, i + 1, table, acc.push(n)),
        }
    }
}

#[via_fn]
proof fn check_expand_decreases(
    gs: Seq<Seq<char>>,
    nodes: Seq<NodeV>,
    i: int,
    table: Map<Seq<char>, Seq<NodeV>>,
    acc: Seq<NodeV>,
) {
    if i < nodes.len() {
        lemma_collect_bounds(nodes, i + 1);
    }
}

/// The full front end: graphemes to tokens to nodes to the expanded node
/// list that the generator consumes.
pub open spec fn spec_ast(gs: Seq<Seq<char>>) -> Result<Seq<NodeV>, ErrV> {
    match spec_lex(gs) {
        Err(e) => Err(e),
        Ok(toks) => match spec_nodes_of(gs, toks, 0, Seq::empty()) {
            Err(e) => Err(e),
            Ok(nodes) => spec_expand(gs, nodes, 0, Map::empty(), Seq::empty()),
        },
    }
}

impl Node {
    /// A structural copy, as macro expansion splices recorded bodies.
    fn duplicate(&self) -> (r: Node)
        ensures
            r@ == self@,
    {
        let inner = match &self.inner {
            InnerNode::String { children } => {
                let mut cs: Vec<StrChild> = Vec::new();
                let mut k: usize = 0;
                while k < children.len()
                    invariant
                        k <= children.len(),
                        cs@ == children@.subrange(0, k as int),
                    decreases children.len() - k,
                {
                    cs.push(children[k]);
                    proof {
                        assert(cs@ =~= children@.subrange(0, k + 1 as int));
                    }
                    k += 1;
                }
                proof {
                    assert(cs@ =~= children@);
                }
                InnerNode::String { children: cs }
            },
            InnerNode::Int { value } => InnerNode::Int { value: *value },
            InnerNode::Range { start, end } => InnerNode::Range { start: *start, end: *end },
            InnerNode::Array { name, start, end } => InnerNode::Array {
                name: name.clone(),
                start: *start,
                end: *end,
            },
            InnerNode::MacroDef => InnerNode::MacroDef,
            InnerNode::MacroExp => InnerNode::MacroExp,
            InnerNode::Literal => InnerNode::Literal,
            InnerNode::Name => InnerNode::Name,
            InnerNode::Pipe => InnerNode::Pipe,
            InnerNode::NewLine => InnerNode::NewLine,
        };
        Node { first_char: self.first_char, end_char: self.end_char, inner }
    }
}

fn lookup_nodes<'a>(table: &'a Vec<(String, Vec<Node>)>, name: &String) -> (r: Option<
    &'a Vec<Node>,
>)
    ensures
        (match r {
            Some(v) => crate::table::assoc(table.deep_view()).contains_key(name@)
                && v.deep_view() == crate::table::assoc(table.deep_view())[name@] && (exists|
                p: int,
            |
                0 <= p < table.deep_view().len() && #[trigger] table.deep_view()[p] == (
                name@,
                v.deep_view(),
            )),
            None => !crate::table::assoc(table.deep_view()).contains_key(name@),
        }),
{
    let ghost tv = table.deep_view();
    let mut i: usize = table.len();
    while i > 0
        invariant
            i <= table.len(),
            tv == table.deep_view(),
            forall|j: int| i <= j < tv.len() ==> (#[trigger] tv[j]).0 != name@,
        decreases i,
    {
        i -= 1;
        proof {
            assert(tv[i as int] == (table@[i as int].0@, table@[i as int].1.deep_view()));
        }
        if table[i].0.eq(name) {
            proof {
                crate::table::lemma_assoc_suffix_miss(tv, i + 1, name@);
                assert(tv.subrange(0, i + 1).last() == tv[i as int]);
                assert(tv.subrange(0, i + 1).drop_last() =~= tv.subrange(0, i as int));
                assert(tv[i as int] == (name@, table@[i as int].1.deep_view()));
            }
            return Some(&table[i].1);
        }
    }
    proof {
        crate::table::lemma_assoc_suffix_miss(tv, 0, name@);
        assert(tv.subrange(0, 0) =~= Seq::<(Seq<char>, Seq<NodeV>)>::empty());
    }
    None
}

fn tokens_to_nodes(gs: &Vec<String>, toks: &Vec<Token>) -> (r: Result<Vec<Node>, CompileError>)
    requires
        gs.len() < usize::MAX,
        forall|j: int| 0 <= j < toks@.len() ==> token_wf(#[trigger] toks@[j], gs.len() as int),
    ensures
        (match r {
            Ok(nodes) => spec_nodes_of(gs.deep_view(), toks@, 0, Seq::empty()) == Ok::<
                Seq<NodeV>,
                ErrV,
            >(nodes.deep_view()) && (forall|k: int|
                0 <= k < nodes.deep_view().len() ==> node_span_wf(
                    #[trigger] nodes.deep_view()[k],
                    gs.len() as int,
                )),
            Err(e) => spec_nodes_of(gs.deep_view(), toks@, 0, Seq::empty()) == Err::<
                Seq<NodeV>,
                ErrV,
            >(e@),
        }),
{
    let ghost gsv = gs.deep_view();
    let glen = gs.len();
    let mut nodes: Vec<Node> = Vec::new();
    let mut i: usize = 0;
    proof {
        assert(nodes.deep_view() =~= Seq::<NodeV>::empty());
    }
    while i < toks.len()
        invariant
            i <= toks.len(),
            glen == gs.len(),
            gs.len() < usize::MAX,
            gsv == gs.deep_view(),
            forall|j: int| 0 <= j < toks@.len() ==> token_wf(#[trigger] toks@[j], glen as int),
            spec_nodes_of(gsv, toks@, 0, Seq::empty()) == spec_nodes_of(
                gsv,
                toks@,
                i as int,
                nodes.deep_view(),
            ),
            forall|k: int|
                0 <= k < nodes.deep_view().len() ==> node_span_wf(
                    #[trigger] nodes.deep_view()[k],
                    glen as int,
                ),
        decreases toks.len() - i,
    {
        let t = toks[i];
        let ghost nv_pre = nodes.deep_view();
        match t.token_type {
            TokenType::Literal => {
                let nd = Node { first_char: t.first_char, end_char: t.end_char, inner: InnerNode::Literal };
                let ghost ndv = nd@;
                nodes.push(nd);
                proof {
                    assert(nodes.deep_view() =~= nv_pre.push(ndv));
                }
            },
            TokenType::Int => {
                match parse_digits(gs, t.first_char, t.end_char) {
                    Some(v) => {
                        let nd = Node {
                            first_char: t.first_char,
                            end_char: t.end_char,
                            inner: InnerNode::Int { value: v },
                        };
                        let ghost ndv = nd@;
                        nodes.push(nd);
                        proof {
                            assert(nodes.deep_view() =~= nv_pre.push(ndv));
                        }
                    },
                    None => {
                        let it = one_type(TokenType::Int);
                        return Err(CompileError::new_syntax(t.first_char, it.as_slice()));
                    },
                }
            },
            TokenType::Name => {
                let nd = Node { first_char: t.first_char, end_char: t.end_char, inner: InnerNode::Name };
                let ghost ndv = nd@;
                nodes.push(nd);
                proof {
                    assert(nodes.deep_view() =~= nv_pre.push(ndv));
                }
            },
            TokenType::Pipe => {
                let nd = Node { first_char: t.first_char, end_char: t.end_char, inner: InnerNode::Pipe };
                let ghost ndv = nd@;
                nodes.push(nd);
                proof {
                    assert(nodes.deep_view() =~= nv_pre.push(ndv));
                }
            },
            TokenType::String => {
                match parse_string(gs, t.first_char, t.end_char) {
                    Ok(n) => {
                        let ghost ndv = n@;
                        nodes.push(n);
                        proof {
                            assert(nodes.deep_view() =~= nv_pre.push(ndv));
                        }
                    },
                    Err(e) => {
                        return Err(e);
                    },
                }
            },
            TokenType::Range => {
                match parse_range(gs, t.first_char, t.end_char) {
                    Ok(n) => {
                        let ghost ndv = n@;
                        nodes.push(n);
                        proof {
                            assert(nodes.deep_view() =~= nv_pre.push(ndv));
                        }
                    },
                    Err(e) => {
                        return Err(e);
                    },
                }
            },
            TokenType::MacroDef => {
                let nd = Node { first_char: t.first_char, end_char: t.end_char, inner: InnerNode::MacroDef };
                let ghost ndv = nd@;
                nodes.push(nd);
                proof {
                    assert(nodes.deep_view() =~= nv_pre.push(ndv));
                }
            },
            TokenType::MacroExp => {
                let nd = Node { first_char: t.first_char, end_char: t.end_char, inner: InnerNode::MacroExp };
                let ghost ndv = nd@;
                nodes.push(nd);
                proof {
                    assert(nodes.deep_view() =~= nv_pre.push(ndv));
                }
            },
            TokenType::NewLine => {
                let nd = Node { first_char: t.first_char, end_char: t.end_char, inner: InnerNode::NewLine };
                let ghost ndv = nd@;
                nodes.push(nd);
                proof {
                    assert(nodes.deep_view() =~= nv_pre.push(ndv));
                }
            },
            _ => {},
        }
        i += 1;
    }
    Ok(nodes)
}

/// Records one macro definition at `i`: scans the body to the next newline,
/// checks it for nesting and emptiness, and adds it to the table. Returns
/// the index just past the consumed body.
fn record_macro(
    gs: &Vec<String>,
    nodes: &Vec<Node>,
    i: usize,
    table: &mut Vec<(String, Vec<Node>)>,
) -> (r: Result<usize, CompileError>)
    requires
        i < nodes@.len(),
        nodes@[i as int].inner is MacroDef,
        gs.len() < usize::MAX,
        node_span_wf(nodes.deep_view()[i as int], gs.len() as int),
        forall|k: int|
            0 <= k < nodes.deep_view().len() ==> node_span_wf(
                #[trigger] nodes.deep_view()[k],
                gs.len() as int,
            ),
    ensures
        (match r {
            Ok(next) => ({
                let n = nodes.deep_view()[i as int];
                let name = crate::seg::text_of(gs.deep_view(), n.first_char + 1, n.end_char);
                &&& !crate::table::assoc(old(table).deep_view()).contains_key(name)
                &&& spec_collect_body(nodes.deep_view(), i + 1) matches Ok((children, j))
                &&& children.len() > 0
                &&& (forall|k: int|
                    0 <= k < children.len() ==> node_span_wf(
                        #[trigger] children[k],
                        gs.len() as int,
                    ))
                &&& next == j
                &&& i < next <= nodes@.len()
                &&& crate::table::assoc(final(table).deep_view()) == crate::table::assoc(
                    old(table).deep_view(),
                ).insert(name, children)
                &&& final(table).deep_view() == old(table).deep_view().push((name, children))
            }),
            Err(e) => ({
                let n = nodes.deep_view()[i as int];
                let name = crate::seg::text_of(gs.deep_view(), n.first_char + 1, n.end_char);
                (if crate::table::assoc(old(table).deep_view()).contains_key(name) {
                    e@ == crate::error::macro_redefinition_err(n.first_char, name)
                } else {
                    match spec_collect_body(nodes.deep_view(), i + 1) {
                        Err(ce) => e@ == ce,
                        Ok((children, j)) => children.len() == 0 && e@
                            == crate::error::empty_macro_err(n.first_char),
                    }
                })
            }),
        }),
{
    let ghost gsv = gs.deep_view();
    let ghost all_nodes = nodes.deep_view();
    let ghost tab_pre = table.deep_view();
    let nlen = nodes.len();
    proof {
        assert(all_nodes[i as int] == nodes@[i as int]@);
    }
    let n_first = nodes[i].first_char;
    let n_end = nodes[i].end_char;
    let name = crate::seg::concat_range(gs, n_first + 1, n_end);
    if lookup_nodes(table, &name).is_some() {
        return Err(CompileError::new_macro_redefinition(n_first, name));
    }
    proof {
        assert(name@ == crate::seg::text_of(gsv, n_first + 1, n_end as int));
        assert(nodes.deep_view()[i as int].first_char == n_first as int);
        assert(nodes.deep_view()[i as int].end_char == n_end as int);
        assert(!crate::table::assoc(table.deep_view()).contains_key(name@));
    }
    let mut j = i + 1;
    let mut found_nl = false;
    while j < nodes.len() && !found_nl
        invariant
            i + 1 <= j <= nodes.len(),
            all_nodes == nodes.deep_view(),
            gsv == gs.deep_view(),
            tab_pre == table.deep_view(),
            i < all_nodes.len(),
            all_nodes[i as int].first_char == n_first as int,
            all_nodes[i as int].end_char == n_end as int,
            name@ == crate::seg::text_of(gsv, n_first + 1, n_end as int),
            !crate::table::assoc(table.deep_view()).contains_key(name@),
            found_nl ==> j < nodes.len() && all_nodes[j as int].inner is NewLine,
            forall|k: int|
                i + 1 <= k < j ==> !((#[trigger] all_nodes[k]).inner is NewLine) && !(
                all_nodes[k].inner is MacroDef) && !(all_nodes[k].inner is MacroExp),
        decreases nodes.len() - j + (if found_nl {
            0int
        } else {
            1int
        }),
    {
        proof {
            assert(all_nodes[j as int] == nodes@[j as int]@);
        }
        match &nodes[j].inner {
            InnerNode::NewLine => {
                found_nl = true;
            },
            InnerNode::MacroDef => {
                let e = CompileError::new_nesetd_macro(nodes[j].first_char);
                proof {
                    lemma_collect_nested(all_nodes, i + 1, j as int);
                    assert(spec_collect_body(all_nodes, i + 1) == Err::<(Seq<NodeV>, int), ErrV>(
                        crate::error::nested_macro_err(all_nodes[j as int].first_char),
                    ));
                    assert(e@ == crate::error::nested_macro_err(all_nodes[j as int].first_char));
                }
                return Err(e);
            },
            InnerNode::MacroExp => {
                let e = CompileError::new_nesetd_macro(nodes[j].first_char);
                proof {
                    lemma_collect_nested(all_nodes, i + 1, j as int);
                    assert(spec_collect_body(all_nodes, i + 1) == Err::<(Seq<NodeV>, int), ErrV>(
                        crate::error::nested_macro_err(all_nodes[j as int].first_char),
                    ));
                    assert(e@ == crate::error::nested_macro_err(all_nodes[j as int].first_char));
                }
                return Err(e);
            },
            _ => {
                j += 1;
            },
        }
    }
    proof {
        lemma_collect_plain(all_nodes, i + 1, j as int);
    }
    if j == i + 1 {
        proof {
            assert(all_nodes.subrange(i + 1, j as int) =~= Seq::<NodeV>::empty());
        }
        return Err(CompileError::new_empty_macro(n_first));
    }
    let mut children: Vec<Node> = Vec::new();
    let mut k = i + 1;
    proof {
        assert(children.deep_view() =~= all_nodes.subrange(i + 1, i + 1));
    }
    while k < j
        invariant
            i + 1 <= k <= j <= nodes.len(),
            all_nodes == nodes.deep_view(),
            children.deep_view() == all_nodes.subrange(i + 1, k as int),
        decreases j - k,
    {
        let ghost ch_pre = children.deep_view();
        children.push(nodes[k].duplicate());
        proof {
            assert(all_nodes[k as int] == nodes@[k as int]@);
            assert(children.deep_view() =~= ch_pre.push(all_nodes[k as int]));
            assert(all_nodes.subrange(i + 1, k + 1) =~= all_nodes.subrange(i + 1, k as int).push(
                all_nodes[k as int],
            ));
        }
        k += 1;
    }
    let next = if j < nodes.len() {
        j + 1
    } else {
        j
    };
    let ghost childrenv = children.deep_view();
    table.push((name, children));
    proof {
        crate::table::lemma_assoc_push(tab_pre, (
            crate::seg::text_of(gsv, n_first + 1, n_end as int),
            childrenv,
        ));
        assert(table.deep_view() =~= tab_pre.push(
            (crate::seg::text_of(gsv, n_first + 1, n_end as int), childrenv),
        ));
    }
    Ok(next)
}

/// The macro-resolution and array-fusion pass over the node list.
fn expand_nodes(gs: &Vec<String>, nodes: &Vec<Node>) -> (r: Result<Vec<Node>, CompileError>)
    requires
        gs.len() < usize::MAX,
        forall|k: int|
            0 <= k < nodes.deep_view().len() ==> node_span_wf(
                #[trigger] nodes.deep_view()[k],
                gs.len() as int,
            ),
    ensures
        (match r {
            Ok(out) => spec_expand(gs.deep_view(), nodes.deep_view(), 0, Map::empty(), Seq::empty())
                == Ok::<Seq<NodeV>, ErrV>(out.deep_view()) && (forall|k: int|
                0 <= k < out.deep_view().len() ==> node_span_wf(
                    #[trigger] out.deep_view()[k],
                    gs.len() as int,
                )),
            Err(e) => spec_expand(gs.deep_view(), nodes.deep_view(), 0, Map::empty(), Seq::empty())
                == Err::<Seq<NodeV>, ErrV>(e@),
        }),
{
    let ghost gsv = gs.deep_view();
    let ghost all_nodes = nodes.deep_view();
    let glen = gs.len();
    let mut expanded: Vec<Node> = Vec::new();
    let mut table: Vec<(String, Vec<Node>)> = Vec::new();
    let mut i: usize = 0;
    proof {
        assert(table.deep_view() =~= Seq::<(Seq<char>, Seq<NodeV>)>::empty());
        assert(crate::table::assoc(table.deep_view()) =~= Map::<Seq<char>, Seq<NodeV>>::empty());
        assert(expanded.deep_view() =~= Seq::<NodeV>::empty());
    }
    while i < nodes.len()
        invariant
            i <= nodes.len(),
            glen == gs.len(),
            gs.len() < usize::MAX,
            gsv == gs.deep_view(),
            all_nodes == nodes.deep_view(),
            forall|k: int|
                0 <= k < all_nodes.len() ==> node_span_wf(#[trigger] all_nodes[k], glen as int),
            spec_expand(gsv, all_nodes, 0, Map::empty(), Seq::empty()) == spec_expand(
                gsv,
                all_nodes,
                i as int,
                crate::table::assoc(table.deep_view()),
                expanded.deep_view(),
            ),
            forall|k: int|
                0 <= k < expanded.deep_view().len() ==> node_span_wf(
                    #[trigger] expanded.deep_view()[k],
                    glen as int,
                ),
            forall|p: int, k: int|
                0 <= p < table.deep_view().len() && 0 <= k < (#[trigger] table.deep_view()[p]).1.len()
                    ==> node_span_wf(#[trigger] table.deep_view()[p].1[k], glen as int),
        decreases nodes.len() - i,
    {
        let ghost exp_pre = expanded.deep_view();
        let ghost tab_pre = table.deep_view();
        proof {
            assert(all_nodes[i as int] == nodes@[i as int]@);
        }
        let n_first = nodes[i].first_char;
        let n_end = nodes[i].end_char;
        match &nodes[i].inner {
            InnerNode::MacroDef => {
                match record_macro(gs, nodes, i, &mut table) {
                    Ok(next) => {
                        i = next;
                    },
                    Err(e) => {
                        return Err(e);
                    },
                }
            },
            InnerNode::MacroExp => {
                let name = crate::seg::concat_range(gs, n_first + 1, n_end);
                match lookup_nodes(&table, &name) {
                    Some(body) => {
                        let ghost bodyv = body.deep_view();
                        let mut k: usize = 0;
                        proof {
                            assert(expanded.deep_view() =~= exp_pre + bodyv.subrange(0, 0));
                            let p = choose|p: int|
                                0 <= p < table.deep_view().len() && #[trigger] table.deep_view()[p]
                                    == (name@, body.deep_view());
                            assert(0 <= p < tab_pre.len() && tab_pre[p] == (name@, bodyv));
                            assert(forall|q: int|
                                0 <= q < bodyv.len() ==> node_span_wf(
                                    #[trigger] tab_pre[p].1[q],
                                    glen as int,
                                ));
                            assert(forall|q: int|
                                0 <= q < bodyv.len() ==> node_span_wf(
                                    #[trigger] bodyv[q],
                                    glen as int,
                                ));
                        }
                        while k < body.len()
                            invariant
                                k <= body.len(),
                                glen == gs.len(),
                                bodyv == body.deep_view(),
                                expanded.deep_view() == exp_pre + bodyv.subrange(0, k as int),
                                forall|q: int|
                                    0 <= q < bodyv.len() ==> node_span_wf(
                                        #[trigger] bodyv[q],
                                        glen as int,
                                    ),
                                forall|q: int|
                                    0 <= q < expanded.deep_view().len() ==> node_span_wf(
                                        #[trigger] expanded.deep_view()[q],
                                        glen as int,
                                    ),
                            decreases body.len() - k,
                        {
                            let ghost e_pre = expanded.deep_view();
                            expanded.push(body[k].duplicate());
                            proof {
                                assert(bodyv[k as int] == body@[k as int]@);
                                assert(expanded.deep_view() =~= e_pre.push(bodyv[k as int]));
                                assert(bodyv.subrange(0, k + 1) =~= bodyv.subrange(0, k as int).push(
                                    bodyv[k as int],
                                ));
                            }
                            k += 1;
                        }
                        proof {
                            assert(bodyv.subrange(0, bodyv.len() as int) =~= bodyv);
                        }
                        i += 1;
                    },
                    None => {
                        return Err(CompileError::new_undefined_macro(n_first, name));
                    },
                }
            },
            InnerNode::Name => {
                if i + 1 < nodes.len() {
                    proof {
                        assert(all_nodes[i + 1] == nodes@[i + 1]@);
                    }
                    let fuse: Option<(Option<usize>, Option<usize>)> = match &nodes[i + 1].inner {
                        InnerNode::Range { start, end } => Some((*start, *end)),
                        _ => None,
                    };
                    match fuse {
                        Some((start, end)) => {
                            let name = crate::seg::concat_range(gs, n_first, n_end);
                            let nd = Node {
                                first_char: n_first,
                                end_char: nodes[i + 1].end_char,
                                inner: InnerNode::Array { name, start, end },
                            };
                            let ghost ndv = nd@;
                            expanded.push(nd);
                            proof {
                                assert(expanded.deep_view() =~= exp_pre.push(ndv));
                            }
                        },
                        None => {
                            expanded.push(nodes[i].duplicate());
                            expanded.push(nodes[i + 1].duplicate());
                            proof {
                                assert(expanded.deep_view() =~= exp_pre.push(
                                    all_nodes[i as int],
                                ).push(all_nodes[i + 1]));
                            }
                        },
                    }
                    i += 2;
                } else {
                    i = nodes.len();
                }
            },
            InnerNode::NewLine => {
                i += 1;
            },
            _ => {
                expanded.push(nodes[i].duplicate());
                proof {
                    assert(expanded.deep_view() =~= exp_pre.push(all_nodes[i as int]));
                }
                i += 1;
            },
        }
    }
    Ok(expanded)
}

/// Parses source text into the expanded node list the generator consumes:
/// lexing, node construction, then macro resolution and array fusion.
pub fn ast(code: &str) -> (r: Result<Vec<Node>, CompileError>)
    ensures
        (match r {
            Ok(nodes) => spec_ast(graphemes_of(code@)) == Ok::<Seq<NodeV>, ErrV>(nodes.deep_view())
                && (forall|k: int|
                0 <= k < nodes.deep_view().len() ==> node_span_wf(
                    #[trigger] nodes.deep_view()[k],
                    graphemes_of(code@).len() as int,
                )),
            Err(e) => spec_ast(graphemes_of(code@)) == Err::<Seq<NodeV>, ErrV>(e@),
        }),
{
    let gs = split_graphemes(code);
    let toks = match lex(&gs) {
        Ok(t) => t,
        Err(e) => {
            return Err(e);
        },
    };
    let nodes = match tokens_to_nodes(&gs, &toks) {
        Ok(n) => n,
        Err(e) => {
            return Err(e);
        },
    };
    expand_nodes(&gs, &nodes)
}

} // verus!
