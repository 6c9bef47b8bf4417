//! The mathematical model of the scanner: a step function that says, for a
//! cursor position in an input, which token (or error) the next pull
//! produces, how far the cursor moves, what is queued for replay, and which
//! macro definition is recorded. The driving iterator is proved to follow
//! this model step by step, and `lex_all` folds the model over a whole input.

use vstd::prelude::*;

use crate::chars::{
    is_digit,
    ascii_lower, blank, blanks_back, blanks_to, builtin_type_text, digit, digits_to, float_shape,
    ident_continue, ident_start, ident_to, lemma_blanks_back, lemma_blanks_to,
    lemma_ident_to, lemma_lexws_to, lemma_line_to, lemma_lower_to, lemma_nonblank_to,
    lemma_number_to, lemma_ops_to, lemma_skip_to, lexical_whitespace, lexws_to, line_to, lower_to,
    nonblank_to, number_char, number_to, operator_char, ops_to, punctuation, sign_char, skip_to,
    skippable, trim_blanks,
};
use crate::err::LexicalError;
use crate::pos::{locate, Location, SpannedV};
use crate::tok::{keyword_of, operator_of, punct_of, Keyword, Operator, TokenV, Whitespace};

verus! {

// ---------------------------------------------------------------------------
// Numeric values.
// ---------------------------------------------------------------------------
pub open spec fn digit_val(c: char) -> nat
    recommends
        digit(c),
{
    (c as u32 - '0' as u32) as nat
}

/// The value of a string of decimal digits.
pub open spec fn dec_val(s: Seq<char>) -> nat
    decreases s.len(),
{
    if s.len() == 0 {
        0
    } else {
        dec_val(s.drop_last()) * 10 + digit_val(s.last())
    }
}

pub open spec fn all_digits(s: Seq<char>) -> bool {
    forall|i: int| 0 <= i < s.len() ==> digit(s[i])
}

/// The unsigned integer a candidate denotes: every character a digit and the
/// value within range, or nothing.
pub open spec fn unsigned_of(s: Seq<char>) -> Option<u64> {
    if s.len() > 0 && all_digits(s) && dec_val(s) <= u64::MAX {
        Some(dec_val(s) as u64)
    } else {
        None
    }
}

/// The signed integer a candidate beginning with a sign denotes.
pub open spec fn signed_of(s: Seq<char>) -> Option<i64>
    recommends
        s.len() > 0,
{
    let mag = s.drop_first();
    if sign_char(s[0]) && mag.len() > 0 && all_digits(mag) {
        if s[0] == '-' {
            if dec_val(mag) <= 0x8000_0000_0000_0000 {
                Some((-(dec_val(mag) as int)) as i64)
            } else {
                None
            }
        } else {
            if dec_val(mag) <= i64::MAX {
                Some(dec_val(mag) as i64)
            } else {
                None
            }
        }
    } else {
        None
    }
}

/// Classification of a trimmed numeric candidate: a float if it has the
/// float shape, otherwise a signed integer if it begins with a sign,
/// otherwise an unsigned integer; malformed or out-of-range candidates
/// classify to nothing.
pub open spec fn number_token(cand: Seq<char>) -> Option<TokenV>
    recommends
        cand.len() > 0,
{
    if float_shape(cand) {
        Some(TokenV::Float(cand))
    } else if sign_char(cand[0]) {
        match signed_of(cand) {
            Some(v) => Some(TokenV::Signed(v)),
            None => None,
        }
    } else {
        match unsigned_of(cand) {
            Some(v) => Some(TokenV::Unsigned(v)),
            None => None,
        }
    }
}

pub proof fn lemma_dec_val_extend(s: Seq<char>, i: int)
    requires
        0 <= i < s.len(),
    ensures
        dec_val(s.subrange(0, i + 1)) == dec_val(s.subrange(0, i)) * 10 + digit_val(s[i]),
{
    assert(s.subrange(0, i + 1).drop_last() =~= s.subrange(0, i));
    assert(s.subrange(0, i + 1).last() == s[i]);
}

pub proof fn lemma_dec_val_mono(s: Seq<char>, i: int, j: int)
    requires
        0 <= i <= j <= s.len(),
    ensures
        dec_val(s.subrange(0, i)) <= dec_val(s.subrange(0, j)),
    decreases j - i,
{
    if i < j {
        lemma_dec_val_mono(s, i, j - 1);
        lemma_dec_val_extend(s, j - 1);
    }
}

/// Decimal parse of the characters `[a, b)` of `v` into an unsigned value,
/// exactly as `unsigned_of` classifies them.
pub fn parse_unsigned(v: &Vec<char>, a: usize, b: usize) -> (r: Option<u64>)
    requires
        a <= b <= v@.len(),
    ensures
        r == unsigned_of(v@.subrange(a as int, b as int)),
{
    let ghost s = v@.subrange(a as int, b as int);
    if a == b {
        return None;
    }
    let mut acc: u64 = 0;
    let mut i = a;
    while i < b
        invariant
            a <= i <= b <= v@.len(),
            s == v@.subrange(a as int, b as int),
            forall|k: int| 0 <= k < i - a ==> digit(s[k]),
            acc == dec_val(s.subrange(0, i - a)),
        decreases b - i,
    {
        let c = v[i];
        proof {
            assert(s[i - a] == v@[i as int]);
            lemma_dec_val_extend(s, i - a);
        }
        if !is_digit(&c) {
            proof {
                assert(!digit(s[i - a]));
            }
            return None;
        }
        let d: u64 = (c as u32 - '0' as u32) as u64;
        proof {
            assert(d == digit_val(s[i - a]));
        }
        if acc > (u64::MAX - d) / 10 {
            proof {
                assert((u64::MAX - d) / 10 * 10 + (u64::MAX - d) % 10 == u64::MAX - d);
                assert(acc * 10 + d > u64::MAX);
                assert(dec_val(s.subrange(0, i - a + 1)) > u64::MAX);
                lemma_dec_val_mono(s, i - a + 1, s.len() as int);
                assert(s.subrange(0, s.len() as int) =~= s);
                assert(dec_val(s) > u64::MAX);
            }
            return None;
        }
        proof {
            assert((u64::MAX - d) / 10 * 10 + (u64::MAX - d) % 10 == u64::MAX - d);
            assert(acc * 10 + d <= u64::MAX);
        }
        acc = acc * 10 + d;
        i += 1;
    }
    proof {
        assert(s.subrange(0, (b - a) as int) =~= s);
        assert(all_digits(s));
    }
    Some(acc)
}

/// Decimal parse of a sign-prefixed candidate into a signed value, exactly
/// as `signed_of` classifies it.
pub fn parse_signed(v: &Vec<char>, a: usize, b: usize) -> (r: Option<i64>)
    requires
        a < b <= v@.len(),
        sign_char(v@[a as int]),
    ensures
        r == signed_of(v@.subrange(a as int, b as int)),
{
    let ghost s = v@.subrange(a as int, b as int);
    let ghost mag = s.drop_first();
    proof {
        assert(mag =~= v@.subrange(a as int + 1, b as int));
        assert(s[0] == v@[a as int]);
    }
    let neg = v[a] == '-';
    match parse_unsigned(v, a + 1, b) {
        None => {
            proof {
                if mag.len() > 0 && all_digits(mag) {
                    assert(dec_val(mag) > u64::MAX);
                }
            }
            None
        },
        Some(m) => {
            if neg {
                if m == 0x8000_0000_0000_0000u64 {
                    Some(i64::MIN)
                } else if m < 0x8000_0000_0000_0000u64 {
                    Some(-(m as i64))
                } else {
                    None
                }
            } else {
                if m <= 0x7fff_ffff_ffff_ffffu64 {
                    Some(m as i64)
                } else {
                    None
                }
            }
        },
    }
}

// ---------------------------------------------------------------------------
// Quoted literals and comments.
// ---------------------------------------------------------------------------
/// Scan of a quoted literal's body from position `i`: the position just
/// after the closing quote, or nothing if the input ends first or the
/// literal can no longer be closed. `esc` says whether the previous
/// character was an unconsumed backslash. A backslash escapes any character
/// but a line feed; an unescaped double quote inside a single-quoted literal
/// makes it unclosable.
pub open spec fn quote_scan(s: Seq<char>, i: int, q: char, esc: bool) -> Option<int>
    decreases s.len() - i
        when 0 <= i <= s.len()
{
    if i >= s.len() {
        None
    } else {
        let c = s[i];
        if esc {
            if c == '\n' {
                None
            } else {
                quote_scan(s, i + 1, q, false)
            }
        } else if c == q {
            Some(i + 1)
        } else if c == '\\' {
            quote_scan(s, i + 1, q, true)
        } else if c == '"' && q == '\'' {
            None
        } else {
            quote_scan(s, i + 1, q, esc)
        }
    }
}

pub proof fn lemma_quote_scan(s: Seq<char>, i: int, q: char, esc: bool)
    requires
        0 <= i <= s.len(),
    ensures
        quote_scan(s, i, q, esc) matches Some(j) ==> i < j <= s.len() && s[j - 1] == q,
    decreases s.len() - i,
{
    if i < s.len() {
        let c = s[i];
        if esc {
            if c != '\n' {
                lemma_quote_scan(s, i + 1, q, false);
            }
        } else if c == q {
        } else if c == '\\' {
            lemma_quote_scan(s, i + 1, q, true);
        } else if c == '"' && q == '\'' {
        } else {
            lemma_quote_scan(s, i + 1, q, esc);
        }
    }
}

/// The position just after the first `*/` whose `*` is at or after `from`,
/// or nothing if the comment is never closed.
pub open spec fn close_after(s: Seq<char>, from: int) -> Option<int>
    decreases s.len() - from
        when 0 <= from <= s.len()
{
    if from + 1 >= s.len() {
        None
    } else if s[from] == '*' && s[from + 1] == '/' {
        Some(from + 2)
    } else {
        close_after(s, from + 1)
    }
}

pub proof fn lemma_close_after(s: Seq<char>, from: int)
    requires
        0 <= from <= s.len(),
    ensures
        close_after(s, from) matches Some(j) ==> from + 2 <= j <= s.len() && s[j - 2] == '*'
            && s[j - 1] == '/',
    decreases s.len() - from,
{
    if from + 1 < s.len() && !(s[from] == '*' && s[from + 1] == '/') {
        lemma_close_after(s, from + 1);
    }
}

// ---------------------------------------------------------------------------
// Identifier classification and the macro-definition table.
// ---------------------------------------------------------------------------
/// What an identifier candidate that is no macro reference becomes: a
/// keyword by exact match first, then a built-in type name, then a known
/// type name from the scanner-local list, else a plain identifier.
pub open spec fn ident_token(name: Seq<char>, types: Seq<Seq<char>>) -> TokenV {
    match keyword_of(name) {
        Some(kw) => TokenV::Keyword(kw),
        None => if builtin_type_text(name) {
            TokenV::TypeIdent(name)
        } else if types.contains(name) {
            TokenV::TypeIdent(name)
        } else {
            TokenV::Identifier(name)
        },
    }
}

/// Whether an identifier run resolves through the definition table.
pub open spec fn is_macro_ref(
    name: Seq<char>,
    defs: Map<Seq<char>, Seq<SpannedV>>,
) -> bool {
    keyword_of(name) is None && !builtin_type_text(name) && defs.contains_key(name)
}

// ---------------------------------------------------------------------------
// One step of the scanner.
// ---------------------------------------------------------------------------
pub enum OutV {
    /// The input is exhausted (or a scanner ends silently at end of input).
    End,
    /// One token, with its span.
    Tok(SpannedV),
    /// A lexical error at the start of the failing token.
    Fail(LexicalError),
}

pub struct StepV {
    /// The cursor position after the step.
    pub new_pos: int,
    /// What the pull returns.
    pub out: OutV,
    /// Tokens queued for replay on later pulls.
    pub buffered: Seq<SpannedV>,
    /// A macro definition recorded by a directive: name and replacement text.
    pub defined: Option<(Seq<char>, Seq<char>)>,
    /// Whether the returned token was replayed from the definition table
    /// rather than scanned from the input.
    pub replayed: bool,
}

pub open spec fn emit(sv: SpannedV, np: int) -> StepV {
    StepV { new_pos: np, out: OutV::Tok(sv), buffered: Seq::empty(), defined: None, replayed: false }
}

pub open spec fn fail(e: LexicalError, np: int) -> StepV {
    StepV { new_pos: np, out: OutV::Fail(e), buffered: Seq::empty(), defined: None, replayed: false }
}

pub open spec fn halt(np: int) -> StepV {
    StepV { new_pos: np, out: OutV::End, buffered: Seq::empty(), defined: None, replayed: false }
}

/// Whether a character at `i` begins a numeric literal: a digit, or a sign
/// immediately followed by a digit.
pub open spec fn number_start(s: Seq<char>, i: int) -> bool
    recommends
        0 <= i < s.len(),
{
    digit(s[i]) || (sign_char(s[i]) && i + 1 < s.len() && digit(s[i + 1]))
}

/// One pull of the scanner from position `p`: skip horizontal whitespace,
/// dispatch on the next character (with two-character lookahead for the two
/// comment openers), and consume one maximal-munch token.
pub open spec fn step(
    s: Seq<char>,
    p: int,
    defs: Map<Seq<char>, Seq<SpannedV>>,
    types: Seq<Seq<char>>,
) -> StepV
    recommends
        0 <= p <= s.len(),
{
    let sk = skip_to(s, p);
    if sk >= s.len() {
        halt(s.len() as int)
    } else {
        let c = s[sk];
        let sloc = locate(s, sk);
        if c == '/' && sk + 1 < s.len() && s[sk + 1] == '/' {
            let nl = line_to(s, sk);
            if nl >= s.len() {
                halt(s.len() as int)
            } else {
                emit(
                    SpannedV {
                        start: sloc,
                        tok: TokenV::SingleLineComment(s.subrange(sk, nl)),
                        end: locate(s, nl + 1),
                    },
                    nl + 1,
                )
            }
        } else if c == '/' && sk + 1 < s.len() && s[sk + 1] == '*' {
            match close_after(s, sk + 1) {
                Some(j) => emit(
                    SpannedV {
                        start: sloc,
                        tok: TokenV::MultiLineComment(s.subrange(sk, j)),
                        end: locate(s, j),
                    },
                    j,
                ),
                None => fail(LexicalError::UnterminatedComment(sloc), s.len() as int),
            }
        } else if number_start(s, sk) {
            let e0 = number_to(s, sk);
            let e = if sign_char(s[e0 - 1]) {
                e0 - 1
            } else {
                e0
            };
            let cand = s.subrange(sk, e);
            match number_token(cand) {
                Some(tv) => emit(SpannedV { start: sloc, tok: tv, end: locate(s, e) }, e),
                None => fail(LexicalError::InvalidDigit(sloc), e),
            }
        } else if operator_char(c) {
            let e = ops_to(s, sk);
            let cand = s.subrange(sk, e);
            match operator_of(cand) {
                Some(op) => emit(
                    SpannedV { start: sloc, tok: TokenV::Operator(op), end: locate(s, e) },
                    e,
                ),
                None => fail(LexicalError::ExpectedOperator(sloc, c), e),
            }
        } else if lexical_whitespace(c) {
            let e = lexws_to(s, sk);
            emit(
                SpannedV {
                    start: sloc,
                    tok: TokenV::Whitespace(Whitespace::Newline),
                    end: locate(s, e),
                },
                e,
            )
        } else if ident_start(c) {
            let e = ident_to(s, sk);
            let name = s.subrange(sk, e);
            if is_macro_ref(name, defs) {
                let toks = defs[name];
                if toks.len() == 0 {
                    fail(LexicalError::ExpectedIdentOrKw(sloc), e)
                } else {
                    StepV {
                        new_pos: e,
                        out: OutV::Tok(toks[0]),
                        buffered: toks.drop_first(),
                        defined: None,
                        replayed: true,
                    }
                }
            } else {
                emit(
                    SpannedV { start: sloc, tok: ident_token(name, types), end: locate(s, e) },
                    e,
                )
            }
        } else if punctuation(c) {
            match punct_of(c) {
                Some(tv) => emit(
                    SpannedV { start: sloc, tok: tv, end: locate(s, sk + 1) },
                    sk + 1,
                ),
                None => halt(s.len() as int),
            }
        } else if c == '"' || c == '\'' {
            match quote_scan(s, sk + 1, c, false) {
                Some(j) => emit(
                    SpannedV {
                        start: sloc,
                        tok: TokenV::Str(s.subrange(sk + 1, j - 1)),
                        end: locate(s, j),
                    },
                    j,
                ),
                None => fail(LexicalError::InvalidString(sloc), s.len() as int),
            }
        } else if c == '#' {
            let ne = lower_to(s, sk + 1);
            let le = line_to(s, ne);
            let ce: int = if le < s.len() {
                le + 1
            } else {
                le
            };
            let buf = trim_blanks(s.subrange(ne, le));
            let k = nonblank_to(buf, 0);
            let name = buf.subrange(0, k);
            let rest: Seq<char> = if k < buf.len() {
                trim_blanks(buf.subrange(k + 1, buf.len() as int))
            } else {
                Seq::empty()
            };
            StepV {
                new_pos: ce,
                out: OutV::Tok(
                    SpannedV { start: sloc, tok: TokenV::NOP, end: locate(s, ce) },
                ),
                buffered: Seq::empty(),
                defined: Some((name, rest)),
                replayed: false,
            }
        } else {
            halt(s.len() as int)
        }
    }
}

/// The step makes progress: whenever it does not end the stream it moves
/// the cursor strictly forward, never past the end; a recorded macro
/// replacement text is strictly shorter than the remaining input.
pub proof fn lemma_step_progress(
    s: Seq<char>,
    p: int,
    defs: Map<Seq<char>, Seq<SpannedV>>,
    types: Seq<Seq<char>>,
)
    requires
        0 <= p <= s.len(),
    ensures
        p <= step(s, p, defs, types).new_pos <= s.len(),
        skip_to(s, p) <= step(s, p, defs, types).new_pos,
        !(step(s, p, defs, types).out is End) ==> p < step(s, p, defs, types).new_pos,
        !(step(s, p, defs, types).out is End) ==> skip_to(s, p) < step(s, p, defs, types).new_pos,
        step(s, p, defs, types).out is End ==> step(s, p, defs, types).new_pos == s.len(),
        step(s, p, defs, types).defined matches Some((name, rest)) ==> rest.len() < s.len() - p,
{
    let sk = skip_to(s, p);
    lemma_skip_to(s, p);
    if sk < s.len() {
        let c = s[sk];
        if c == '/' && sk + 1 < s.len() && s[sk + 1] == '/' {
            lemma_line_to(s, sk);
        } else if c == '/' && sk + 1 < s.len() && s[sk + 1] == '*' {
            lemma_close_after(s, sk + 1);
        } else if number_start(s, sk) {
            lemma_number_to(s, sk);
            let e0 = number_to(s, sk);
            assert(e0 > sk) by {
                assert(number_char(s[sk]));
            }
            if sign_char(s[e0 - 1]) && e0 - 1 == sk {
                assert(digit(s[sk]) ==> !sign_char(s[sk]));
                assert(sign_char(s[sk]) && sk + 1 < s.len() && digit(s[sk + 1]) ==> e0 >= sk + 2)
                    by {
                    assert(number_char(s[sk + 1]));
                };
            }
        } else if operator_char(c) {
            lemma_ops_to(s, sk);
            assert(ops_to(s, sk) > sk);
        } else if lexical_whitespace(c) {
            lemma_lexws_to(s, sk);
        } else if ident_start(c) {
            lemma_ident_to(s, sk);
            assert(ident_continue(s[sk]));
        } else if punctuation(c) {
        } else if c == '"' || c == '\'' {
            lemma_quote_scan(s, sk + 1, c, false);
        } else if c == '#' {
            lemma_lower_to(s, sk + 1);
            let ne = lower_to(s, sk + 1);
            lemma_line_to(s, ne);
            let le = line_to(s, ne);
            let raw = s.subrange(ne, le);
            let buf = trim_blanks(raw);
            lemma_blanks_to(raw, 0);
            lemma_blanks_back(raw, raw.len() as int);
            assert(buf.len() <= raw.len());
            lemma_nonblank_to(buf, 0);
            let k = nonblank_to(buf, 0);
            if k < buf.len() {
                let tail = buf.subrange(k + 1, buf.len() as int);
                lemma_blanks_to(tail, 0);
                lemma_blanks_back(tail, tail.len() as int);
                assert(trim_blanks(tail).len() <= tail.len());
            }
        }
    }
}

/// Span coverage: the consumed spans tile the input exactly once, left to
/// right. One step consumes exactly the characters from the old cursor to
/// the new one; everything skipped before the token is horizontal
/// whitespace; a scanned token's span starts right after that skipped run
/// and ends exactly at the new cursor, so the spans of consecutive pulls
/// leave no gaps (other than skipped whitespace) and never overlap. A
/// replayed macro token keeps its definition-site span and consumes exactly
/// the identifier that referenced it.
pub proof fn lemma_step_coverage(
    s: Seq<char>,
    p: int,
    defs: Map<Seq<char>, Seq<SpannedV>>,
    types: Seq<Seq<char>>,
)
    requires
        0 <= p <= s.len(),
        s.len() <= usize::MAX,
    ensures
        ({
            let st = step(s, p, defs, types);
            &&& p <= skip_to(s, p) <= st.new_pos <= s.len()
            &&& (forall|i: int| p <= i < skip_to(s, p) ==> skippable(s[i]))
            &&& (st.out matches OutV::Tok(sv) ==> !st.replayed ==> {
                &&& sv.start == locate(s, skip_to(s, p))
                &&& sv.end == locate(s, st.new_pos)
                &&& sv.start.absolute == skip_to(s, p)
                &&& sv.end.absolute == st.new_pos
                &&& sv.start.absolute <= sv.end.absolute
            })
            &&& (st.replayed ==> st.new_pos == ident_to(s, skip_to(s, p)))
        }),
{
    lemma_step_progress(s, p, defs, types);
    let sk = skip_to(s, p);
    lemma_skip_to(s, p);
    if sk < s.len() {
        crate::pos::lemma_locate(s, sk);
        let st = step(s, p, defs, types);
        crate::pos::lemma_locate(s, st.new_pos);
    }
}

/// Operator maximal munch: the candidate held against the whitelist is the
/// entire run of operator characters at the cursor, and when that run is
/// not a valid spelling the step fails with expected-operator at the run's
/// start; no shorter valid prefix is retried.
pub proof fn lemma_operator_maximal_munch(
    s: Seq<char>,
    p: int,
    defs: Map<Seq<char>, Seq<SpannedV>>,
    types: Seq<Seq<char>>,
)
    requires
        0 <= p <= s.len(),
        skip_to(s, p) < s.len(),
        operator_char(s[skip_to(s, p)]),
        !number_start(s, skip_to(s, p)),
        !(s[skip_to(s, p)] == '/' && skip_to(s, p) + 1 < s.len() && (s[skip_to(s, p) + 1] == '/'
            || s[skip_to(s, p) + 1] == '*')),
    ensures
        ({
            let sk = skip_to(s, p);
            let e = ops_to(s, sk);
            let st = step(s, p, defs, types);
            &&& st.new_pos == e
            &&& (forall|i: int| sk <= i < e ==> operator_char(s[i]))
            &&& (e < s.len() ==> !operator_char(s[e]))
            &&& (match operator_of(s.subrange(sk, e)) {
                Some(op) => st.out == OutV::Tok(
                    SpannedV {
                        start: locate(s, sk),
                        tok: TokenV::Operator(op),
                        end: locate(s, e),
                    },
                ),
                None => st.out == OutV::Fail(LexicalError::ExpectedOperator(locate(s, sk), s[sk])),
            })
        }),
{
    let sk = skip_to(s, p);
    lemma_skip_to(s, p);
    lemma_ops_to(s, sk);
}

/// Number scanning: the candidate is the maximal run of numeric
/// characters at the cursor, with a dangling trailing sign trimmed off and
/// left unconsumed. A float-shaped candidate yields a float token, a
/// sign-led candidate its signed integer, any other candidate its unsigned
/// integer; a malformed or out-of-range candidate yields the invalid-digit
/// error at the candidate's start. Every pull ends in exactly one of these
/// outcomes.
pub proof fn lemma_number_scan(
    s: Seq<char>,
    p: int,
    defs: Map<Seq<char>, Seq<SpannedV>>,
    types: Seq<Seq<char>>,
)
    requires
        0 <= p <= s.len(),
        skip_to(s, p) < s.len(),
        number_start(s, skip_to(s, p)),
    ensures
        ({
            let sk = skip_to(s, p);
            let e0 = number_to(s, sk);
            let e: int = if sign_char(s[e0 - 1]) {
                e0 - 1
            } else {
                e0
            };
            let cand = s.subrange(sk, e);
            let st = step(s, p, defs, types);
            &&& sk < e <= e0 <= s.len()
            &&& (forall|i: int| sk <= i < e0 ==> number_char(s[i]))
            &&& (e0 < s.len() ==> !number_char(s[e0]))
            &&& st.new_pos == e
            &&& (match number_token(cand) {
                Some(tv) => st.out == OutV::Tok(
                    SpannedV { start: locate(s, sk), tok: tv, end: locate(s, e) },
                ),
                None => st.out == OutV::Fail(LexicalError::InvalidDigit(locate(s, sk))),
            })
        }),
{
    let sk = skip_to(s, p);
    lemma_skip_to(s, p);
    lemma_number_to(s, sk);
    let e0 = number_to(s, sk);
    assert(e0 > sk) by {
        assert(number_char(s[sk]));
    }
    if sign_char(s[e0 - 1]) && e0 - 1 == sk {
        assert(digit(s[sk]) ==> !sign_char(s[sk]));
        assert(sign_char(s[sk]) && sk + 1 < s.len() && digit(s[sk + 1]) ==> e0 >= sk + 2) by {
            assert(number_char(s[sk + 1]));
        };
    }
}

/// Macro replay: when the identifier at the cursor names a stored macro
/// (and no keyword or built-in type), the pull returns the first stored
/// token and queues the rest — together exactly the stored expansion, in
/// order — while consuming no input beyond the identifier's own extent.
pub proof fn lemma_macro_replay(
    s: Seq<char>,
    p: int,
    defs: Map<Seq<char>, Seq<SpannedV>>,
    types: Seq<Seq<char>>,
)
    requires
        0 <= p <= s.len(),
        skip_to(s, p) < s.len(),
        ident_start(s[skip_to(s, p)]),
        is_macro_ref(s.subrange(skip_to(s, p), ident_to(s, skip_to(s, p))), defs),
        defs[s.subrange(skip_to(s, p), ident_to(s, skip_to(s, p)))].len() > 0,
    ensures
        ({
            let sk = skip_to(s, p);
            let e = ident_to(s, sk);
            let toks = defs[s.subrange(sk, e)];
            let st = step(s, p, defs, types);
            &&& st.out == OutV::Tok(toks[0])
            &&& st.buffered == toks.drop_first()
            &&& seq![toks[0]] + st.buffered == toks
            &&& st.new_pos == e
            &&& st.replayed
            &&& st.defined is None
        }),
{
    let sk = skip_to(s, p);
    lemma_skip_to(s, p);
    lemma_ident_to(s, sk);
    let e = ident_to(s, sk);
    let toks = defs[s.subrange(sk, e)];
    assert(seq![toks[0]] + toks.drop_first() =~= toks);
}

/// Which macro a directive defines, and from which replacement text,
/// depends in no way on the definitions already made: definitions do not
/// feed into one another.
pub proof fn lemma_define_independent(
    s: Seq<char>,
    p: int,
    defs1: Map<Seq<char>, Seq<SpannedV>>,
    defs2: Map<Seq<char>, Seq<SpannedV>>,
    types: Seq<Seq<char>>,
)
    requires
        0 <= p <= s.len(),
    ensures
        step(s, p, defs1, types).defined == step(s, p, defs2, types).defined,
{
}

/// Macro non-recursion: a replacement text is lexed standalone, with an
/// empty definition table, so no pull of that standalone lexing ever
/// replays a macro; a macro name inside a replacement text therefore comes
/// out as a plain token, not as its expansion.
pub proof fn lemma_no_replay_in_definitions(s: Seq<char>, p: int, types: Seq<Seq<char>>)
    requires
        0 <= p <= s.len(),
    ensures
        !step(s, p, Map::empty(), types).replayed,
{
}

/// Whitespace collapsing: a maximal run of line-break characters at the
/// cursor is consumed whole and produces exactly one newline-whitespace
/// token spanning the entire run.
pub proof fn lemma_whitespace_collapse(
    s: Seq<char>,
    p: int,
    defs: Map<Seq<char>, Seq<SpannedV>>,
    types: Seq<Seq<char>>,
)
    requires
        0 <= p <= s.len(),
        skip_to(s, p) < s.len(),
        lexical_whitespace(s[skip_to(s, p)]),
    ensures
        ({
            let sk = skip_to(s, p);
            let e = lexws_to(s, sk);
            let st = step(s, p, defs, types);
            &&& st.out == OutV::Tok(
                SpannedV {
                    start: locate(s, sk),
                    tok: TokenV::Whitespace(Whitespace::Newline),
                    end: locate(s, e),
                },
            )
            &&& st.new_pos == e
            &&& (forall|i: int| sk <= i < e ==> lexical_whitespace(s[i]))
            &&& (e < s.len() ==> !lexical_whitespace(s[e]))
        }),
{
    let sk = skip_to(s, p);
    lemma_skip_to(s, p);
    lemma_lexws_to(s, sk);
}

/// Keyword against identifier: the classified name is the maximal run of
/// identifier-continue characters, a keyword exactly when the whole name is
/// a reserved word; a name that merely extends a reserved word stays an
/// identifier.
pub proof fn lemma_keyword_boundary(
    s: Seq<char>,
    p: int,
    defs: Map<Seq<char>, Seq<SpannedV>>,
    types: Seq<Seq<char>>,
)
    requires
        0 <= p <= s.len(),
        skip_to(s, p) < s.len(),
        ident_start(s[skip_to(s, p)]),
    ensures
        ({
            let sk = skip_to(s, p);
            let e = ident_to(s, sk);
            let name = s.subrange(sk, e);
            let st = step(s, p, defs, types);
            &&& st.new_pos == e
            &&& (forall|i: int| sk <= i < e ==> ident_continue(s[i]))
            &&& (e < s.len() ==> !ident_continue(s[e]))
            &&& (match keyword_of(name) {
                Some(kw) => st.out == OutV::Tok(
                    SpannedV { start: locate(s, sk), tok: TokenV::Keyword(kw), end: locate(s, e) },
                ),
                None => !builtin_type_text(name) && !defs.contains_key(name) && !types.contains(
                    name,
                ) ==> st.out == OutV::Tok(
                    SpannedV {
                        start: locate(s, sk),
                        tok: TokenV::Identifier(name),
                        end: locate(s, e),
                    },
                ),
            })
        }),
{
    let sk = skip_to(s, p);
    lemma_skip_to(s, p);
    lemma_ident_to(s, sk);
}

// ---------------------------------------------------------------------------
// A whole input, folded through the step function.
// ---------------------------------------------------------------------------
/// The extent each successive pull consumes, from position `p` to where the
/// stream ends or first fails: the position of the token's first character,
/// after the skipped whitespace, and the position just after its last.
pub open spec fn extents(
    s: Seq<char>,
    p: int,
    defs: Map<Seq<char>, Seq<SpannedV>>,
    types: Seq<Seq<char>>,
) -> Seq<(int, int)>
    decreases s.len() - p
        when 0 <= p <= s.len()
{
    let st = step(s, p, defs, types);
    match st.out {
        OutV::End => Seq::empty(),
        OutV::Fail(_) => Seq::empty(),
        OutV::Tok(_) => {
            proof {
                lemma_step_progress(s, p, defs, types);
            }
            let tail = match st.defined {
                None => extents(s, st.new_pos, defs, types),
                Some((name, rest)) => extents(
                    s,
                    st.new_pos,
                    defs.insert(name, lex_all(rest, 0, Map::empty(), Seq::empty())),
                    types,
                ),
            };
            seq![(skip_to(s, p), st.new_pos)] + tail
        },
    }
}

/// Span coverage over a whole run: the extents consumed by successive pulls
/// tile the input left to right, with no overlaps and no gaps other than
/// runs of skipped ordinary whitespace. Together with `lemma_step_coverage`
/// (a scanned token's span is exactly its extent) this says the
/// concatenation of consumed spans covers the input exactly once.
pub proof fn lemma_extents_tile(
    s: Seq<char>,
    p: int,
    defs: Map<Seq<char>, Seq<SpannedV>>,
    types: Seq<Seq<char>>,
)
    requires
        0 <= p <= s.len(),
    ensures
        ({
            let es = extents(s, p, defs, types);
            &&& (forall|k: int| 0 <= k < es.len() ==> p <= (#[trigger] es[k]).0 < es[k].1
                <= s.len())
            &&& (forall|k: int| 1 <= k < es.len() ==> (#[trigger] es[k - 1]).1 <= es[k].0)
            &&& (forall|k: int, i: int|
                0 <= k < es.len() && (if k == 0 {
                    p
                } else {
                    es[k - 1].1
                }) <= i < (#[trigger] es[k]).0 ==> skippable(#[trigger] s[i]))
        }),
    decreases s.len() - p,
{
    lemma_step_progress(s, p, defs, types);
    lemma_skip_to(s, p);
    let st = step(s, p, defs, types);
    let es = extents(s, p, defs, types);
    match st.out {
        OutV::End => {},
        OutV::Fail(_) => {},
        OutV::Tok(_) => {
            let d2 = match st.defined {
                None => defs,
                Some((name, rest)) => defs.insert(
                    name,
                    lex_all(rest, 0, Map::empty(), Seq::empty()),
                ),
            };
            lemma_extents_tile(s, st.new_pos, d2, types);
            let tail = extents(s, st.new_pos, d2, types);
            lemma_skip_to(s, st.new_pos);
            assert(es == seq![(skip_to(s, p), st.new_pos)] + tail);
            assert(es[0] == (skip_to(s, p), st.new_pos));
            assert(forall|k: int| 1 <= k < es.len() ==> (#[trigger] es[k]) == tail[k - 1]);
            assert forall|k: int, i: int|
                0 <= k < es.len() && (if k == 0 {
                    p
                } else {
                    es[k - 1].1
                }) <= i < (#[trigger] es[k]).0 implies skippable(#[trigger] s[i]) by {
                if k == 0 {
                } else if k == 1 {
                    assert(es[0].1 == st.new_pos);
                    assert(es[1] == tail[0]);
                    assert(skip_to(s, st.new_pos) <= tail[0].0);
                } else {
                    assert(es[k] == tail[k - 1]);
                    assert(es[k - 1] == tail[k - 2]);
                }
            }
        },
    }
}

/// Every token the scanner yields from position `p` to the end of the
/// input, stopping (and dropping the error) at the first failure. A
/// directive's replacement text is lexed standalone: from position zero,
/// with an empty definition table and no known type names.
pub open spec fn lex_all(
    s: Seq<char>,
    p: int,
    defs: Map<Seq<char>, Seq<SpannedV>>,
    types: Seq<Seq<char>>,
) -> Seq<SpannedV>
    decreases s.len() - p
        when 0 <= p <= s.len()
{
    let st = step(s, p, defs, types);
    match st.out {
        OutV::End => Seq::empty(),
        OutV::Fail(_) => Seq::empty(),
        OutV::Tok(sv) => {
            proof {
                lemma_step_progress(s, p, defs, types);
            }
            let tail = match st.defined {
                None => lex_all(s, st.new_pos, defs, types),
                Some((name, rest)) => lex_all(
                    s,
                    st.new_pos,
                    defs.insert(name, lex_all(rest, 0, Map::empty(), Seq::empty())),
                    types,
                ),
            };
            seq![sv] + st.buffered + tail
        },
    }
}

/// Whether a run from `p` ends cleanly: every pull yields a token and the
/// stream ends with the input exhausted, nothing after the last token but
/// skipped whitespace.
pub open spec fn clean_end(
    s: Seq<char>,
    p: int,
    defs: Map<Seq<char>, Seq<SpannedV>>,
    types: Seq<Seq<char>>,
) -> bool
    decreases s.len() - p
        when 0 <= p <= s.len()
{
    let st = step(s, p, defs, types);
    match st.out {
        OutV::End => skip_to(s, p) == s.len(),
        OutV::Fail(_) => false,
        OutV::Tok(_) => {
            proof {
                lemma_step_progress(s, p, defs, types);
            }
            match st.defined {
                None => clean_end(s, st.new_pos, defs, types),
                Some((name, rest)) => clean_end(
                    s,
                    st.new_pos,
                    defs.insert(name, lex_all(rest, 0, Map::empty(), Seq::empty())),
                    types,
                ),
            }
        },
    }
}

/// The source text reassembled from a run's pulls: for each pull, the
/// whitespace it skipped followed by the extent it consumed, in order, and
/// at a clean end the trailing skipped whitespace. By `lemma_step_coverage`
/// a scanned token's span is exactly its consumed extent, so for pulls that
/// replay no macro this is the tokens' own texts with the skipped
/// whitespace reinserted; a replayed token contributes the identifier that
/// referenced it, since its span points into the macro's definition.
pub open spec fn rebuilt(
    s: Seq<char>,
    p: int,
    defs: Map<Seq<char>, Seq<SpannedV>>,
    types: Seq<Seq<char>>,
) -> Seq<char>
    decreases s.len() - p
        when 0 <= p <= s.len()
{
    let st = step(s, p, defs, types);
    match st.out {
        OutV::End => s.subrange(p, skip_to(s, p)),
        OutV::Fail(_) => Seq::empty(),
        OutV::Tok(_) => {
            proof {
                lemma_step_progress(s, p, defs, types);
            }
            let tail = match st.defined {
                None => rebuilt(s, st.new_pos, defs, types),
                Some((name, rest)) => rebuilt(
                    s,
                    st.new_pos,
                    defs.insert(name, lex_all(rest, 0, Map::empty(), Seq::empty())),
                    types,
                ),
            };
            s.subrange(p, st.new_pos) + tail
        },
    }
}

/// On a clean run the reassembled text is exactly the input: the pulls'
/// skipped gaps and consumed extents, concatenated in order, give the
/// source back character for character.
pub proof fn lemma_rebuilt_identity(
    s: Seq<char>,
    p: int,
    defs: Map<Seq<char>, Seq<SpannedV>>,
    types: Seq<Seq<char>>,
)
    requires
        0 <= p <= s.len(),
        clean_end(s, p, defs, types),
    ensures
        rebuilt(s, p, defs, types) == s.subrange(p, s.len() as int),
    decreases s.len() - p,
{
    lemma_step_progress(s, p, defs, types);
    let st = step(s, p, defs, types);
    match st.out {
        OutV::End => {},
        OutV::Fail(_) => {},
        OutV::Tok(_) => {
            let d2 = match st.defined {
                None => defs,
                Some((name, rest)) => defs.insert(
                    name,
                    lex_all(rest, 0, Map::empty(), Seq::empty()),
                ),
            };
            lemma_rebuilt_identity(s, st.new_pos, d2, types);
            assert(s.subrange(p, st.new_pos) + s.subrange(st.new_pos, s.len() as int) =~= s.subrange(
                p,
                s.len() as int,
            ));
        },
    }
}

/// Idempotence of re-lexing: a source whose lexing runs cleanly to the end
/// reassembles, from its pulls, into exactly the same text, so lexing the
/// reassembled text reproduces the identical token stream.
pub proof fn lemma_relex_rebuilt(
    s: Seq<char>,
    defs: Map<Seq<char>, Seq<SpannedV>>,
    types: Seq<Seq<char>>,
)
    requires
        clean_end(s, 0, defs, types),
    ensures
        rebuilt(s, 0, defs, types) == s,
        lex_all(rebuilt(s, 0, defs, types), 0, defs, types) == lex_all(s, 0, defs, types),
{
    lemma_rebuilt_identity(s, 0, defs, types);
    assert(s.subrange(0, s.len() as int) =~= s);
}

} // verus!
