//! Pure character classifiers and the maximal-run scanning functions the
//! token model is built from.

use vstd::prelude::*;
use vstd::string::*;

verus! {

// ---------------------------------------------------------------------------
// Single-character classifiers.
// ---------------------------------------------------------------------------
pub open spec fn ident_start(c: char) -> bool {
    c == '_' || ('a' <= c && c <= 'z') || ('A' <= c && c <= 'Z')
}

/// Identifier-start character: `_` or an ASCII letter.
pub fn is_ident_start(ch: &char) -> (r: bool)
    ensures
        r == ident_start(*ch),
{
    *ch == '_' || ('a' <= *ch && *ch <= 'z') || ('A' <= *ch && *ch <= 'Z')
}

pub open spec fn ident_continue(c: char) -> bool {
    digit(c) || ident_start(c)
}

/// Identifier-continue character: identifier-start or a decimal digit.
pub fn is_ident_continue(ch: &char) -> (r: bool)
    ensures
        r == ident_continue(*ch),
{
    is_digit(ch) || is_ident_start(ch)
}

pub open spec fn digit(c: char) -> bool {
    '0' <= c && c <= '9'
}

/// Decimal digit.
pub fn is_digit(ch: &char) -> (r: bool)
    ensures
        r == digit(*ch),
{
    '0' <= *ch && *ch <= '9'
}

pub open spec fn hex_digit(c: char) -> bool {
    digit(c) || ('a' <= c && c <= 'f') || ('A' <= c && c <= 'F')
}

/// Hexadecimal digit.
pub fn is_hex(ch: &char) -> (r: bool)
    ensures
        r == hex_digit(*ch),
{
    is_digit(ch) || ('a' <= *ch && *ch <= 'f') || ('A' <= *ch && *ch <= 'F')
}

pub open spec fn operator_char(c: char) -> bool {
    c == '-' || c == '+' || c == '&' || c == '.' || c == '>' || c == '/' || c == '^' || c == '|'
        || c == '<' || c == '*' || c == '!' || c == '%' || c == '=' || c == '`' || c == '?'
}

/// Character that may begin or continue an operator spelling.
pub fn is_operator_char(ch: &char) -> (r: bool)
    ensures
        r == operator_char(*ch),
{
    *ch == '-' || *ch == '+' || *ch == '&' || *ch == '.' || *ch == '>' || *ch == '/' || *ch == '^'
        || *ch == '|' || *ch == '<' || *ch == '*' || *ch == '!' || *ch == '%' || *ch == '='
        || *ch == '`' || *ch == '?'
}

pub open spec fn lexical_whitespace(c: char) -> bool {
    c == '\r' || c == '\n'
}

/// Lexical whitespace: line-break characters only. Ordinary spaces and tabs
/// are skipped by the driver and never tokenized.
pub fn is_lexical_whitespace(ch: &char) -> (r: bool)
    ensures
        r == lexical_whitespace(*ch),
{
    *ch == '\r' || *ch == '\n'
}

pub open spec fn kw_char(c: char) -> bool {
    c == 'c' || c == 'h' || c == 'n' || c == 'f' || c == 'u' || c == 'a' || c == 'e' || c == 'w'
        || c == 'i' || c == 'r' || c == 't' || c == 's' || c == 'y' || c == 'l' || c == 'p'
        || c == 'o'
}

/// Character that occurs in some reserved word.
pub fn is_kw_char(ch: &char) -> (r: bool)
    ensures
        r == kw_char(*ch),
{
    *ch == 'c' || *ch == 'h' || *ch == 'n' || *ch == 'f' || *ch == 'u' || *ch == 'a' || *ch == 'e'
        || *ch == 'w' || *ch == 'i' || *ch == 'r' || *ch == 't' || *ch == 's' || *ch == 'y'
        || *ch == 'l' || *ch == 'p' || *ch == 'o'
}

pub open spec fn punctuation(c: char) -> bool {
    c == ',' || c == ';' || c == ':' || c == '{' || c == '}' || c == '(' || c == ')' || c == '['
        || c == ']'
}

/// Punctuation character: separators and the three bracket pairs.
pub fn is_punctuation(ch: &char) -> (r: bool)
    ensures
        r == punctuation(*ch),
{
    *ch == ',' || *ch == ';' || *ch == ':' || *ch == '{' || *ch == '}' || *ch == '(' || *ch == ')'
        || *ch == '[' || *ch == ']'
}

/// Ordinary whitespace the driver skips without producing a token: every
/// Unicode whitespace character except the two line breaks, which are
/// lexical and tokenized.
pub open spec fn skippable(c: char) -> bool {
    c == ' ' || c == '\t' || c == '\u{b}' || c == '\u{c}' || c == '\u{85}' || c == '\u{a0}'
        || c == '\u{1680}' || ('\u{2000}' <= c && c <= '\u{200a}') || c == '\u{2028}'
        || c == '\u{2029}' || c == '\u{202f}' || c == '\u{205f}' || c == '\u{3000}'
}

pub fn is_skippable(ch: &char) -> (r: bool)
    ensures
        r == skippable(*ch),
{
    *ch == ' ' || *ch == '\t' || *ch == '\u{b}' || *ch == '\u{c}' || *ch == '\u{85}'
        || *ch == '\u{a0}' || *ch == '\u{1680}' || ('\u{2000}' <= *ch && *ch <= '\u{200a}')
        || *ch == '\u{2028}' || *ch == '\u{2029}' || *ch == '\u{202f}' || *ch == '\u{205f}'
        || *ch == '\u{3000}'
}

/// Whitespace inside a directive line: any Unicode whitespace character.
/// It trims the line, and its first occurrence in the trimmed line
/// separates the macro name from the replacement text. (A line feed never
/// occurs in the line, which ends at the first one.)
pub open spec fn blank(c: char) -> bool {
    c == '\n' || c == '\r' || skippable(c)
}

pub fn is_blank(ch: &char) -> (r: bool)
    ensures
        r == blank(*ch),
{
    *ch == '\n' || *ch == '\r' || is_skippable(ch)
}

pub open spec fn ascii_lower(c: char) -> bool {
    'a' <= c && c <= 'z'
}

pub fn is_ascii_lower(ch: &char) -> (r: bool)
    ensures
        r == ascii_lower(*ch),
{
    'a' <= *ch && *ch <= 'z'
}

/// Character allowed to continue a numeric literal's maximal run.
pub open spec fn number_char(c: char) -> bool {
    digit(c) || c == 'e' || c == 'E' || c == '+' || c == '-' || c == '.'
}

pub fn is_number_char(ch: &char) -> (r: bool)
    ensures
        r == number_char(*ch),
{
    is_digit(ch) || *ch == 'e' || *ch == 'E' || *ch == '+' || *ch == '-' || *ch == '.'
}

pub open spec fn sign_char(c: char) -> bool {
    c == '+' || c == '-'
}

pub fn is_sign_char(ch: &char) -> (r: bool)
    ensures
        r == sign_char(*ch),
{
    *ch == '+' || *ch == '-'
}

// ---------------------------------------------------------------------------
// Maximal runs: the end position of the longest run of a character class
// starting at a given position. One function per class keeps every use a
// first-order term.
// ---------------------------------------------------------------------------
pub open spec fn digits_to(s: Seq<char>, from: int) -> int
    decreases s.len() - from
        when 0 <= from <= s.len()
{
    if from < s.len() && digit(s[from]) {
        digits_to(s, from + 1)
    } else {
        from
    }
}

pub open spec fn ops_to(s: Seq<char>, from: int) -> int
    decreases s.len() - from
        when 0 <= from <= s.len()
{
    if from < s.len() && operator_char(s[from]) {
        ops_to(s, from + 1)
    } else {
        from
    }
}

pub proof fn lemma_ops_to(s: Seq<char>, from: int)
    requires
        0 <= from <= s.len(),
    ensures
        from <= ops_to(s, from) <= s.len(),
        forall|i: int| from <= i < ops_to(s, from) ==> operator_char(s[i]),
        ops_to(s, from) < s.len() ==> !operator_char(s[ops_to(s, from)]),
    decreases s.len() - from,
{
    if from < s.len() && operator_char(s[from]) {
        lemma_ops_to(s, from + 1);
    }
}

pub open spec fn ident_to(s: Seq<char>, from: int) -> int
    decreases s.len() - from
        when 0 <= from <= s.len()
{
    if from < s.len() && ident_continue(s[from]) {
        ident_to(s, from + 1)
    } else {
        from
    }
}

pub proof fn lemma_ident_to(s: Seq<char>, from: int)
    requires
        0 <= from <= s.len(),
    ensures
        from <= ident_to(s, from) <= s.len(),
        forall|i: int| from <= i < ident_to(s, from) ==> ident_continue(s[i]),
        ident_to(s, from) < s.len() ==> !ident_continue(s[ident_to(s, from)]),
    decreases s.len() - from,
{
    if from < s.len() && ident_continue(s[from]) {
        lemma_ident_to(s, from + 1);
    }
}

pub open spec fn number_to(s: Seq<char>, from: int) -> int
    decreases s.len() - from
        when 0 <= from <= s.len()
{
    if from < s.len() && number_char(s[from]) {
        number_to(s, from + 1)
    } else {
        from
    }
}

pub proof fn lemma_number_to(s: Seq<char>, from: int)
    requires
        0 <= from <= s.len(),
    ensures
        from <= number_to(s, from) <= s.len(),
        forall|i: int| from <= i < number_to(s, from) ==> number_char(s[i]),
        number_to(s, from) < s.len() ==> !number_char(s[number_to(s, from)]),
    decreases s.len() - from,
{
    if from < s.len() && number_char(s[from]) {
        lemma_number_to(s, from + 1);
    }
}

pub open spec fn lexws_to(s: Seq<char>, from: int) -> int
    decreases s.len() - from
        when 0 <= from <= s.len()
{
    if from < s.len() && lexical_whitespace(s[from]) {
        lexws_to(s, from + 1)
    } else {
        from
    }
}

pub proof fn lemma_lexws_to(s: Seq<char>, from: int)
    requires
        0 <= from <= s.len(),
    ensures
        from <= lexws_to(s, from) <= s.len(),
        forall|i: int| from <= i < lexws_to(s, from) ==> lexical_whitespace(s[i]),
        lexws_to(s, from) < s.len() ==> !lexical_whitespace(s[lexws_to(s, from)]),
    decreases s.len() - from,
{
    if from < s.len() && lexical_whitespace(s[from]) {
        lemma_lexws_to(s, from + 1);
    }
}

/// End of the run of characters other than a line feed: the position of the
/// first `'\n'` at or after `from`, or the end of the input.
pub open spec fn line_to(s: Seq<char>, from: int) -> int
    decreases s.len() - from
        when 0 <= from <= s.len()
{
    if from < s.len() && s[from] != '\n' {
        line_to(s, from + 1)
    } else {
        from
    }
}

pub proof fn lemma_line_to(s: Seq<char>, from: int)
    requires
        0 <= from <= s.len(),
    ensures
        from <= line_to(s, from) <= s.len(),
        forall|i: int| from <= i < line_to(s, from) ==> s[i] != '\n',
        line_to(s, from) < s.len() ==> s[line_to(s, from)] == '\n',
    decreases s.len() - from,
{
    if from < s.len() && s[from] != '\n' {
        lemma_line_to(s, from + 1);
    }
}

pub open spec fn lower_to(s: Seq<char>, from: int) -> int
    decreases s.len() - from
        when 0 <= from <= s.len()
{
    if from < s.len() && ascii_lower(s[from]) {
        lower_to(s, from + 1)
    } else {
        from
    }
}

pub proof fn lemma_lower_to(s: Seq<char>, from: int)
    requires
        0 <= from <= s.len(),
    ensures
        from <= lower_to(s, from) <= s.len(),
        forall|i: int| from <= i < lower_to(s, from) ==> ascii_lower(s[i]),
        lower_to(s, from) < s.len() ==> !ascii_lower(s[lower_to(s, from)]),
    decreases s.len() - from,
{
    if from < s.len() && ascii_lower(s[from]) {
        lemma_lower_to(s, from + 1);
    }
}

pub open spec fn skip_to(s: Seq<char>, from: int) -> int
    decreases s.len() - from
        when 0 <= from <= s.len()
{
    if from < s.len() && skippable(s[from]) {
        skip_to(s, from + 1)
    } else {
        from
    }
}

pub proof fn lemma_skip_to(s: Seq<char>, from: int)
    requires
        0 <= from <= s.len(),
    ensures
        from <= skip_to(s, from) <= s.len(),
        forall|i: int| from <= i < skip_to(s, from) ==> skippable(s[i]),
        skip_to(s, from) < s.len() ==> !skippable(s[skip_to(s, from)]),
    decreases s.len() - from,
{
    if from < s.len() && skippable(s[from]) {
        lemma_skip_to(s, from + 1);
    }
}

pub open spec fn blanks_to(s: Seq<char>, from: int) -> int
    decreases s.len() - from
        when 0 <= from <= s.len()
{
    if from < s.len() && blank(s[from]) {
        blanks_to(s, from + 1)
    } else {
        from
    }
}

pub proof fn lemma_blanks_to(s: Seq<char>, from: int)
    requires
        0 <= from <= s.len(),
    ensures
        from <= blanks_to(s, from) <= s.len(),
        forall|i: int| from <= i < blanks_to(s, from) ==> blank(s[i]),
        blanks_to(s, from) < s.len() ==> !blank(s[blanks_to(s, from)]),
    decreases s.len() - from,
{
    if from < s.len() && blank(s[from]) {
        lemma_blanks_to(s, from + 1);
    }
}

pub open spec fn nonblank_to(s: Seq<char>, from: int) -> int
    decreases s.len() - from
        when 0 <= from <= s.len()
{
    if from < s.len() && !blank(s[from]) {
        nonblank_to(s, from + 1)
    } else {
        from
    }
}

pub proof fn lemma_nonblank_to(s: Seq<char>, from: int)
    requires
        0 <= from <= s.len(),
    ensures
        from <= nonblank_to(s, from) <= s.len(),
        forall|i: int| from <= i < nonblank_to(s, from) ==> !blank(s[i]),
        nonblank_to(s, from) < s.len() ==> blank(s[nonblank_to(s, from)]),
    decreases s.len() - from,
{
    if from < s.len() && !blank(s[from]) {
        lemma_nonblank_to(s, from + 1);
    }
}

/// Start of the run of trailing blanks that ends at `upto`.
pub open spec fn blanks_back(s: Seq<char>, upto: int) -> int
    decreases upto
        when 0 <= upto <= s.len()
{
    if upto > 0 && blank(s[upto - 1]) {
        blanks_back(s, upto - 1)
    } else {
        upto
    }
}

pub proof fn lemma_blanks_back(s: Seq<char>, upto: int)
    requires
        0 <= upto <= s.len(),
    ensures
        0 <= blanks_back(s, upto) <= upto,
        forall|i: int| blanks_back(s, upto) <= i < upto ==> blank(s[i]),
        blanks_back(s, upto) > 0 ==> !blank(s[blanks_back(s, upto) - 1]),
    decreases upto,
{
    if upto > 0 && blank(s[upto - 1]) {
        lemma_blanks_back(s, upto - 1);
    }
}

/// A directive line trimmed of leading and trailing blanks.
pub open spec fn trim_blanks(s: Seq<char>) -> Seq<char> {
    let a = blanks_to(s, 0);
    let b = blanks_back(s, s.len() as int);
    if a <= b {
        s.subrange(a, b)
    } else {
        Seq::empty()
    }
}

// ---------------------------------------------------------------------------
// Whole-string classifiers.
// ---------------------------------------------------------------------------
pub open spec fn keyword_text(s: Seq<char>) -> bool {
    s == "if"@ || s == "else"@ || s == "while"@ || s == "for"@ || s == "return"@ || s == "type"@
        || s == "static"@ || s == "oneof"@ || s == "when"@ || s == "in"@ || s == "nil"@
        || s == "false"@ || s == "true"@
}

pub open spec fn builtin_type_text(s: Seq<char>) -> bool {
    s == "number"@ || s == "string"@ || s == "bool"@ || s == "nil"@
}

/// The floating-point literal shape: an optional sign, one or more digits, a
/// decimal point, one or more digits, and an optional exponent suffix.
pub open spec fn float_shape(s: Seq<char>) -> bool {
    let b: int = if s.len() > 0 && sign_char(s[0]) {
        1
    } else {
        0
    };
    let d1 = digits_to(s, b);
    &&& b < d1
    &&& d1 < s.len()
    &&& s[d1] == '.'
    &&& {
        let d2 = digits_to(s, d1 + 1);
        &&& d1 + 1 < d2
        &&& (d2 == s.len() || {
            let e0: int = if d2 + 1 < s.len() && sign_char(s[d2 + 1]) {
                d2 + 2
            } else {
                d2 + 1
            };
            let d3 = digits_to(s, e0);
            &&& (s[d2] == 'e' || s[d2] == 'E')
            &&& e0 < d3
            &&& d3 == s.len()
        })
    }
}

// ---------------------------------------------------------------------------
// Executable helpers over character vectors and strings.
// ---------------------------------------------------------------------------
/// The characters of a string slice as a vector, for positional scanning.
pub fn chars_vec(s: &str) -> (r: Vec<char>)
    ensures
        r@ == s@,
{
    let n = s.unicode_len();
    let mut r: Vec<char> = Vec::new();
    let mut i: usize = 0;
    while i < n
        invariant
            n == s@.len(),
            i <= n,
            r@ == s@.subrange(0, i as int),
        decreases n - i,
    {
        r.push(s.get_char(i));
        assert(r@ =~= s@.subrange(0, i + 1 as int));
        i += 1;
    }
    assert(r@ =~= s@);
    r
}

/// Character-for-character equality of two string slices.
pub fn str_eq(a: &str, b: &str) -> (r: bool)
    ensures
        r == (a@ == b@),
{
    let na = a.unicode_len();
    let nb = b.unicode_len();
    if na != nb {
        return false;
    }
    let mut i: usize = 0;
    while i < na
        invariant
            na == a@.len(),
            na == b@.len(),
            i <= na,
            forall|j: int| 0 <= j < i ==> a@[j] == b@[j],
        decreases na - i,
    {
        if a.get_char(i) != b.get_char(i) {
            return false;
        }
        i += 1;
    }
    proof {
        assert(a@ =~= b@);
    }
    true
}

/// Equality of a character vector and a string slice.
pub fn text_eq(v: &Vec<char>, s: &str) -> (r: bool)
    ensures
        r == (v@ == s@),
{
    let n = s.unicode_len();
    if v.len() != n {
        return false;
    }
    let mut i: usize = 0;
    while i < n
        invariant
            n == s@.len(),
            n == v@.len(),
            i <= n,
            forall|j: int| 0 <= j < i ==> v@[j] == s@[j],
        decreases n - i,
    {
        if v[i] != s.get_char(i) {
            return false;
        }
        i += 1;
    }
    proof {
        assert(v@ =~= s@);
    }
    true
}

/// Reserved-word test by exact match.
pub fn is_keyword(s: &String) -> (r: bool)
    ensures
        r == keyword_text(s@),
{
    str_eq(s.as_str(), "if") || str_eq(s.as_str(), "else") || str_eq(s.as_str(), "while")
        || str_eq(s.as_str(), "for") || str_eq(s.as_str(), "return") || str_eq(s.as_str(), "type")
        || str_eq(s.as_str(), "static") || str_eq(s.as_str(), "oneof") || str_eq(
        s.as_str(),
        "when",
    ) || str_eq(s.as_str(), "in") || str_eq(s.as_str(), "nil") || str_eq(s.as_str(), "false")
        || str_eq(s.as_str(), "true")
}

/// Built-in type-name test by exact match.
pub fn is_builtin_type(s: &String) -> (r: bool)
    ensures
        r == builtin_type_text(s@),
{
    str_eq(s.as_str(), "number") || str_eq(s.as_str(), "string") || str_eq(s.as_str(), "bool")
        || str_eq(s.as_str(), "nil")
}

/// End of the maximal digit run of `v` starting at `from`.
pub fn digits_end(v: &Vec<char>, from: usize) -> (r: usize)
    requires
        from <= v@.len(),
    ensures
        r == digits_to(v@, from as int),
        from <= r <= v@.len(),
{
    let mut j = from;
    while j < v.len() && is_digit(&v[j])
        invariant
            from <= j <= v@.len(),
            digits_to(v@, from as int) == digits_to(v@, j as int),
        decreases v@.len() - j,
    {
        j += 1;
    }
    j
}

/// Relies on `String::push`: appends one character at the end of the string.
#[verifier::external_body]
pub fn push_char(s: &mut String, c: char)
    ensures
        final(s)@ == old(s)@.push(c),
{
    s.push(c);
}

/// The characters `[a, b)` of `v` as a string.
pub fn string_range(v: &Vec<char>, a: usize, b: usize) -> (r: String)
    requires
        a <= b <= v@.len(),
    ensures
        r@ == v@.subrange(a as int, b as int),
{
    let mut r = String::new();
    let mut i = a;
    while i < b
        invariant
            a <= i <= b <= v@.len(),
            r@ == v@.subrange(a as int, i as int),
        decreases b - i,
    {
        push_char(&mut r, v[i]);
        assert(r@ =~= v@.subrange(a as int, i as int + 1));
        i += 1;
    }
    r
}

/// The characters `[a, b)` of `v` as a vector.
pub fn vec_range(v: &Vec<char>, a: usize, b: usize) -> (r: Vec<char>)
    requires
        a <= b <= v@.len(),
    ensures
        r@ == v@.subrange(a as int, b as int),
{
    let mut r: Vec<char> = Vec::new();
    let mut i = a;
    while i < b
        invariant
            a <= i <= b <= v@.len(),
            r@ == v@.subrange(a as int, i as int),
        decreases b - i,
    {
        r.push(v[i]);
        assert(r@ =~= v@.subrange(a as int, i as int + 1));
        i += 1;
    }
    r
}

/// End of the maximal operator-character run of `v` starting at `from`.
pub fn ops_end(v: &Vec<char>, from: usize) -> (r: usize)
    requires
        from <= v@.len(),
    ensures
        r == ops_to(v@, from as int),
        from <= r <= v@.len(),
{
    let mut j = from;
    while j < v.len() && is_operator_char(&v[j])
        invariant
            from <= j <= v@.len(),
            ops_to(v@, from as int) == ops_to(v@, j as int),
        decreases v@.len() - j,
    {
        j += 1;
    }
    j
}

/// End of the maximal identifier run of `v` starting at `from`.
pub fn ident_end(v: &Vec<char>, from: usize) -> (r: usize)
    requires
        from <= v@.len(),
    ensures
        r == ident_to(v@, from as int),
        from <= r <= v@.len(),
{
    let mut j = from;
    while j < v.len() && is_ident_continue(&v[j])
        invariant
            from <= j <= v@.len(),
            ident_to(v@, from as int) == ident_to(v@, j as int),
        decreases v@.len() - j,
    {
        j += 1;
    }
    j
}

/// End of the maximal numeric-character run of `v` starting at `from`.
pub fn number_end(v: &Vec<char>, from: usize) -> (r: usize)
    requires
        from <= v@.len(),
    ensures
        r == number_to(v@, from as int),
        from <= r <= v@.len(),
{
    let mut j = from;
    while j < v.len() && is_number_char(&v[j])
        invariant
            from <= j <= v@.len(),
            number_to(v@, from as int) == number_to(v@, j as int),
        decreases v@.len() - j,
    {
        j += 1;
    }
    j
}

/// End of the maximal line-break run of `v` starting at `from`.
pub fn lexws_end(v: &Vec<char>, from: usize) -> (r: usize)
    requires
        from <= v@.len(),
    ensures
        r == lexws_to(v@, from as int),
        from <= r <= v@.len(),
{
    let mut j = from;
    while j < v.len() && is_lexical_whitespace(&v[j])
        invariant
            from <= j <= v@.len(),
            lexws_to(v@, from as int) == lexws_to(v@, j as int),
        decreases v@.len() - j,
    {
        j += 1;
    }
    j
}

/// Position of the first line feed of `v` at or after `from`, or the end.
pub fn line_end(v: &Vec<char>, from: usize) -> (r: usize)
    requires
        from <= v@.len(),
    ensures
        r == line_to(v@, from as int),
        from <= r <= v@.len(),
{
    let mut j = from;
    while j < v.len() && v[j] != '\n'
        invariant
            from <= j <= v@.len(),
            line_to(v@, from as int) == line_to(v@, j as int),
        decreases v@.len() - j,
    {
        j += 1;
    }
    j
}

/// End of the maximal ASCII lower-case run of `v` starting at `from`.
pub fn lower_end(v: &Vec<char>, from: usize) -> (r: usize)
    requires
        from <= v@.len(),
    ensures
        r == lower_to(v@, from as int),
        from <= r <= v@.len(),
{
    let mut j = from;
    while j < v.len() && is_ascii_lower(&v[j])
        invariant
            from <= j <= v@.len(),
            lower_to(v@, from as int) == lower_to(v@, j as int),
        decreases v@.len() - j,
    {
        j += 1;
    }
    j
}

/// End of the maximal blank run of `v` starting at `from`.
pub fn blanks_end(v: &Vec<char>, from: usize) -> (r: usize)
    requires
        from <= v@.len(),
    ensures
        r == blanks_to(v@, from as int),
        from <= r <= v@.len(),
{
    let mut j = from;
    while j < v.len() && is_blank(&v[j])
        invariant
            from <= j <= v@.len(),
            blanks_to(v@, from as int) == blanks_to(v@, j as int),
        decreases v@.len() - j,
    {
        j += 1;
    }
    j
}

/// End of the maximal non-blank run of `v` starting at `from`.
pub fn nonblank_end(v: &Vec<char>, from: usize) -> (r: usize)
    requires
        from <= v@.len(),
    ensures
        r == nonblank_to(v@, from as int),
        from <= r <= v@.len(),
{
    let mut j = from;
    while j < v.len() && !is_blank(&v[j])
        invariant
            from <= j <= v@.len(),
            nonblank_to(v@, from as int) == nonblank_to(v@, j as int),
        decreases v@.len() - j,
    {
        j += 1;
    }
    j
}

/// Start of the run of trailing blanks of `v` that ends at `upto`.
pub fn blanks_back_end(v: &Vec<char>, upto: usize) -> (r: usize)
    requires
        upto <= v@.len(),
    ensures
        r == blanks_back(v@, upto as int),
        r <= upto,
{
    let mut j = upto;
    while j > 0 && is_blank(&v[j - 1])
        invariant
            j <= upto <= v@.len(),
            blanks_back(v@, upto as int) == blanks_back(v@, j as int),
        decreases j,
    {
        j -= 1;
    }
    j
}

/// Floating-point shape test on the candidate string.
pub fn is_float(s: &String) -> (r: bool)
    ensures
        r == float_shape(s@),
{
    let v = chars_vec(s.as_str());
    let b: usize = if v.len() > 0 && is_sign_char(&v[0]) {
        1
    } else {
        0
    };
    let d1 = digits_end(&v, b);
    if !(b < d1 && d1 < v.len()) {
        return false;
    }
    if v[d1] != '.' {
        return false;
    }
    let d2 = digits_end(&v, d1 + 1);
    if !(d1 + 1 < d2) {
        return false;
    }
    if d2 == v.len() {
        return true;
    }
    if !(v[d2] == 'e' || v[d2] == 'E') {
        return false;
    }
    let e0: usize = if d2 + 1 < v.len() && is_sign_char(&v[d2 + 1]) {
        d2 + 2
    } else {
        d2 + 1
    };
    let d3 = digits_end(&v, e0);
    e0 < d3 && d3 == v.len()
}

} // verus!
