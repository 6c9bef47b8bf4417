//! The scanner: owns the input text and cursor, the macro-definition table
//! and the replay buffer, and yields one located token (or lexical error)
//! per pull. Every pull is proved to follow the step model in `model`.

use vstd::prelude::*;
use vstd::string::*;

use crate::chars::{
    blanks_back, blanks_back_end, blanks_end, blanks_to, chars_vec, ident_end, is_builtin_type,
    is_digit, is_float, is_ident_start, is_lexical_whitespace, is_operator_char, is_punctuation,
    is_sign_char, is_skippable, lemma_skip_to, lexws_end, line_end, lower_end, nonblank_end,
    number_end, ops_end, skip_to, string_range, trim_blanks, vec_range,
};
use crate::err::LexicalError;
use crate::model::{lex_all, step, OutV};
use crate::pos::{locate, spanned_seq, Location, Spanned, SpannedV};
use crate::tok::{Keyword, Operator, Token, TokenV, Whitespace};

verus! {

// ---------------------------------------------------------------------------
// The definition table, represented as an append-only entry list whose value
// is the map built left to right, later entries winning.
// ---------------------------------------------------------------------------
pub open spec fn entries_map(es: Seq<(String, Vec<Spanned>)>) -> Map<Seq<char>, Seq<SpannedV>>
    decreases es.len(),
{
    if es.len() == 0 {
        Map::empty()
    } else {
        entries_map(es.drop_last()).insert(es.last().0@, spanned_seq(es.last().1@))
    }
}

pub open spec fn types_seq(ts: Seq<String>) -> Seq<Seq<char>> {
    ts.map_values(|t: String| t@)
}

/// The first element of a non-empty token list, and the rest of it.
pub fn first_rest(v: &Vec<Spanned>) -> (r: Option<(Spanned, Vec<Spanned>)>)
    ensures
        match r {
            None => v@.len() == 0,
            Some((first, rest)) => v@.len() > 0 && first == v@[0] && rest@ == v@.drop_first(),
        },
{
    if v.len() == 0 {
        return None;
    }
    let first = v[0].clone();
    let mut rest: Vec<Spanned> = Vec::new();
    let mut i: usize = 1;
    while i < v.len()
        invariant
            1 <= i <= v@.len(),
            rest@.len() == i - 1,
            forall|j: int| 0 <= j < i - 1 ==> rest@[j] == v@[j + 1],
        decreases v@.len() - i,
    {
        rest.push(v[i].clone());
        i += 1;
    }
    proof {
        assert(rest@ =~= v@.drop_first());
    }
    Some((first, rest))
}

fn clone_spanned_vec(v: &Vec<Spanned>) -> (r: Vec<Spanned>)
    ensures
        r@ == v@,
{
    let mut r: Vec<Spanned> = Vec::new();
    let mut i: usize = 0;
    while i < v.len()
        invariant
            i <= v@.len(),
            r@.len() == i,
            forall|j: int| 0 <= j < i ==> r@[j] == v@[j],
        decreases v@.len() - i,
    {
        r.push(v[i].clone());
        i += 1;
    }
    proof {
        assert(r@ =~= v@);
    }
    r
}

// ---------------------------------------------------------------------------
// The scanner.
// ---------------------------------------------------------------------------
pub struct Lexer {
    text: Vec<char>,
    location: Location,
    types: Vec<String>,
    definitions: Vec<(String, Vec<Spanned>)>,
    token_buffer: Vec<Spanned>,
}

impl Lexer {
    /// The input as a character sequence.
    pub closed spec fn text_v(&self) -> Seq<char> {
        self.text@
    }

    /// The cursor: how many characters have been consumed.
    pub closed spec fn pos(&self) -> int {
        self.location.absolute as int
    }

    /// The current location, line and column included.
    pub closed spec fn loc(&self) -> Location {
        self.location
    }

    /// The macro-definition table as a map.
    pub closed spec fn defs_v(&self) -> Map<Seq<char>, Seq<SpannedV>> {
        entries_map(self.definitions@)
    }

    /// The replay buffer, front first.
    pub closed spec fn buffer_v(&self) -> Seq<SpannedV> {
        spanned_seq(self.token_buffer@)
    }

    /// The scanner-local list of known type names.
    pub closed spec fn types_v(&self) -> Seq<Seq<char>> {
        types_seq(self.types@)
    }

    /// Well-formed scanner state: the location is exactly the fold of the
    /// consumed prefix, so its absolute offset never passes the end.
    pub closed spec fn wf(&self) -> bool {
        &&& self.location == locate(self.text@, self.location.absolute as int)
        &&& self.location.absolute <= self.text@.len()
    }

    /// A fresh scanner over the given input: cursor at the origin, no
    /// definitions, nothing buffered, no known type names.
    pub fn new(input: &str) -> (r: Lexer)
        ensures
            r.wf(),
            r.text_v() == input@,
            r.pos() == 0,
            r.loc() == (Location { line: 0, column: 0, absolute: 0 }),
            r.defs_v() == (Map::<Seq<char>, Seq<SpannedV>>::empty()),
            r.buffer_v() == (Seq::<SpannedV>::empty()),
            r.types_v() == (Seq::<Seq<char>>::empty()),
    {
        let r = Lexer {
            text: chars_vec(input),
            location: Location { line: 0, column: 0, absolute: 0 },
            types: Vec::new(),
            definitions: Vec::new(),
            token_buffer: Vec::new(),
        };
        proof {
            assert(r.buffer_v() =~= Seq::<SpannedV>::empty());
            assert(r.types_v() =~= Seq::<Seq<char>>::empty());
        }
        r
    }

    /// Move the cursor forward to `to`, folding the location over every
    /// character passed.
    fn advance_to(&mut self, to: usize)
        requires
            old(self).wf(),
            old(self).location.absolute <= to <= old(self).text@.len(),
        ensures
            final(self).wf(),
            final(self).location == locate(final(self).text@, to as int),
            final(self).location.absolute == to,
            final(self).text == old(self).text,
            final(self).types == old(self).types,
            final(self).definitions == old(self).definitions,
            final(self).token_buffer == old(self).token_buffer,
    {
        let n = self.text.len();
        while self.location.absolute < to
            invariant
                self.wf(),
                self.location.absolute <= to <= self.text@.len(),
                n == self.text@.len(),
                self.text == old(self).text,
                self.types == old(self).types,
                self.definitions == old(self).definitions,
                self.token_buffer == old(self).token_buffer,
            decreases to - self.location.absolute,
        {
            proof {
                crate::pos::lemma_locate(self.text@, self.location.absolute as int);
            }
            let c = self.text[self.location.absolute];
            self.location = self.location.shift(c);
        }
        proof {
            crate::pos::lemma_locate(self.text@, to as int);
        }
    }

    /// Skip horizontal whitespace without producing a token.
    fn skip_ws(&mut self)
        requires
            old(self).wf(),
        ensures
            final(self).wf(),
            final(self).location.absolute as int == skip_to(old(self).text@, old(self).pos()),
            final(self).text == old(self).text,
            final(self).types == old(self).types,
            final(self).definitions == old(self).definitions,
            final(self).token_buffer == old(self).token_buffer,
    {
        let ghost p0 = self.location.absolute as int;
        let n = self.text.len();
        while self.location.absolute < n && is_skippable(&self.text[self.location.absolute])
            invariant
                self.wf(),
                n == self.text@.len(),
                p0 <= self.location.absolute as int <= n,
                skip_to(self.text@, p0) == skip_to(self.text@, self.location.absolute as int),
                self.text == old(self).text,
                self.types == old(self).types,
                self.definitions == old(self).definitions,
                self.token_buffer == old(self).token_buffer,
            decreases n - self.location.absolute,
        {
            proof {
                crate::pos::lemma_locate(self.text@, self.location.absolute as int);
            }
            let c = self.text[self.location.absolute];
            self.location = self.location.shift(c);
        }
    }

    /// Whether a name is on the scanner-local list of known type names.
    fn types_contains(&self, name: &String) -> (r: bool)
        ensures
            r == self.types_v().contains(name@),
    {
        let mut i: usize = 0;
        while i < self.types.len()
            invariant
                i <= self.types@.len(),
                forall|j: int| 0 <= j < i ==> types_seq(self.types@)[j] != name@,
            decreases self.types@.len() - i,
        {
            if crate::chars::str_eq(self.types[i].as_str(), name.as_str()) {
                proof {
                    assert(types_seq(self.types@)[i as int] == name@);
                }
                return true;
            }
            i += 1;
        }
        proof {
            if self.types_v().contains(name@) {
                let j = choose|j: int|
                    0 <= j < self.types_v().len() && self.types_v()[j] == name@;
                assert(false);
            }
        }
        false
    }

    /// The stored expansion of a macro name, if the table holds one.
    fn lookup_def(&self, name: &String) -> (r: Option<Vec<Spanned>>)
        ensures
            match r {
                Some(toks) => self.defs_v().contains_key(name@) && spanned_seq(toks@)
                    == self.defs_v()[name@],
                None => !self.defs_v().contains_key(name@),
            },
    {
        let ghost es = self.definitions@;
        let mut i: usize = self.definitions.len();
        proof {
            assert(es.subrange(0, es.len() as int) =~= es);
        }
        while i > 0
            invariant
                i <= es.len(),
                es == self.definitions@,
                entries_map(es).contains_key(name@) == entries_map(
                    es.subrange(0, i as int),
                ).contains_key(name@),
                entries_map(es.subrange(0, i as int)).contains_key(name@) ==> entries_map(
                    es,
                )[name@] == entries_map(es.subrange(0, i as int))[name@],
            decreases i,
        {
            proof {
                assert(es.subrange(0, i as int).drop_last() =~= es.subrange(0, i as int - 1));
                assert(es.subrange(0, i as int).last() == es[i as int - 1]);
            }
            if crate::chars::str_eq(self.definitions[i - 1].0.as_str(), name.as_str()) {
                let toks = clone_spanned_vec(&self.definitions[i - 1].1);
                return Some(toks);
            }
            i -= 1;
        }
        proof {
            assert(es.subrange(0, 0) =~= Seq::<(String, Vec<Spanned>)>::empty());
        }
        None
    }

    /// Record a macro definition: later definitions of the same name win.
    fn insert_def(&mut self, name: String, toks: Vec<Spanned>)
        ensures
            final(self).defs_v() == old(self).defs_v().insert(name@, spanned_seq(toks@)),
            final(self).text == old(self).text,
            final(self).location == old(self).location,
            final(self).types == old(self).types,
            final(self).token_buffer == old(self).token_buffer,
    {
        let ghost before = self.definitions@;
        let ghost n = name@;
        let ghost tv = spanned_seq(toks@);
        self.definitions.push((name, toks));
        proof {
            assert(self.definitions@.drop_last() =~= before);
            assert(self.definitions@.last().0@ == n);
            assert(spanned_seq(self.definitions@.last().1@) == tv);
        }
    }

    /// Maximal-munch operator scan: consume every following operator
    /// character, then hold the whole candidate against the whitelist, with
    /// no fallback to a shorter prefix.
    fn operator(&mut self) -> (r: Result<Spanned, LexicalError>)
        requires
            old(self).wf(),
            old(self).token_buffer@.len() == 0,
            old(self).pos() < old(self).text_v().len(),
            !crate::chars::skippable(old(self).text_v()[old(self).pos()]),
            crate::chars::operator_char(old(self).text_v()[old(self).pos()]),
            !crate::model::number_start(old(self).text_v(), old(self).pos()),
            !(old(self).text_v()[old(self).pos()] == '/' && old(self).pos() + 1 < old(
                self,
            ).text_v().len() && (old(self).text_v()[old(self).pos() + 1] == '/' || old(
                self,
            ).text_v()[old(self).pos() + 1] == '*')),
        ensures
            final(self).wf(),
            final(self).text == old(self).text,
            final(self).types == old(self).types,
            final(self).definitions == old(self).definitions,
            final(self).token_buffer == old(self).token_buffer,
            ({
                let st = step(
                    old(self).text_v(),
                    old(self).pos(),
                    old(self).defs_v(),
                    old(self).types_v(),
                );
                &&& final(self).pos() == st.new_pos
                &&& (match st.out {
                    OutV::Tok(sv) => (match r {
                        Ok(sp) => sp@ == sv,
                        Err(_) => false,
                    }),
                    OutV::Fail(e) => (match r {
                        Ok(_) => false,
                        Err(e2) => e2 == e,
                    }),
                    OutV::End => false,
                })
            }),
    {
        let sk = self.location.absolute;
        let start = self.location;
        let c = self.text[sk];
        let e = ops_end(&self.text, sk);
        let cand = string_range(&self.text, sk, e);
        self.advance_to(e);
        match Operator::from_text(&cand) {
            Some(op) => Ok(Spanned { start, tok: Token::Operator(op), end: self.location }),
            None => Err(LexicalError::ExpectedOperator(start, c)),
        }
    }

    /// Numeric scan: consume the maximal run of numeric characters, trim a
    /// dangling trailing sign back out of the consumed span, and classify
    /// the candidate as a float, a signed or an unsigned integer.
    fn number(&mut self) -> (r: Result<Spanned, LexicalError>)
        requires
            old(self).wf(),
            old(self).token_buffer@.len() == 0,
            old(self).pos() < old(self).text_v().len(),
            !crate::chars::skippable(old(self).text_v()[old(self).pos()]),
            crate::model::number_start(old(self).text_v(), old(self).pos()),
        ensures
            final(self).wf(),
            final(self).text == old(self).text,
            final(self).types == old(self).types,
            final(self).definitions == old(self).definitions,
            final(self).token_buffer == old(self).token_buffer,
            ({
                let st = step(
                    old(self).text_v(),
                    old(self).pos(),
                    old(self).defs_v(),
                    old(self).types_v(),
                );
                &&& final(self).pos() == st.new_pos
                &&& (match st.out {
                    OutV::Tok(sv) => (match r {
                        Ok(sp) => sp@ == sv,
                        Err(_) => false,
                    }),
                    OutV::Fail(e) => (match r {
                        Ok(_) => false,
                        Err(e2) => e2 == e,
                    }),
                    OutV::End => false,
                })
            }),
    {
        let ghost s = self.text@;
        let sk = self.location.absolute;
        let start = self.location;
        let c = self.text[sk];
        let e0 = number_end(&self.text, sk);
        proof {
            assert(crate::chars::number_char(s[sk as int]));
            crate::chars::lemma_number_to(s, sk as int + 1);
            assert(e0 >= sk + 1);
            if crate::chars::sign_char(s[sk as int]) {
                assert(sk as int + 1 < s.len() && crate::chars::digit(s[sk as int + 1]));
                assert(crate::chars::number_char(s[sk as int + 1]));
                crate::chars::lemma_number_to(s, sk as int + 2);
                assert(e0 >= sk + 2);
            }
        }
        let last = self.text[e0 - 1];
        let e = if is_sign_char(&last) {
            e0 - 1
        } else {
            e0
        };
        let cand = string_range(&self.text, sk, e);
        self.advance_to(e);
        if is_float(&cand) {
            Ok(Spanned { start, tok: Token::Float(cand), end: self.location })
        } else if is_sign_char(&c) {
            proof {
                assert(s.subrange(sk as int, e as int)[0] == s[sk as int]);
            }
            match crate::model::parse_signed(&self.text, sk, e) {
                Some(v) => Ok(Spanned { start, tok: Token::Signed(v), end: self.location }),
                None => Err(LexicalError::InvalidDigit(start)),
            }
        } else {
            proof {
                assert(s.subrange(sk as int, e as int)[0] == s[sk as int]);
            }
            match crate::model::parse_unsigned(&self.text, sk, e) {
                Some(v) => Ok(Spanned { start, tok: Token::Unsigned(v), end: self.location }),
                None => Err(LexicalError::InvalidDigit(start)),
            }
        }
    }

    /// Whitespace scan: consume the maximal run of line breaks and collapse
    /// it to a single newline marker.
    fn lexical_whitespace(&mut self) -> (r: Spanned)
        requires
            old(self).wf(),
            old(self).token_buffer@.len() == 0,
            old(self).pos() < old(self).text_v().len(),
            !crate::chars::skippable(old(self).text_v()[old(self).pos()]),
            crate::chars::lexical_whitespace(old(self).text_v()[old(self).pos()]),
        ensures
            final(self).wf(),
            final(self).text == old(self).text,
            final(self).types == old(self).types,
            final(self).definitions == old(self).definitions,
            final(self).token_buffer == old(self).token_buffer,
            ({
                let st = step(
                    old(self).text_v(),
                    old(self).pos(),
                    old(self).defs_v(),
                    old(self).types_v(),
                );
                &&& final(self).pos() == st.new_pos
                &&& (match st.out {
                    OutV::Tok(sv) => r@ == sv,
                    _ => false,
                })
            }),
    {
        let sk = self.location.absolute;
        let start = self.location;
        let e = lexws_end(&self.text, sk);
        self.advance_to(e);
        Spanned { start, tok: Token::Whitespace(Whitespace::Newline), end: self.location }
    }

    /// Single-character punctuation scan.
    fn punct(&mut self) -> (r: Spanned)
        requires
            old(self).wf(),
            old(self).token_buffer@.len() == 0,
            old(self).pos() < old(self).text_v().len(),
            !crate::chars::skippable(old(self).text_v()[old(self).pos()]),
            crate::chars::punctuation(old(self).text_v()[old(self).pos()]),
        ensures
            final(self).wf(),
            final(self).text == old(self).text,
            final(self).types == old(self).types,
            final(self).definitions == old(self).definitions,
            final(self).token_buffer == old(self).token_buffer,
            ({
                let st = step(
                    old(self).text_v(),
                    old(self).pos(),
                    old(self).defs_v(),
                    old(self).types_v(),
                );
                &&& final(self).pos() == st.new_pos
                &&& (match st.out {
                    OutV::Tok(sv) => r@ == sv,
                    _ => false,
                })
            }),
    {
        let sk = self.location.absolute;
        let start = self.location;
        let n = self.text.len();
        let c = self.text[sk];
        self.advance_to(sk + 1);
        let tok = if c == ',' {
            Token::Comma
        } else if c == ';' {
            Token::Semicolon
        } else if c == ':' {
            Token::Colon
        } else if c == '{' {
            Token::OpenCurly
        } else if c == '}' {
            Token::CloseCurly
        } else if c == '(' {
            Token::OpenParen
        } else if c == ')' {
            Token::CloseParen
        } else if c == '[' {
            Token::OpenSquare
        } else {
            Token::CloseSquare
        };
        Spanned { start, tok, end: self.location }
    }

    /// Single-line comment scan: everything up to the next line feed, which
    /// is consumed with the comment but kept out of its text. At end of
    /// input the comment is abandoned and the stream simply ends.
    fn comment_single_line(&mut self) -> (r: Option<Spanned>)
        requires
            old(self).wf(),
            old(self).token_buffer@.len() == 0,
            old(self).pos() + 1 < old(self).text_v().len(),
            !crate::chars::skippable(old(self).text_v()[old(self).pos()]),
            old(self).text_v()[old(self).pos()] == '/',
            old(self).text_v()[old(self).pos() + 1] == '/',
        ensures
            final(self).wf(),
            final(self).text == old(self).text,
            final(self).types == old(self).types,
            final(self).definitions == old(self).definitions,
            final(self).token_buffer == old(self).token_buffer,
            ({
                let st = step(
                    old(self).text_v(),
                    old(self).pos(),
                    old(self).defs_v(),
                    old(self).types_v(),
                );
                &&& final(self).pos() == st.new_pos
                &&& (match st.out {
                    OutV::Tok(sv) => (match r {
                        Some(sp) => sp@ == sv,
                        None => false,
                    }),
                    OutV::End => r is None,
                    OutV::Fail(_) => false,
                })
            }),
    {
        let sk = self.location.absolute;
        let start = self.location;
        let n = self.text.len();
        let e = line_end(&self.text, sk);
        if e == n {
            self.advance_to(n);
            None
        } else {
            let content = string_range(&self.text, sk, e);
            self.advance_to(e + 1);
            Some(Spanned { start, tok: Token::SingleLineComment(content), end: self.location })
        }
    }

    /// Multi-line comment scan: a two-state search for the two-character
    /// close sequence; reaching end of input first is a hard error.
    fn comment_multi_line(&mut self) -> (r: Result<Spanned, LexicalError>)
        requires
            old(self).wf(),
            old(self).token_buffer@.len() == 0,
            old(self).pos() + 1 < old(self).text_v().len(),
            !crate::chars::skippable(old(self).text_v()[old(self).pos()]),
            old(self).text_v()[old(self).pos()] == '/',
            old(self).text_v()[old(self).pos() + 1] == '*',
        ensures
            final(self).wf(),
            final(self).text == old(self).text,
            final(self).types == old(self).types,
            final(self).definitions == old(self).definitions,
            final(self).token_buffer == old(self).token_buffer,
            ({
                let st = step(
                    old(self).text_v(),
                    old(self).pos(),
                    old(self).defs_v(),
                    old(self).types_v(),
                );
                &&& final(self).pos() == st.new_pos
                &&& (match st.out {
                    OutV::Tok(sv) => (match r {
                        Ok(sp) => sp@ == sv,
                        Err(_) => false,
                    }),
                    OutV::Fail(e) => (match r {
                        Ok(_) => false,
                        Err(e2) => e2 == e,
                    }),
                    OutV::End => false,
                })
            }),
    {
        let ghost s = self.text@;
        let sk = self.location.absolute;
        let start = self.location;
        let n = self.text.len();
        let mut j = sk + 1;
        while j < n - 1 && !(self.text[j] == '*' && self.text[j + 1] == '/')
            invariant
                sk + 2 <= n,
                sk + 1 <= j <= n,
                n == s.len(),
                s == self.text@,
                crate::model::close_after(s, sk as int + 1) == crate::model::close_after(
                    s,
                    j as int,
                ),
            decreases n - j,
        {
            j += 1;
        }
        if j >= n - 1 {
            self.advance_to(n);
            Err(LexicalError::UnterminatedComment(start))
        } else {
            let content = string_range(&self.text, sk, j + 2);
            self.advance_to(j + 2);
            Ok(Spanned { start, tok: Token::MultiLineComment(content), end: self.location })
        }
    }

    /// Quoted-literal scan: accumulate characters until the buffer first
    /// satisfies the anchored quoted pattern that matches the opening quote,
    /// and strip the two outer quotes. Failure consumes the rest of the
    /// input.
    #[verifier::loop_isolation(false)]
    fn string_literal(&mut self) -> (r: Result<Spanned, LexicalError>)
        requires
            old(self).wf(),
            old(self).token_buffer@.len() == 0,
            old(self).pos() < old(self).text_v().len(),
            !crate::chars::skippable(old(self).text_v()[old(self).pos()]),
            old(self).text_v()[old(self).pos()] == '"' || old(self).text_v()[old(self).pos()]
                == '\'',
        ensures
            final(self).wf(),
            final(self).text == old(self).text,
            final(self).types == old(self).types,
            final(self).definitions == old(self).definitions,
            final(self).token_buffer == old(self).token_buffer,
            ({
                let st = step(
                    old(self).text_v(),
                    old(self).pos(),
                    old(self).defs_v(),
                    old(self).types_v(),
                );
                &&& final(self).pos() == st.new_pos
                &&& (match st.out {
                    OutV::Tok(sv) => (match r {
                        Ok(sp) => sp@ == sv,
                        Err(_) => false,
                    }),
                    OutV::Fail(e) => (match r {
                        Ok(_) => false,
                        Err(e2) => e2 == e,
                    }),
                    OutV::End => false,
                })
            }),
    {
        let ghost s = self.text@;
        let sk = self.location.absolute;
        let start = self.location;
        let q = self.text[sk];
        let n = self.text.len();
        let mut i = sk + 1;
        let mut esc = false;
        while i < n
            invariant
                sk + 1 <= i <= n,
                n == s.len(),
                s == self.text@,
                sk < s.len(),
                self.wf(),
                self.location.absolute == sk,
                q == s[sk as int],
                crate::model::quote_scan(s, sk as int + 1, q, false)
                    == crate::model::quote_scan(s, i as int, q, esc),
                self.text == old(self).text,
                self.types == old(self).types,
                self.definitions == old(self).definitions,
                self.token_buffer == old(self).token_buffer,
            decreases n - i,
        {
            let c = self.text[i];
            if esc {
                if c == '\n' {
                    self.advance_to(n);
                    return Err(LexicalError::InvalidString(start));
                }
                esc = false;
                i += 1;
            } else if c == q {
                let content = string_range(&self.text, sk + 1, i);
                self.advance_to(i + 1);
                return Ok(
                    Spanned { start, tok: Token::String(content), end: self.location },
                );
            } else if c == '\\' {
                esc = true;
                i += 1;
            } else if c == '"' && q == '\'' {
                self.advance_to(n);
                return Err(LexicalError::InvalidString(start));
            } else {
                i += 1;
            }
        }
        self.advance_to(n);
        Err(LexicalError::InvalidString(start))
    }

    /// Identifier scan: consume the maximal identifier run, then resolve it
    /// as a keyword, a built-in type name, a macro reference (whose stored
    /// expansion is replayed: the first stored token is this pull's result
    /// and the rest is queued), a known type name, or a plain identifier.
    #[verifier::loop_isolation(false)]
    fn identifier(&mut self) -> (r: Result<Spanned, LexicalError>)
        requires
            old(self).wf(),
            old(self).token_buffer@.len() == 0,
            old(self).pos() < old(self).text_v().len(),
            !crate::chars::skippable(old(self).text_v()[old(self).pos()]),
            crate::chars::ident_start(old(self).text_v()[old(self).pos()]),
        ensures
            final(self).wf(),
            final(self).text == old(self).text,
            final(self).types == old(self).types,
            final(self).definitions == old(self).definitions,
            ({
                let st = step(
                    old(self).text_v(),
                    old(self).pos(),
                    old(self).defs_v(),
                    old(self).types_v(),
                );
                &&& final(self).pos() == st.new_pos
                &&& final(self).buffer_v() == st.buffered
                &&& (match st.out {
                    OutV::Tok(sv) => (match r {
                        Ok(sp) => sp@ == sv,
                        Err(_) => false,
                    }),
                    OutV::Fail(e) => (match r {
                        Ok(_) => false,
                        Err(e2) => e2 == e,
                    }),
                    OutV::End => false,
                })
            }),
    {
        let ghost s = self.text@;
        let sk = self.location.absolute;
        let start = self.location;
        proof {
            assert(crate::chars::ident_continue(s[sk as int]));
            crate::chars::lemma_ident_to(s, sk as int + 1);
        }
        let e = ident_end(&self.text, sk);
        let name = string_range(&self.text, sk, e);
        self.advance_to(e);
        proof {
            assert(self.buffer_v() =~= Seq::<SpannedV>::empty());
        }
        match Keyword::from_text(&name) {
            Some(kw) => Ok(Spanned { start, tok: Token::Keyword(kw), end: self.location }),
            None => {
                if is_builtin_type(&name) {
                    Ok(Spanned { start, tok: Token::TypeIdent(name), end: self.location })
                } else {
                    match self.lookup_def(&name) {
                        Some(toks) => {
                            match first_rest(&toks) {
                                None => Err(LexicalError::ExpectedIdentOrKw(start)),
                                Some((first, rest)) => {
                                    let ghost mid = *self;
                                    let mut k: usize = 0;
                                    while k < rest.len()
                                        invariant
                                            k <= rest@.len(),
                                            self.token_buffer@.len() == k,
                                            forall|j: int|
                                                0 <= j < k ==> self.token_buffer@[j] == rest@[j],
                                            self.text == mid.text,
                                            self.types == mid.types,
                                            self.definitions == mid.definitions,
                                            self.location == mid.location,
                                        decreases rest@.len() - k,
                                    {
                                        self.token_buffer.push(rest[k].clone());
                                        k += 1;
                                    }
                                    proof {
                                        assert(self.token_buffer@ =~= rest@);
                                        assert(self.buffer_v() =~= spanned_seq(toks@).drop_first());
                                    }
                                    Ok(first)
                                },
                            }
                        },
                        None => {
                            if self.types_contains(&name) {
                                Ok(
                                    Spanned {
                                        start,
                                        tok: Token::TypeIdent(name),
                                        end: self.location,
                                    },
                                )
                            } else {
                                Ok(
                                    Spanned {
                                        start,
                                        tok: Token::Identifier(name),
                                        end: self.location,
                                    },
                                )
                            }
                        },
                    }
                }
            },
        }
    }

    /// Directive scan: read the rest of the physical line, split it into a
    /// macro name and replacement text, lex the replacement standalone, and
    /// record the definition. The directive itself yields a no-op marker
    /// spanning the consumed text.
    fn directive(&mut self) -> (r: Spanned)
        requires
            old(self).wf(),
            old(self).token_buffer@.len() == 0,
            old(self).pos() < old(self).text_v().len(),
            !crate::chars::skippable(old(self).text_v()[old(self).pos()]),
            old(self).text_v()[old(self).pos()] == '#',
        ensures
            final(self).wf(),
            final(self).text == old(self).text,
            final(self).types == old(self).types,
            final(self).token_buffer == old(self).token_buffer,
            ({
                let st = step(
                    old(self).text_v(),
                    old(self).pos(),
                    old(self).defs_v(),
                    old(self).types_v(),
                );
                &&& final(self).pos() == st.new_pos
                &&& (match st.defined {
                    Some((nm, rs)) => final(self).defs_v() == old(self).defs_v().insert(
                        nm,
                        lex_all(rs, 0, Map::empty(), Seq::empty()),
                    ),
                    None => false,
                })
                &&& (match st.out {
                    OutV::Tok(sv) => r@ == sv,
                    _ => false,
                })
            }),
        decreases self.text@.len() - self.location.absolute, 2int, 0int,
    {
        let ghost s = self.text@;
        let sk = self.location.absolute;
        let start = self.location;
        let n = self.text.len();
        let ne = lower_end(&self.text, sk + 1);
        let le = line_end(&self.text, ne);
        let ce = if le < n {
            le + 1
        } else {
            le
        };
        let line = vec_range(&self.text, ne, le);
        let a = blanks_end(&line, 0);
        let b = blanks_back_end(&line, line.len());
        let buf: Vec<char> = if a <= b {
            vec_range(&line, a, b)
        } else {
            Vec::new()
        };
        proof {
            crate::chars::lemma_blanks_to(line@, 0);
            crate::chars::lemma_blanks_back(line@, line@.len() as int);
            if a > b {
                assert(buf@ =~= trim_blanks(line@));
            }
            assert(buf@ == trim_blanks(line@));
        }
        let k = nonblank_end(&buf, 0);
        let name = string_range(&buf, 0, k);
        let rest: String = if k < buf.len() {
            let tail = vec_range(&buf, k + 1, buf.len());
            let a2 = blanks_end(&tail, 0);
            let b2 = blanks_back_end(&tail, tail.len());
            if a2 <= b2 {
                string_range(&tail, a2, b2)
            } else {
                String::new()
            }
        } else {
            String::new()
        };
        proof {
            if k < buf@.len() {
                let tail = buf@.subrange(k as int + 1, buf@.len() as int);
                crate::chars::lemma_blanks_to(tail, 0);
                crate::chars::lemma_blanks_back(tail, tail.len() as int);
                if blanks_to(tail, 0) > blanks_back(tail, tail.len() as int) {
                    assert(rest@ =~= trim_blanks(tail));
                }
                assert(rest@ == trim_blanks(tail));
            }
            assert(rest@.len() < s.len() - sk as int);
        }
        self.advance_to(ce);
        self.handle_define(name, rest);
        Spanned::nop(start, self.location)
    }

    /// Record a macro definition: the replacement text is lexed with a
    /// brand-new, independently initialised scanner (so no definition of
    /// this scanner reaches it), and the resulting token sequence is stored
    /// under the macro's name.
    /// One pull of the scanner. If the replay buffer is non-empty, its
    /// front token is returned and no input is consumed. Otherwise the next
    /// token (or error) is scanned from the input exactly as the step model
    /// says: horizontal whitespace is skipped, the next character is
    /// classified (with two-character lookahead for the two comment
    /// openers), and exactly one scanner runs. `None` ends the stream.
    pub fn next(&mut self) -> (r: Option<Result<(Location, Token, Location), LexicalError>>)
        requires
            old(self).wf(),
        ensures
            final(self).wf(),
            final(self).text_v() == old(self).text_v(),
            final(self).types_v() == old(self).types_v(),
            old(self).buffer_v().len() > 0 ==> ({
                &&& final(self).pos() == old(self).pos()
                &&& final(self).loc() == old(self).loc()
                &&& final(self).defs_v() == old(self).defs_v()
                &&& final(self).buffer_v() == old(self).buffer_v().drop_first()
                &&& (match r {
                    Some(res) => (match res {
                        Ok((a, t, b)) => (SpannedV { start: a, tok: t@, end: b }) == old(
                            self,
                        ).buffer_v()[0],
                        Err(_) => false,
                    }),
                    None => false,
                })
            }),
            old(self).buffer_v().len() == 0 ==> ({
                let st = step(
                    old(self).text_v(),
                    old(self).pos(),
                    old(self).defs_v(),
                    old(self).types_v(),
                );
                &&& final(self).pos() == st.new_pos
                &&& final(self).buffer_v() == st.buffered
                &&& final(self).defs_v() == (match st.defined {
                    Some((nm, rs)) => old(self).defs_v().insert(
                        nm,
                        lex_all(rs, 0, Map::empty(), Seq::empty()),
                    ),
                    None => old(self).defs_v(),
                })
                &&& (match st.out {
                    OutV::End => r is None,
                    OutV::Tok(sv) => (match r {
                        Some(res) => (match res {
                            Ok((a, t, b)) => (SpannedV { start: a, tok: t@, end: b }) == sv,
                            Err(_) => false,
                        }),
                        None => false,
                    }),
                    OutV::Fail(e) => (match r {
                        Some(res) => (match res {
                            Ok(_) => false,
                            Err(e2) => e2 == e,
                        }),
                        None => false,
                    }),
                })
            }),
        decreases self.text_v().len() - self.pos(), 3int, self.buffer_v().len(),
    {
        let ghost b0 = self.buffer_v();
        if self.token_buffer.len() > 0 {
            let sp = self.token_buffer.remove(0);
            proof {
                assert(self.token_buffer@ =~= old(self).token_buffer@.drop_first());
                assert(self.buffer_v() =~= b0.drop_first());
            }
            return Some(Ok((sp.start, sp.tok, sp.end)));
        }
        let ghost s = self.text@;
        let ghost p0 = self.pos();
        let ghost d0 = self.defs_v();
        let ghost t0 = self.types_v();
        proof {
            lemma_skip_to(s, p0);
            assert(b0 =~= Seq::<SpannedV>::empty());
        }
        self.skip_ws();
        let sk = self.location.absolute;
        let n = self.text.len();
        if sk == n {
            proof {
                assert(self.buffer_v() =~= Seq::<SpannedV>::empty());
            }
            return None;
        }
        let c = self.text[sk];
        let ghost st = step(s, p0, d0, t0);
        proof {
            assert(!crate::chars::skippable(s[sk as int]));
            assert(skip_to(s, sk as int) == sk as int);
            assert(step(s, sk as int, d0, t0) == st);
        }
        if c == '/' && sk + 1 < n && self.text[sk + 1] == '/' {
            match self.comment_single_line() {
                Some(sp) => Some(Ok((sp.start, sp.tok, sp.end))),
                None => None,
            }
        } else if c == '/' && sk + 1 < n && self.text[sk + 1] == '*' {
            match self.comment_multi_line() {
                Ok(sp) => Some(Ok((sp.start, sp.tok, sp.end))),
                Err(e) => Some(Err(e)),
            }
        } else if is_digit(&c) || ((c == '+' || c == '-') && sk + 1 < n && is_digit(
            &self.text[sk + 1],
        )) {
            match self.number() {
                Ok(sp) => Some(Ok((sp.start, sp.tok, sp.end))),
                Err(e) => Some(Err(e)),
            }
        } else if is_operator_char(&c) {
            match self.operator() {
                Ok(sp) => Some(Ok((sp.start, sp.tok, sp.end))),
                Err(e) => Some(Err(e)),
            }
        } else if is_lexical_whitespace(&c) {
            let sp = self.lexical_whitespace();
            Some(Ok((sp.start, sp.tok, sp.end)))
        } else if is_ident_start(&c) {
            match self.identifier() {
                Ok(sp) => Some(Ok((sp.start, sp.tok, sp.end))),
                Err(e) => Some(Err(e)),
            }
        } else if is_punctuation(&c) {
            let sp = self.punct();
            Some(Ok((sp.start, sp.tok, sp.end)))
        } else if c == '"' || c == '\'' {
            match self.string_literal() {
                Ok(sp) => Some(Ok((sp.start, sp.tok, sp.end))),
                Err(e) => Some(Err(e)),
            }
        } else if c == '#' {
            let sp = self.directive();
            Some(Ok((sp.start, sp.tok, sp.end)))
        } else {
            self.advance_to(n);
            proof {
                assert(self.buffer_v() =~= Seq::<SpannedV>::empty());
            }
            None
        }
    }

    fn handle_define(&mut self, name: String, rest: String)
        ensures
            final(self).wf() == old(self).wf(),
            final(self).defs_v() == old(self).defs_v().insert(
                name@,
                lex_all(rest@, 0, Map::empty(), Seq::empty()),
            ),
            final(self).text == old(self).text,
            final(self).location == old(self).location,
            final(self).types == old(self).types,
            final(self).token_buffer == old(self).token_buffer,
        decreases rest@.len() + 1, 1int, 0int,
    {
        let toks = lex_fragment(rest.as_str());
        self.insert_def(name, toks);
    }
}

/// The token sequence a piece of text produces standalone: a fresh scanner
/// is run over it, front to back, and the tokens are collected until the
/// input ends or the first error (which is dropped).
pub fn lex_fragment(input: &str) -> (r: Vec<Spanned>)
    ensures
        spanned_seq(r@) == lex_all(input@, 0, Map::empty(), Seq::empty()),
    decreases input@.len() + 1, 0int, 0int,
{
    let mut lx = Lexer::new(input);
    let mut out: Vec<Spanned> = Vec::new();
    let mut done = false;
    while !done
        invariant
            lx.wf(),
            lx.text_v() == input@,
            lx.types_v() == (Seq::<Seq<char>>::empty()),
            !done ==> spanned_seq(out@) + lx.buffer_v() + lex_all(
                lx.text_v(),
                lx.pos(),
                lx.defs_v(),
                lx.types_v(),
            ) == lex_all(input@, 0, Map::empty(), Seq::empty()),
            done ==> spanned_seq(out@) == lex_all(input@, 0, Map::empty(), Seq::empty()),
        decreases
                lx.text_v().len() - lx.pos(),
                lx.buffer_v().len(),
                (if done {
                    0int
                } else {
                    1int
                }),
    {
        let ghost pre = lx;
        let ghost out_pre = out@;
        match lx.next() {
            Some(res) => {
                match res {
                    Ok((a, t, b)) => {
                        out.push(Spanned { start: a, tok: t, end: b });
                        proof {
                            assert(spanned_seq(out@) =~= spanned_seq(out_pre).push(
                                SpannedV { start: a, tok: t@, end: b },
                            ));
                            if pre.buffer_v().len() > 0 {
                                assert(pre.buffer_v() =~= seq![pre.buffer_v()[0]]
                                    + pre.buffer_v().drop_first());
                                assert(spanned_seq(out@) + lx.buffer_v() =~= spanned_seq(out_pre)
                                    + pre.buffer_v());
                            } else {
                                crate::model::lemma_step_progress(
                                    pre.text_v(),
                                    pre.pos(),
                                    pre.defs_v(),
                                    pre.types_v(),
                                );
                            }
                        }
                    },
                    Err(_) => {
                        proof {
                            crate::model::lemma_step_progress(
                                pre.text_v(),
                                pre.pos(),
                                pre.defs_v(),
                                pre.types_v(),
                            );
                            assert(spanned_seq(out@) + pre.buffer_v() + lex_all(
                                pre.text_v(),
                                pre.pos(),
                                pre.defs_v(),
                                pre.types_v(),
                            ) =~= spanned_seq(out@));
                        }
                        done = true;
                    },
                }
            },
            None => {
                proof {
                    crate::model::lemma_step_progress(
                        pre.text_v(),
                        pre.pos(),
                        pre.defs_v(),
                        pre.types_v(),
                    );
                    if pre.buffer_v().len() == 0 {
                        assert(spanned_seq(out@) + pre.buffer_v() + lex_all(
                            pre.text_v(),
                            pre.pos(),
                            pre.defs_v(),
                            pre.types_v(),
                        ) =~= spanned_seq(out@));
                    }
                }
                done = true;
            },
        }
    }
    out
}

} // verus!
