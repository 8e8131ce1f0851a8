//! Lexical analysis: a line of text becomes a flat token sequence.

use vstd::prelude::*;

use crate::token::{digits_val, is_digit, tokens_view, Token, TokenS};

verus! {

/// A lexing failure.  The first offending character or malformed number
/// aborts the whole scan.
#[derive(Clone, Copy, PartialEq, Eq, Structural, Debug)]
pub enum LexError {
    UnexpectedCharacter(char),
    TooManyDecimalPoints,
    InvalidInteger,
    InvalidFloat,
}

pub open spec fn is_space(c: char) -> bool {
    c == ' ' || c == '\t' || c == '\n'
}

/// The position scanning resumes at: `j` when it lies ahead of `i` and
/// within bounds, else one past `i` (the fallback is never taken; it keeps
/// the recursion well-founded).
pub open spec fn next_pos(len: int, i: int, j: int) -> int {
    if i < j <= len {
        j
    } else {
        i + 1
    }
}

/// Scanning a numeric literal that started at `start`, with the cursor at
/// `i` and `dots` decimal points already consumed.  A second decimal point
/// fails; a literal ending in a decimal point fails; an integer literal
/// beyond `i64::MAX` fails.
pub open spec fn lex_num(s: Seq<char>, i: int, start: int, dots: int) -> Result<
    (TokenS, int),
    LexError,
>
    decreases s.len() - i,
{
    if i < s.len() && is_digit(s[i]) {
        lex_num(s, i + 1, start, dots)
    } else if i < s.len() && s[i] == '.' {
        if dots >= 1 {
            Err(LexError::TooManyDecimalPoints)
        } else {
            lex_num(s, i + 1, start, 1)
        }
    } else {
        let lit = s.subrange(start, i);
        if dots == 0 {
            if digits_val(lit) <= i64::MAX {
                Ok((TokenS::Int(digits_val(lit) as i64), i))
            } else {
                Err(LexError::InvalidInteger)
            }
        } else {
            if s[i - 1] == '.' {
                Err(LexError::InvalidFloat)
            } else {
                Ok((TokenS::Float(lit), i))
            }
        }
    }
}

/// One token prepended to the rest of a scan.
pub open spec fn cons_tok(t: TokenS, r: Result<Seq<TokenS>, LexError>) -> Result<
    Seq<TokenS>,
    LexError,
> {
    match r {
        Ok(rest) => Ok(seq![t] + rest),
        Err(e) => Err(e),
    }
}

/// The whole scan from position `i`: digits start a numeric literal, the
/// seven symbol characters map to their tokens, blanks are skipped, any
/// other character fails, and the end of input appends an end marker.
pub open spec fn lex_from(s: Seq<char>, i: int) -> Result<Seq<TokenS>, LexError>
    decreases s.len() - i,
{
    if i >= s.len() {
        Ok(seq![TokenS::EOF])
    } else {
        let c = s[i];
        if is_digit(c) {
            match lex_num(s, i, i, 0) {
                Ok((t, j)) => cons_tok(t, lex_from(s, next_pos(s.len() as int, i, j))),
                Err(e) => Err(e),
            }
        } else if c == '+' {
            cons_tok(TokenS::Add, lex_from(s, i + 1))
        } else if c == '-' {
            cons_tok(TokenS::Sub, lex_from(s, i + 1))
        } else if c == '*' {
            cons_tok(TokenS::Mul, lex_from(s, i + 1))
        } else if c == '/' {
            cons_tok(TokenS::Div, lex_from(s, i + 1))
        } else if c == '^' {
            cons_tok(TokenS::Pow, lex_from(s, i + 1))
        } else if c == '(' {
            cons_tok(TokenS::LParen, lex_from(s, i + 1))
        } else if c == ')' {
            cons_tok(TokenS::RParen, lex_from(s, i + 1))
        } else if is_space(c) {
            lex_from(s, i + 1)
        } else {
            Err(LexError::UnexpectedCharacter(c))
        }
    }
}

/// The token sequence of a whole line, or its first lexing failure.
pub open spec fn spec_tokenize(s: Seq<char>) -> Result<Seq<TokenS>, LexError> {
    lex_from(s, 0)
}

/// The lexer: an input line and a cursor.
pub struct Lexer {
    pub input: String,
    pub position: usize,
}

impl Lexer {
    /// A fresh lexer over one line, with the cursor at its start.
    pub fn new(input: String) -> (r: Lexer)
        ensures
            r.input@ == input@,
            r.position == 0,
    {
        Lexer { input, position: 0 }
    }

    /// Scans the rest of the line into tokens, ending with an end marker,
    /// or reports the first lexing failure.
    pub fn next_token(&mut self) -> (r: Result<Vec<Token>, LexError>)
        requires
            old(self).position <= old(self).input@.len(),
        ensures
            final(self).input@ == old(self).input@,
            match r {
                Ok(v) => lex_from(old(self).input@, old(self).position as int) == Ok::<
                    Seq<TokenS>,
                    LexError,
                >(tokens_view(v@)),
                Err(e) => lex_from(old(self).input@, old(self).position as int) == Err::<
                    Seq<TokenS>,
                    LexError,
                >(e),
            },
            old(self).position == 0 ==> (match r {
                Ok(v) => spec_tokenize(old(self).input@) == Ok::<Seq<TokenS>, LexError>(
                    tokens_view(v@),
                ),
                Err(e) => spec_tokenize(old(self).input@) == Err::<Seq<TokenS>, LexError>(e),
            }),
    {
        let ghost s = self.input@;
        let ghost pos0 = self.position as int;
        let mut v: Vec<Token> = Vec::new();
        let n = self.input.as_str().unicode_len();

        while self.position < n
            invariant
                self.input@ == s,
                s == old(self).input@,
                pos0 == old(self).position as int,
                n == s.len(),
                pos0 <= self.position <= n,
                lex_from(s, pos0) == (match lex_from(s, self.position as int) {
                    Ok(rest) => Ok(tokens_view(v@) + rest),
                    Err(e) => Err::<Seq<TokenS>, LexError>(e),
                }),
            decreases n - self.position,
        {
            let ghost p = self.position as int;
            let ghost vold = v@;
            let c = self.input.as_str().get_char(self.position);
            if '0' <= c && c <= '9' {
                match self.number() {
                    Ok(t) => {
                        proof {
                            assert(lex_from(s, p) == cons_tok(t@, lex_from(
                                s,
                                self.position as int,
                            )));
                        }
                        v.push(t);
                        proof {
                            lemma_lex_step(s, pos0, p, self.position as int, vold, v@, t);
                        }
                    },
                    Err(e) => {
                        proof {
                            assert(lex_from(s, p) == Err::<Seq<TokenS>, LexError>(e));
                        }
                        return Err(e);
                    },
                }
            } else if c == '+' || c == '-' || c == '*' || c == '/' || c == '^' || c == '('
                || c == ')' {
                let t = if c == '+' {
                    Token::Add
                } else if c == '-' {
                    Token::Sub
                } else if c == '*' {
                    Token::Mul
                } else if c == '/' {
                    Token::Div
                } else if c == '^' {
                    Token::Pow
                } else if c == '(' {
                    Token::LParen
                } else {
                    Token::RParen
                };
                proof {
                    assert(lex_from(s, p) == cons_tok(t@, lex_from(s, p + 1)));
                }
                v.push(t);
                self.position = self.position + 1;
                proof {
                    lemma_lex_step(s, pos0, p, self.position as int, vold, v@, t);
                }
            } else if c == ' ' || c == '\t' || c == '\n' {
                proof {
                    assert(lex_from(s, p) == lex_from(s, p + 1));
                }
                self.position = self.position + 1;
            } else {
                proof {
                    assert(lex_from(s, p) == Err::<Seq<TokenS>, LexError>(
                        LexError::UnexpectedCharacter(c),
                    ));
                }
                return Err(LexError::UnexpectedCharacter(c));
            }
        }
        proof {
            assert(lex_from(s, self.position as int) == Ok::<Seq<TokenS>, LexError>(
                seq![TokenS::EOF],
            ));
        }
        let ghost vold = v@;
        v.push(Token::EOF);
        proof {
            lemma_tokens_view_push(vold, Token::EOF);
            assert(tokens_view(vold) + seq![TokenS::EOF] =~= tokens_view(v@));
        }
        Ok(v)
    }

    /// Scans one numeric literal starting at the cursor, which must stand
    /// on a digit.
    fn number(&mut self) -> (r: Result<Token, LexError>)
        requires
            old(self).position < old(self).input@.len(),
            is_digit(old(self).input@[old(self).position as int]),
        ensures
            final(self).input@ == old(self).input@,
            final(self).position >= old(self).position,
            final(self).position <= final(self).input@.len(),
            match r {
                Ok(t) => final(self).position > old(self).position && lex_num(
                    old(self).input@,
                    old(self).position as int,
                    old(self).position as int,
                    0,
                ) == Ok::<(TokenS, int), LexError>((t@, final(self).position as int)),
                Err(e) => lex_num(
                    old(self).input@,
                    old(self).position as int,
                    old(self).position as int,
                    0,
                ) == Err::<(TokenS, int), LexError>(e),
            },
    {
        let ghost s = self.input@;
        let start = self.position;
        let ghost pos0 = self.position as int;
        let n = self.input.as_str().unicode_len();
        let mut dots: u64 = 0;
        let mut acc: Option<u64> = Some(0);

        loop
            invariant
                self.input@ == s,
                s == old(self).input@,
                pos0 == old(self).position as int,
                n == s.len(),
                start as int == pos0,
                pos0 <= self.position <= n,
                pos0 < s.len(),
                dots <= 1,
                dots == 1 ==> self.position > pos0,
                lex_num(s, pos0, pos0, 0) == lex_num(s, self.position as int, pos0, dots as int),
                dots == 0 ==> (match acc {
                    Some(u) => u as int == digits_val(s.subrange(pos0, self.position as int)),
                    None => digits_val(s.subrange(pos0, self.position as int)) > u64::MAX,
                }),
            ensures
                self.position == n || (!is_digit(s[self.position as int]) && s[
                    self.position as int
                ] != '.'),
            decreases n - self.position,
        {
            let ghost p = self.position as int;
            if self.position >= n {
                break;
            }
            let c = self.input.as_str().get_char(self.position);
            if '0' <= c && c <= '9' {
                proof {
                    assert(lex_num(s, p, pos0, dots as int) == lex_num(s, p + 1, pos0, dots as int));
                    assert(s.subrange(pos0, p + 1) =~= s.subrange(pos0, p).push(s[p]));
                    assert(s.subrange(pos0, p + 1).drop_last() =~= s.subrange(pos0, p));
                }
                if dots == 0 {
                    let d: u64 = (c as u32 - '0' as u32) as u64;
                    acc = match acc {
                        Some(u) => match u.checked_mul(10) {
                            Some(x) => x.checked_add(d),
                            None => None,
                        },
                        None => None,
                    };
                }
                self.position = self.position + 1;
            } else if c == '.' {
                if dots >= 1 {
                    proof {
                        assert(lex_num(s, p, pos0, dots as int) == Err::<(TokenS, int), LexError>(
                            LexError::TooManyDecimalPoints,
                        ));
                    }
                    return Err(LexError::TooManyDecimalPoints);
                }
                proof {
                    assert(lex_num(s, p, pos0, 0) == lex_num(s, p + 1, pos0, 1));
                }
                dots = 1;
                self.position = self.position + 1;
            } else {
                break;
            }
        }

        let ghost p = self.position as int;
        proof {
            assert(!(p < s.len() && is_digit(s[p])) && !(p < s.len() && s[p] == '.'));
        }
        if dots == 0 {
            proof {
                assert(lex_num(s, p, pos0, 0) == (if digits_val(s.subrange(pos0, p)) <= i64::MAX {
                    Ok::<(TokenS, int), LexError>((
                        TokenS::Int(digits_val(s.subrange(pos0, p)) as i64),
                        p,
                    ))
                } else {
                    Err::<(TokenS, int), LexError>(LexError::InvalidInteger)
                }));
            }
            match acc {
                Some(u) => {
                    if u <= 0x7fff_ffff_ffff_ffffu64 {
                        Ok(Token::Int(u as i64))
                    } else {
                        Err(LexError::InvalidInteger)
                    }
                },
                None => Err(LexError::InvalidInteger),
            }
        } else {
            let last = self.input.as_str().get_char(self.position - 1);
            if last == '.' {
                proof {
                    assert(lex_num(s, p, pos0, 1) == Err::<(TokenS, int), LexError>(
                        LexError::InvalidFloat,
                    ));
                }
                Err(LexError::InvalidFloat)
            } else {
                proof {
                    assert(lex_num(s, p, pos0, 1) == Ok::<(TokenS, int), LexError>((
                        TokenS::Float(s.subrange(pos0, p)),
                        p,
                    )));
                }
                let lit = self.input.as_str().substring_char(start, self.position);
                let t = Token::Float(lit.to_owned());
                proof {
                    assert(t@ == TokenS::Float(s.subrange(pos0, p)));
                }
                Ok(t)
            }
        }
    }
}

/// Mapping a token push over the view.
pub proof fn lemma_tokens_view_push(ts: Seq<Token>, t: Token)
    ensures
        tokens_view(ts.push(t)) =~= tokens_view(ts) + seq![t@],
{
}

/// After one token is scanned and pushed, the accumulated tokens plus the
/// rest of the scan still make up the whole scan.
proof fn lemma_lex_step(
    s: Seq<char>,
    pos0: int,
    p: int,
    p2: int,
    vold: Seq<Token>,
    vnew: Seq<Token>,
    t: Token,
)
    requires
        vnew == vold.push(t),
        lex_from(s, pos0) == (match lex_from(s, p) {
            Ok(rest) => Ok::<Seq<TokenS>, LexError>(tokens_view(vold) + rest),
            Err(e) => Err::<Seq<TokenS>, LexError>(e),
        }),
        lex_from(s, p) == cons_tok(t@, lex_from(s, p2)),
    ensures
        lex_from(s, pos0) == (match lex_from(s, p2) {
            Ok(rest) => Ok::<Seq<TokenS>, LexError>(tokens_view(vnew) + rest),
            Err(e) => Err::<Seq<TokenS>, LexError>(e),
        }),
{
    lemma_tokens_view_push(vold, t);
    match lex_from(s, p2) {
        Ok(rest) => {
            assert(tokens_view(vnew) + rest =~= tokens_view(vold) + (seq![t@] + rest));
        },
        Err(_) => {},
    }
}

} // verus!
