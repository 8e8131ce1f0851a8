//! Tokens produced by the lexer, and the textual form of each token.

use vstd::prelude::*;

verus! {

/// One lexical token.  An integer literal carries its value; a float literal
/// carries its lexeme (digits with one decimal point), whose numeric value is
/// only interpreted by the machine's driver.
#[derive(Clone, PartialEq, Debug)]
pub enum Token {
    EOF,
    Int(i64),
    Float(String),
    Add,
    Sub,
    Mul,
    Div,
    Pow,
    LParen,
    RParen,
}

/// The mathematical model of a token.
pub enum TokenS {
    EOF,
    Int(i64),
    Float(Seq<char>),
    Add,
    Sub,
    Mul,
    Div,
    Pow,
    LParen,
    RParen,
}

impl View for Token {
    type V = TokenS;

    open spec fn view(&self) -> TokenS {
        match self {
            Token::EOF => TokenS::EOF,
            Token::Int(i) => TokenS::Int(*i),
            Token::Float(s) => TokenS::Float(s@),
            Token::Add => TokenS::Add,
            Token::Sub => TokenS::Sub,
            Token::Mul => TokenS::Mul,
            Token::Div => TokenS::Div,
            Token::Pow => TokenS::Pow,
            Token::LParen => TokenS::LParen,
            Token::RParen => TokenS::RParen,
        }
    }
}

/// The model of a token sequence.
pub open spec fn tokens_view(ts: Seq<Token>) -> Seq<TokenS> {
    ts.map_values(|t: Token| t@)
}

/// The decimal digit denoted by a digit character.
pub open spec fn digit_of(c: char) -> int {
    c as int - '0' as int
}

pub open spec fn is_digit(c: char) -> bool {
    '0' <= c && c <= '9'
}

/// The value of a sequence of decimal digits, most significant first.
pub open spec fn digits_val(s: Seq<char>) -> int
    decreases s.len(),
{
    if s.len() == 0 {
        0
    } else {
        digits_val(s.drop_last()) * 10 + digit_of(s.last())
    }
}

pub open spec fn all_digits(s: Seq<char>) -> bool {
    forall|i: int| 0 <= i < s.len() ==> is_digit(#[trigger] s[i])
}

/// The canonical decimal digit string of a non-negative integer.
pub open spec fn spec_nat_string(n: int) -> Seq<char>
    decreases n,
{
    if n <= 0 {
        seq!['0']
    } else if n < 10 {
        seq![digit_char(n)]
    } else {
        spec_nat_string(n / 10).push(digit_char(n % 10))
    }
}

pub open spec fn digit_char(d: int) -> char {
    if d == 0 { '0' }
    else if d == 1 { '1' }
    else if d == 2 { '2' }
    else if d == 3 { '3' }
    else if d == 4 { '4' }
    else if d == 5 { '5' }
    else if d == 6 { '6' }
    else if d == 7 { '7' }
    else if d == 8 { '8' }
    else { '9' }
}

/// The canonical decimal string of an integer, with a leading minus sign
/// when negative.
pub open spec fn spec_int_string(n: int) -> Seq<char> {
    if n < 0 {
        seq!['-'] + spec_nat_string(-n)
    } else {
        spec_nat_string(n)
    }
}

/// The textual form of each token, as stored into syntax-tree text children.
pub open spec fn spec_token_text(t: TokenS) -> Seq<char> {
    match t {
        TokenS::EOF => "EOF"@,
        TokenS::Int(i) => spec_int_string(i as int),
        TokenS::Float(s) => s,
        TokenS::Add => "Add"@,
        TokenS::Sub => "Sub"@,
        TokenS::Mul => "Mul"@,
        TokenS::Div => "Div"@,
        TokenS::Pow => "Pow"@,
        TokenS::LParen => "("@,
        TokenS::RParen => ")"@,
    }
}

/// A single-character string for one decimal digit.
fn digit_str(d: u64) -> (r: &'static str)
    requires
        d < 10,
    ensures
        r@ == seq![digit_char(d as int)],
{
    proof {
        reveal_strlit("0");
        reveal_strlit("1");
        reveal_strlit("2");
        reveal_strlit("3");
        reveal_strlit("4");
        reveal_strlit("5");
        reveal_strlit("6");
        reveal_strlit("7");
        reveal_strlit("8");
        reveal_strlit("9");
    }
    let r = match d {
        0 => "0",
        1 => "1",
        2 => "2",
        3 => "3",
        4 => "4",
        5 => "5",
        6 => "6",
        7 => "7",
        8 => "8",
        _ => "9",
    };
    proof {
        assert(r@ =~= seq![digit_char(d as int)]);
    }
    r
}

/// The canonical digit string of a non-negative value, built least
/// significant digit first and then reversed.
fn nat_to_string(n: u64) -> (r: String)
    ensures
        r@ == spec_nat_string(n as int),
{
    if n == 0 {
        let r = String::from_str("0");
        proof {
            reveal_strlit("0");
            assert(r@ =~= spec_nat_string(0));
        }
        return r;
    }
    let mut rev: Vec<u64> = Vec::new();
    let mut cur: u64 = n;
    while cur > 0
        invariant
            cur >= 0,
            (forall|i: int| 0 <= i < rev@.len() ==> 0 <= #[trigger] rev@[i] < 10),
            spec_nat_string(n as int) == if cur > 0 {
                spec_nat_string(cur as int) + digits_of_rev(rev@)
            } else {
                digits_of_rev(rev@)
            },
        decreases cur,
    {
        let d = cur % 10;
        let next = cur / 10;
        proof {
            assert(rev@.push(d).drop_last() =~= rev@);
            assert(rev@.push(d).last() == d);
            assert(digits_of_rev(rev@.push(d)) =~= seq![digit_char(d as int)] + digits_of_rev(
                rev@,
            ));
            if next > 0 {
                assert(spec_nat_string(cur as int) == spec_nat_string(next as int).push(
                    digit_char(d as int),
                ));
                assert(spec_nat_string(next as int) + digits_of_rev(rev@.push(d)) =~= (
                spec_nat_string(next as int).push(digit_char(d as int))) + digits_of_rev(rev@));
            } else {
                assert(cur < 10);
                assert(spec_nat_string(cur as int) == seq![digit_char(d as int)]);
            }
        }
        rev.push(d);
        cur = next;
    }
    let mut s = String::new();
    let mut i: usize = rev.len();
    while i > 0
        invariant
            i <= rev@.len(),
            (forall|j: int| 0 <= j < rev@.len() ==> 0 <= #[trigger] rev@[j] < 10),
            spec_nat_string(n as int) == digits_of_rev(rev@),
            s@ == digits_of_rev(rev@).take(rev@.len() - i),
        decreases i,
    {
        i = i - 1;
        let d = rev[i];
        s.append(digit_str(d));
        proof {
            assert(s@ =~= digits_of_rev(rev@).take(rev@.len() - i)) by {
                lemma_digits_of_rev_index(rev@, i as int);
                assert(digits_of_rev(rev@).len() == rev@.len());
                assert(digits_of_rev(rev@)[rev@.len() - i - 1] == digit_char(rev@[i as int] as int));
            }
        }
    }
    proof {
        lemma_digits_of_rev_len(rev@);
        assert(s@ =~= digits_of_rev(rev@));
    }
    s
}

/// The digit characters of a least-significant-first digit list, written
/// most significant first.
pub open spec fn digits_of_rev(rev: Seq<u64>) -> Seq<char>
    decreases rev.len(),
{
    if rev.len() == 0 {
        Seq::empty()
    } else {
        seq![digit_char(rev.last() as int)] + digits_of_rev(rev.drop_last())
    }
}

proof fn lemma_digits_of_rev_index(rev: Seq<u64>, i: int)
    requires
        0 <= i < rev.len(),
    ensures
        digits_of_rev(rev).len() == rev.len(),
        digits_of_rev(rev)[rev.len() - 1 - i] == digit_char(rev[i] as int),
    decreases rev.len(),
{
    lemma_digits_of_rev_len(rev);
    if i < rev.len() - 1 {
        lemma_digits_of_rev_index(rev.drop_last(), i);
        lemma_digits_of_rev_len(rev.drop_last());
    }
}

proof fn lemma_digits_of_rev_len(rev: Seq<u64>)
    ensures
        digits_of_rev(rev).len() == rev.len(),
    decreases rev.len(),
{
    if rev.len() > 0 {
        lemma_digits_of_rev_len(rev.drop_last());
    }
}

/// The textual form of a token: the literal's text for a number, the
/// operator's name for an operator, a parenthesis for a parenthesis.
pub fn to_string(t: &Token) -> (r: String)
    ensures
        r@ == spec_token_text(t@),
{
    match t {
        Token::EOF => String::from_str("EOF"),
        Token::Int(i) => int_to_string(*i),
        Token::Float(s) => s.clone(),
        Token::Add => String::from_str("Add"),
        Token::Sub => String::from_str("Sub"),
        Token::Mul => String::from_str("Mul"),
        Token::Div => String::from_str("Div"),
        Token::Pow => String::from_str("Pow"),
        Token::LParen => String::from_str("("),
        Token::RParen => String::from_str(")"),
    }
}

/// The canonical decimal string of a signed value.
pub fn int_to_string(i: i64) -> (r: String)
    ensures
        r@ == spec_int_string(i as int),
{
    if i >= 0 {
        nat_to_string(i as u64)
    } else {
        // The magnitude is computed via u64 so that i64::MIN is covered.
        let mag: u64 = (-(i + 1)) as u64 + 1;
        let mut s = String::from_str("-");
        let digits = nat_to_string(mag);
        s.append(digits.as_str());
        proof {
            reveal_strlit("-");
            assert(s@ =~= spec_int_string(i as int));
        }
        s
    }
}

} // verus!
