//! Recursive-descent parsing over a four-level precedence grammar:
//!
//! ```text
//! expr   := term (('+'|'-') term)*          -- left-associative
//! term   := factor (('*'|'/') factor)*      -- left-associative
//! factor := ('+'|'-') factor | power        -- unary prefix, any depth
//! power  := atom ['^' power]                -- right-associative
//! atom   := INT | FLOAT | '(' expr ')'
//! ```
//!
//! A level with a single operand returns that operand unwrapped; two or more
//! operands fold left-to-right (right-to-left for `power`) into binary nodes.

use vstd::prelude::*;

use crate::ast::{wf_node, Node, NodeS, NodeType, NodeTypeS};
use crate::token::{spec_int_string, spec_token_text, to_string, tokens_view, Token, TokenS};

verus! {

/// A parsing failure.  Parsing stops at the first one.
#[derive(Clone, Copy, PartialEq, Eq, Structural, Debug)]
pub enum ParseError {
    UnexpectedEndOfInput,
    ExpectedAtom,
    ExpectedCloseParen,
}

/// The outcome of one grammar rule: the node built and the position of the
/// first unconsumed token, or the failure.
pub type ParseStep = Result<(NodeS, int), ParseError>;

/// A binary node: left operand, operator tag, right operand.
pub open spec fn bin_node(l: NodeS, op: Seq<char>, r: NodeS) -> NodeS {
    NodeS {
        name: "BinOp"@,
        children: seq![NodeTypeS::Node(l), NodeTypeS::Text(op), NodeTypeS::Node(r)],
    }
}

/// A unary node: operator tag, operand.
pub open spec fn un_node(op: Seq<char>, x: NodeS) -> NodeS {
    NodeS { name: "UnaryOp"@, children: seq![NodeTypeS::Text(op), NodeTypeS::Node(x)] }
}

/// An integer leaf, carrying the value's canonical text.
pub open spec fn int_node(v: int) -> NodeS {
    NodeS { name: "Int"@, children: seq![NodeTypeS::Text(spec_int_string(v))] }
}

/// A float leaf, carrying the literal's lexeme.
pub open spec fn float_node(s: Seq<char>) -> NodeS {
    NodeS { name: "Float"@, children: seq![NodeTypeS::Text(s)] }
}

/// `atom := INT | FLOAT | '(' expr ')'`.  The end of input where an atom is
/// demanded is an unexpected end; any other non-atom token is a missing
/// atom; an unclosed parenthesis is a missing close parenthesis.
pub open spec fn p_atom(t: Seq<TokenS>, i: int) -> ParseStep
    decreases t.len() - i, 0int,
{
    if i >= t.len() {
        Err(ParseError::UnexpectedEndOfInput)
    } else {
        match t[i] {
            TokenS::Int(v) => Ok((int_node(v as int), i + 1)),
            TokenS::Float(s) => Ok((float_node(s), i + 1)),
            TokenS::LParen => match p_expr(t, i + 1) {
                Ok((n, j)) => if j < t.len() && t[j] is RParen {
                    Ok((n, j + 1))
                } else {
                    Err(ParseError::ExpectedCloseParen)
                },
                Err(e) => Err(e),
            },
            TokenS::EOF => Err(ParseError::UnexpectedEndOfInput),
            _ => Err(ParseError::ExpectedAtom),
        }
    }
}

/// `power := atom ['^' power]`, right-associative.
pub open spec fn p_power(t: Seq<TokenS>, i: int) -> ParseStep
    decreases t.len() - i, 1int,
{
    match p_atom(t, i) {
        Ok((base, j)) => {
            if i < j <= t.len() && j < t.len() && t[j] is Pow {
                match p_power(t, j + 1) {
                    Ok((exp, k)) => Ok((bin_node(base, "Pow"@, exp), k)),
                    Err(e) => Err(e),
                }
            } else {
                Ok((base, j))
            }
        },
        Err(e) => Err(e),
    }
}

/// `factor := ('+'|'-') factor | power`.
pub open spec fn p_factor(t: Seq<TokenS>, i: int) -> ParseStep
    decreases t.len() - i, 2int,
{
    if i < t.len() && (t[i] is Add || t[i] is Sub) {
        match p_factor(t, i + 1) {
            Ok((x, j)) => Ok((un_node(spec_token_text(t[i]), x), j)),
            Err(e) => Err(e),
        }
    } else {
        p_power(t, i)
    }
}

/// The left fold of `factor (('*'|'/') factor)*` onto `left`.
pub open spec fn p_term_more(t: Seq<TokenS>, i: int, left: NodeS) -> ParseStep
    decreases t.len() - i, 0int,
{
    if i < t.len() && (t[i] is Mul || t[i] is Div) {
        match p_factor(t, i + 1) {
            Ok((right, j)) => {
                let folded = bin_node(left, spec_token_text(t[i]), right);
                if i + 1 < j <= t.len() {
                    p_term_more(t, j, folded)
                } else {
                    Ok((folded, j))
                }
            },
            Err(e) => Err(e),
        }
    } else {
        Ok((left, i))
    }
}

/// `term := factor (('*'|'/') factor)*`, left-associative.
pub open spec fn p_term(t: Seq<TokenS>, i: int) -> ParseStep
    decreases t.len() - i, 3int,
{
    match p_factor(t, i) {
        Ok((left, j)) => if i < j <= t.len() {
            p_term_more(t, j, left)
        } else {
            Ok((left, j))
        },
        Err(e) => Err(e),
    }
}

/// The left fold of `term (('+'|'-') term)*` onto `left`.
pub open spec fn p_expr_more(t: Seq<TokenS>, i: int, left: NodeS) -> ParseStep
    decreases t.len() - i, 0int,
{
    if i < t.len() && (t[i] is Add || t[i] is Sub) {
        match p_term(t, i + 1) {
            Ok((right, j)) => {
                let folded = bin_node(left, spec_token_text(t[i]), right);
                if i + 1 < j <= t.len() {
                    p_expr_more(t, j, folded)
                } else {
                    Ok((folded, j))
                }
            },
            Err(e) => Err(e),
        }
    } else {
        Ok((left, i))
    }
}

/// `expr := term (('+'|'-') term)*`, left-associative.
pub open spec fn p_expr(t: Seq<TokenS>, i: int) -> ParseStep
    decreases t.len() - i, 4int,
{
    match p_term(t, i) {
        Ok((left, j)) => if i < j <= t.len() {
            p_expr_more(t, j, left)
        } else {
            Ok((left, j))
        },
        Err(e) => Err(e),
    }
}

/// The tree of a whole token sequence, or its first parsing failure.
pub open spec fn spec_parse(t: Seq<TokenS>) -> Result<NodeS, ParseError> {
    match p_expr(t, 0) {
        Ok((n, _)) => Ok(n),
        Err(e) => Err(e),
    }
}

/// The parser: a token sequence and a cursor.
pub struct Parser {
    pub tokens: Vec<Token>,
    pub position: usize,
}

/// Builds a binary node from its parts.
fn mk_bin(l: Node, op: String, r: Node) -> (res: Node)
    ensures
        res@ == bin_node(l@, op@, r@),
{
    let ghost g = bin_node(l@, op@, r@);
    let mut node = Node::new(String::from_str("BinOp"));
    node.add_child(NodeType::Node(l));
    node.add_child(NodeType::Text(op));
    node.add_child(NodeType::Node(r));
    proof {
        assert(node@.children =~= g.children);
    }
    node
}

/// Builds a unary node from its parts.
fn mk_un(op: String, x: Node) -> (res: Node)
    ensures
        res@ == un_node(op@, x@),
{
    let ghost g = un_node(op@, x@);
    let mut node = Node::new(String::from_str("UnaryOp"));
    node.add_child(NodeType::Text(op));
    node.add_child(NodeType::Node(x));
    proof {
        assert(node@.children =~= g.children);
    }
    node
}

impl Parser {
    /// The model of the token sequence.
    pub open spec fn toks(&self) -> Seq<TokenS> {
        tokens_view(self.tokens@)
    }

    /// A fresh parser over a token sequence, with the cursor at its start.
    pub fn new(tokens: Vec<Token>) -> (r: Parser)
        ensures
            r.tokens == tokens,
            r.position == 0,
    {
        Parser { tokens, position: 0 }
    }

    /// Parses one expression from the start of the token sequence; tokens
    /// after it are left unconsumed.  The tree returned is exactly what the
    /// grammar derives, and it is well-formed.
    pub fn parse(&mut self) -> (r: Result<Node, ParseError>)
        requires
            old(self).position <= old(self).tokens@.len(),
        ensures
            final(self).tokens == old(self).tokens,
            match r {
                Ok(n) => p_expr(old(self).toks(), old(self).position as int) == Ok::<
                    (NodeS, int),
                    ParseError,
                >((n@, final(self).position as int)) && wf_node(n@),
                Err(e) => p_expr(old(self).toks(), old(self).position as int) == Err::<
                    (NodeS, int),
                    ParseError,
                >(e),
            },
            old(self).position == 0 ==> (match r {
                Ok(n) => spec_parse(old(self).toks()) == Ok::<NodeS, ParseError>(n@),
                Err(e) => spec_parse(old(self).toks()) == Err::<NodeS, ParseError>(e),
            }),
    {
        let r = self.expr();
        proof {
            lemma_p_expr_wf(old(self).toks(), old(self).position as int);
        }
        r
    }

    fn expr(&mut self) -> (r: Result<Node, ParseError>)
        requires
            old(self).position <= old(self).tokens@.len(),
        ensures
            final(self).tokens == old(self).tokens,
            old(self).position <= final(self).position <= final(self).tokens@.len(),
            match r {
                Ok(n) => final(self).position > old(self).position && p_expr(
                    old(self).toks(),
                    old(self).position as int,
                ) == Ok::<(NodeS, int), ParseError>((n@, final(self).position as int)),
                Err(e) => p_expr(old(self).toks(), old(self).position as int) == Err::<
                    (NodeS, int),
                    ParseError,
                >(e),
            },
        decreases self.tokens@.len() - self.position, 4int,
    {
        let ghost t = self.toks();
        let ghost pos0 = self.position as int;
        let mut acc = match self.term() {
            Ok(n) => n,
            Err(e) => {
                return Err(e);
            },
        };
        proof {
            assert(p_expr(t, pos0) == p_expr_more(t, self.position as int, acc@));
        }
        loop
            invariant
                self.tokens == old(self).tokens,
                t == self.toks(),
                pos0 == old(self).position as int,
                pos0 < self.position <= self.tokens@.len(),
                p_expr(t, pos0) == p_expr_more(t, self.position as int, acc@),
            ensures
                self.tokens == old(self).tokens,
                pos0 < self.position <= self.tokens@.len(),
                p_expr(t, pos0) == Ok::<(NodeS, int), ParseError>((
                    acc@,
                    self.position as int,
                )),
            decreases self.tokens@.len() - self.position,
        {
            let ghost i = self.position as int;
            if self.position >= self.tokens.len() {
                proof {
                    assert(p_expr_more(t, i, acc@) == Ok::<(NodeS, int), ParseError>((acc@, i)));
                }
                break;
            }
            let is_op = match &self.tokens[self.position] {
                Token::Add => true,
                Token::Sub => true,
                _ => false,
            };
            if !is_op {
                proof {
                    assert(p_expr_more(t, i, acc@) == Ok::<(NodeS, int), ParseError>((acc@, i)));
                }
                break;
            }
            let op = to_string(&self.tokens[self.position]);
            self.position = self.position + 1;
            match self.term() {
                Ok(right) => {
                    let ghost accv = acc@;
                    acc = mk_bin(acc, op, right);
                    proof {
                        assert(p_expr_more(t, i, accv) == p_expr_more(
                            t,
                            self.position as int,
                            acc@,
                        ));
                    }
                },
                Err(e) => {
                    proof {
                        assert(p_expr_more(t, i, acc@) == Err::<(NodeS, int), ParseError>(e));
                    }
                    return Err(e);
                },
            }
        }
        Ok(acc)
    }

    fn term(&mut self) -> (r: Result<Node, ParseError>)
        requires
            old(self).position <= old(self).tokens@.len(),
        ensures
            final(self).tokens == old(self).tokens,
            old(self).position <= final(self).position <= final(self).tokens@.len(),
            match r {
                Ok(n) => final(self).position > old(self).position && p_term(
                    old(self).toks(),
                    old(self).position as int,
                ) == Ok::<(NodeS, int), ParseError>((n@, final(self).position as int)),
                Err(e) => p_term(old(self).toks(), old(self).position as int) == Err::<
                    (NodeS, int),
                    ParseError,
                >(e),
            },
        decreases self.tokens@.len() - self.position, 3int,
    {
        let ghost t = self.toks();
        let ghost pos0 = self.position as int;
        let mut acc = match self.factor() {
            Ok(n) => n,
            Err(e) => {
                return Err(e);
            },
        };
        proof {
            assert(p_term(t, pos0) == p_term_more(t, self.position as int, acc@));
        }
        loop
            invariant
                self.tokens == old(self).tokens,
                t == self.toks(),
                pos0 == old(self).position as int,
                pos0 < self.position <= self.tokens@.len(),
                p_term(t, pos0) == p_term_more(t, self.position as int, acc@),
            ensures
                self.tokens == old(self).tokens,
                pos0 < self.position <= self.tokens@.len(),
                p_term(t, pos0) == Ok::<(NodeS, int), ParseError>((
                    acc@,
                    self.position as int,
                )),
            decreases self.tokens@.len() - self.position,
        {
            let ghost i = self.position as int;
            if self.position >= self.tokens.len() {
                proof {
                    assert(p_term_more(t, i, acc@) == Ok::<(NodeS, int), ParseError>((acc@, i)));
                }
                break;
            }
            let is_op = match &self.tokens[self.position] {
                Token::Mul => true,
                Token::Div => true,
                _ => false,
            };
            if !is_op {
                proof {
                    assert(p_term_more(t, i, acc@) == Ok::<(NodeS, int), ParseError>((acc@, i)));
                }
                break;
            }
            let op = to_string(&self.tokens[self.position]);
            self.position = self.position + 1;
            match self.factor() {
                Ok(right) => {
                    let ghost accv = acc@;
                    acc = mk_bin(acc, op, right);
                    proof {
                        assert(p_term_more(t, i, accv) == p_term_more(
                            t,
                            self.position as int,
                            acc@,
                        ));
                    }
                },
                Err(e) => {
                    proof {
                        assert(p_term_more(t, i, acc@) == Err::<(NodeS, int), ParseError>(e));
                    }
                    return Err(e);
                },
            }
        }
        Ok(acc)
    }

    fn factor(&mut self) -> (r: Result<Node, ParseError>)
        requires
            old(self).position <= old(self).tokens@.len(),
        ensures
            final(self).tokens == old(self).tokens,
            old(self).position <= final(self).position <= final(self).tokens@.len(),
            match r {
                Ok(n) => final(self).position > old(self).position && p_factor(
                    old(self).toks(),
                    old(self).position as int,
                ) == Ok::<(NodeS, int), ParseError>((n@, final(self).position as int)),
                Err(e) => p_factor(old(self).toks(), old(self).position as int) == Err::<
                    (NodeS, int),
                    ParseError,
                >(e),
            },
        decreases self.tokens@.len() - self.position, 2int,
    {
        let ghost t = self.toks();
        let ghost pos0 = self.position as int;
        if self.position < self.tokens.len() {
            let is_op = match &self.tokens[self.position] {
                Token::Add => true,
                Token::Sub => true,
                _ => false,
            };
            if is_op {
                let op = to_string(&self.tokens[self.position]);
                self.position = self.position + 1;
                return match self.factor() {
                    Ok(x) => {
                        let node = mk_un(op, x);
                        Ok(node)
                    },
                    Err(e) => Err(e),
                };
            }
        }
        self.power()
    }

    fn power(&mut self) -> (r: Result<Node, ParseError>)
        requires
            old(self).position <= old(self).tokens@.len(),
        ensures
            final(self).tokens == old(self).tokens,
            old(self).position <= final(self).position <= final(self).tokens@.len(),
            match r {
                Ok(n) => final(self).position > old(self).position && p_power(
                    old(self).toks(),
                    old(self).position as int,
                ) == Ok::<(NodeS, int), ParseError>((n@, final(self).position as int)),
                Err(e) => p_power(old(self).toks(), old(self).position as int) == Err::<
                    (NodeS, int),
                    ParseError,
                >(e),
            },
        decreases self.tokens@.len() - self.position, 1int,
    {
        let ghost t = self.toks();
        let ghost pos0 = self.position as int;
        let base = match self.atom() {
            Ok(n) => n,
            Err(e) => {
                return Err(e);
            },
        };
        if self.position < self.tokens.len() {
            let is_pow = match &self.tokens[self.position] {
                Token::Pow => true,
                _ => false,
            };
            if is_pow {
                let op = to_string(&self.tokens[self.position]);
                self.position = self.position + 1;
                return match self.power() {
                    Ok(exp) => {
                        let node = mk_bin(base, op, exp);
                        Ok(node)
                    },
                    Err(e) => Err(e),
                };
            }
        }
        Ok(base)
    }

    fn atom(&mut self) -> (r: Result<Node, ParseError>)
        requires
            old(self).position <= old(self).tokens@.len(),
        ensures
            final(self).tokens == old(self).tokens,
            old(self).position <= final(self).position <= final(self).tokens@.len(),
            match r {
                Ok(n) => final(self).position > old(self).position && p_atom(
                    old(self).toks(),
                    old(self).position as int,
                ) == Ok::<(NodeS, int), ParseError>((n@, final(self).position as int)),
                Err(e) => p_atom(old(self).toks(), old(self).position as int) == Err::<
                    (NodeS, int),
                    ParseError,
                >(e),
            },
        decreases self.tokens@.len() - self.position, 0int,
    {
        let ghost t = self.toks();
        let ghost pos0 = self.position as int;
        if self.position >= self.tokens.len() {
            return Err(ParseError::UnexpectedEndOfInput);
        }
        let kind: u8 = match &self.tokens[self.position] {
            Token::Int(_) => 0,
            Token::Float(_) => 1,
            Token::LParen => 2,
            Token::EOF => 3,
            _ => 4,
        };
        if kind == 0 || kind == 1 {
            let text = to_string(&self.tokens[self.position]);
            let name = if kind == 0 {
                String::from_str("Int")
            } else {
                String::from_str("Float")
            };
            let mut node = Node::new(name);
            node.add_child(NodeType::Text(text));
            self.position = self.position + 1;
            proof {
                if kind == 0 {
                    assert(node@.children =~= int_node(t[pos0]->Int_0 as int).children);
                } else {
                    assert(node@.children =~= float_node(t[pos0]->Float_0).children);
                }
            }
            Ok(node)
        } else if kind == 2 {
            self.position = self.position + 1;
            match self.expr() {
                Ok(n) => {
                    if self.position < self.tokens.len() {
                        let is_close = match &self.tokens[self.position] {
                            Token::RParen => true,
                            _ => false,
                        };
                        if is_close {
                            self.position = self.position + 1;
                            return Ok(n);
                        }
                    }
                    Err(ParseError::ExpectedCloseParen)
                },
                Err(e) => Err(e),
            }
        } else if kind == 3 {
            Err(ParseError::UnexpectedEndOfInput)
        } else {
            Err(ParseError::ExpectedAtom)
        }
    }
}

/// Every tree a grammar rule derives is well-formed.
proof fn lemma_p_atom_wf(t: Seq<TokenS>, i: int)
    ensures
        (p_atom(t, i) matches Ok(p) ==> wf_node(p.0)),
    decreases t.len() - i, 0int,
{
    crate::ast::lemma_kind_names_distinct();
    if i < t.len() {
        match t[i] {
            TokenS::Int(v) => {
                crate::ast::lemma_int_string_lit(v);
            },
            TokenS::LParen => {
                lemma_p_expr_wf(t, i + 1);
            },
            _ => {},
        }
    }
}

proof fn lemma_p_power_wf(t: Seq<TokenS>, i: int)
    ensures
        (p_power(t, i) matches Ok(p) ==> wf_node(p.0)),
    decreases t.len() - i, 1int,
{
    crate::ast::lemma_kind_names_distinct();
    lemma_p_atom_wf(t, i);
    match p_atom(t, i) {
        Ok((base, j)) => {
            if i < j <= t.len() && j < t.len() && t[j] is Pow {
                lemma_p_power_wf(t, j + 1);
            }
        },
        Err(_) => {},
    }
}

proof fn lemma_p_factor_wf(t: Seq<TokenS>, i: int)
    ensures
        (p_factor(t, i) matches Ok(p) ==> wf_node(p.0)),
    decreases t.len() - i, 2int,
{
    crate::ast::lemma_kind_names_distinct();
    if i < t.len() && (t[i] is Add || t[i] is Sub) {
        lemma_p_factor_wf(t, i + 1);
    } else {
        lemma_p_power_wf(t, i);
    }
}

proof fn lemma_p_term_more_wf(t: Seq<TokenS>, i: int, left: NodeS)
    requires
        wf_node(left),
    ensures
        (p_term_more(t, i, left) matches Ok(p) ==> wf_node(p.0)),
    decreases t.len() - i, 0int,
{
    crate::ast::lemma_kind_names_distinct();
    if i < t.len() && (t[i] is Mul || t[i] is Div) {
        lemma_p_factor_wf(t, i + 1);
        match p_factor(t, i + 1) {
            Ok((right, j)) => {
                if i + 1 < j <= t.len() {
                    lemma_p_term_more_wf(t, j, bin_node(left, spec_token_text(t[i]), right));
                }
            },
            Err(_) => {},
        }
    }
}

proof fn lemma_p_term_wf(t: Seq<TokenS>, i: int)
    ensures
        (p_term(t, i) matches Ok(p) ==> wf_node(p.0)),
    decreases t.len() - i, 3int,
{
    lemma_p_factor_wf(t, i);
    match p_factor(t, i) {
        Ok((left, j)) => {
            if i < j <= t.len() {
                lemma_p_term_more_wf(t, j, left);
            }
        },
        Err(_) => {},
    }
}

proof fn lemma_p_expr_more_wf(t: Seq<TokenS>, i: int, left: NodeS)
    requires
        wf_node(left),
    ensures
        (p_expr_more(t, i, left) matches Ok(p) ==> wf_node(p.0)),
    decreases t.len() - i, 0int,
{
    crate::ast::lemma_kind_names_distinct();
    if i < t.len() && (t[i] is Add || t[i] is Sub) {
        lemma_p_term_wf(t, i + 1);
        match p_term(t, i + 1) {
            Ok((right, j)) => {
                if i + 1 < j <= t.len() {
                    lemma_p_expr_more_wf(t, j, bin_node(left, spec_token_text(t[i]), right));
                }
            },
            Err(_) => {},
        }
    }
}

/// The tree of a successful parse is well-formed.
pub proof fn lemma_p_expr_wf(t: Seq<TokenS>, i: int)
    ensures
        (p_expr(t, i) matches Ok(p) ==> wf_node(p.0)),
    decreases t.len() - i, 4int,
{
    lemma_p_term_wf(t, i);
    match p_term(t, i) {
        Ok((left, j)) => {
            if i < j <= t.len() {
                lemma_p_expr_more_wf(t, j, left);
            }
        },
        Err(_) => {},
    }
}

} // verus!
