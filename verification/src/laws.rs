//! The round-trip law: re-parsing the canonical re-print of a tree yields
//! a structurally equal tree.  The re-print is stated here at the token
//! level — the token sequence the canonical text lexes to — with every
//! operand fully parenthesized, as the printer writes it.

use vstd::prelude::*;

use crate::ast::{int_lit_val, wf_node, NodeS, NodeTypeS};
use crate::parser::{
    bin_node, float_node, int_node, p_atom, p_expr, p_expr_more, p_factor, p_power, p_term,
    p_term_more, un_node, ParseError,
};
use crate::bytecode::{ByteCodeS, RuntimeError, UnaryOpCode, Value};
use crate::compiler::{bin_code_of, spec_compile, un_code_of};
use crate::token::{spec_int_string, spec_token_text, TokenS};
use crate::vm::{int_bin, pow_checked, push_state, spec_run, RunResS, VmS};

verus! {

broadcast use
    vstd::seq::axiom_seq_index_decreases,
    vstd::seq::axiom_seq_subrange_decreases,
;

/// The token of an operator tag.
pub open spec fn op_token(op: Seq<char>) -> TokenS {
    if op == "Add"@ {
        TokenS::Add
    } else if op == "Sub"@ {
        TokenS::Sub
    } else if op == "Mul"@ {
        TokenS::Mul
    } else if op == "Div"@ {
        TokenS::Div
    } else {
        TokenS::Pow
    }
}

/// The canonical token re-print of a tree: a literal becomes its token,
/// and every operand is wrapped in parentheses.
pub open spec fn print_toks(n: NodeS) -> Seq<TokenS>
    decreases n,
{
    if n.name == "Int"@ {
        if n.children.len() == 1 {
            match n.children[0] {
                NodeTypeS::Text(t) => seq![TokenS::Int(int_lit_val(t) as i64)],
                NodeTypeS::Node(_) => Seq::empty(),
            }
        } else {
            Seq::empty()
        }
    } else if n.name == "Float"@ {
        if n.children.len() == 1 {
            match n.children[0] {
                NodeTypeS::Text(t) => seq![TokenS::Float(t)],
                NodeTypeS::Node(_) => Seq::empty(),
            }
        } else {
            Seq::empty()
        }
    } else if n.name == "BinOp"@ {
        if n.children.len() == 3 {
            match (n.children[0], n.children[1], n.children[2]) {
                (NodeTypeS::Node(l), NodeTypeS::Text(op), NodeTypeS::Node(r)) => seq![
                    TokenS::LParen,
                ] + print_toks(l) + seq![TokenS::RParen, op_token(op), TokenS::LParen]
                    + print_toks(r) + seq![TokenS::RParen],
                _ => Seq::empty(),
            }
        } else {
            Seq::empty()
        }
    } else if n.name == "UnaryOp"@ {
        if n.children.len() == 2 {
            match (n.children[0], n.children[1]) {
                (NodeTypeS::Text(op), NodeTypeS::Node(x)) => seq![op_token(op), TokenS::LParen]
                    + print_toks(x) + seq![TokenS::RParen],
                _ => Seq::empty(),
            }
        } else {
            Seq::empty()
        }
    } else {
        Seq::empty()
    }
}

/// An integer leaf's text is the canonical string of its value (no extra
/// leading zeros), everywhere in the tree.  The parser only builds such
/// trees.
pub open spec fn canonical(n: NodeS) -> bool
    decreases n,
{
    if n.name == "Int"@ {
        n.children.len() == 1 && match n.children[0] {
            NodeTypeS::Text(t) => t == spec_int_string(int_lit_val(t)),
            NodeTypeS::Node(_) => false,
        }
    } else if n.name == "BinOp"@ {
        n.children.len() == 3 && match (n.children[0], n.children[2]) {
            (NodeTypeS::Node(l), NodeTypeS::Node(r)) => canonical(l) && canonical(r),
            _ => false,
        }
    } else if n.name == "UnaryOp"@ {
        n.children.len() == 2 && match n.children[1] {
            NodeTypeS::Node(x) => canonical(x),
            _ => false,
        }
    } else {
        true
    }
}

/// A token that continues a fold at some precedence level.
pub open spec fn is_op_tok(t: TokenS) -> bool {
    t is Add || t is Sub || t is Mul || t is Div || t is Pow
}

/// A parenthesized re-print parses as one atom: the wrapped tree itself,
/// ending just past its closing parenthesis.
proof fn lemma_paren_child(t: Seq<TokenS>, i: int, c: NodeS)
    requires
        wf_node(c),
        canonical(c),
        0 <= i,
        i + 2 + print_toks(c).len() <= t.len(),
        t[i] == TokenS::LParen,
        forall|k: int| 0 <= k < print_toks(c).len() ==> t[i + 1 + k] == #[trigger] print_toks(c)[k],
        t[i + 1 + print_toks(c).len()] == TokenS::RParen,
    ensures
        p_atom(t, i) == Ok::<(NodeS, int), ParseError>((c, i + 2 + print_toks(c).len())),
    decreases c, 2int,
{
    lemma_print_parses(t, i + 1, c);
    let j = i + 1 + print_toks(c).len();
    assert(p_expr(t, i + 1) == Ok::<(NodeS, int), ParseError>((c, j)));
    assert(j < t.len() && t[j] is RParen);
}

/// Re-parsing a canonical re-print yields the same tree, whenever the
/// token after the segment is not an operator.
proof fn lemma_print_parses(t: Seq<TokenS>, i: int, n: NodeS)
    requires
        wf_node(n),
        canonical(n),
        0 <= i,
        i + print_toks(n).len() < t.len(),
        forall|k: int| 0 <= k < print_toks(n).len() ==> t[i + k] == #[trigger] print_toks(n)[k],
        !is_op_tok(t[i + print_toks(n).len()]),
    ensures
        p_expr(t, i) == Ok::<(NodeS, int), ParseError>((n, i + print_toks(n).len())),
    decreases n, 1int,
{
    crate::ast::lemma_kind_names_distinct();
    if n.name == "Int"@ || n.name == "Float"@ {
        lemma_print_parses_leaf(t, i, n);
    } else if n.name == "BinOp"@ {
        lemma_print_parses_bin(t, i, n);
    } else {
        lemma_print_parses_un(t, i, n);
    }
}

/// The leaf case: one literal token.
#[verifier::rlimit(100)]
proof fn lemma_print_parses_leaf(t: Seq<TokenS>, i: int, n: NodeS)
    requires
        wf_node(n),
        canonical(n),
        n.name == "Int"@ || n.name == "Float"@,
        0 <= i,
        i + print_toks(n).len() < t.len(),
        forall|k: int| 0 <= k < print_toks(n).len() ==> t[i + k] == #[trigger] print_toks(n)[k],
        !is_op_tok(t[i + print_toks(n).len()]),
    ensures
        p_expr(t, i) == Ok::<(NodeS, int), ParseError>((n, i + print_toks(n).len())),
    decreases n, 0int,
{
    crate::ast::lemma_kind_names_distinct();
    let p = print_toks(n);
    let end = i + p.len();
    let txt = n.children[0]->Text_0;
    assert(t[i + 0] == p[0]);
    if n.name == "Int"@ {
        if txt.len() > 0 && txt[0] == '-' {
            crate::compiler::lemma_digits_val_nonneg(txt.subrange(1, txt.len() as int));
        } else {
            crate::compiler::lemma_digits_val_nonneg(txt);
        }
        let v = int_lit_val(txt) as i64;
        assert(t[i] == TokenS::Int(v));
        assert(p_atom(t, i) == Ok::<(NodeS, int), ParseError>((int_node(v as int), i + 1)));
        assert(n.children.len() == 1);
        assert(n.children[0] == NodeTypeS::Text(txt));
        assert(v as int == int_lit_val(txt));
        assert(spec_int_string(v as int) == txt);
        assert(int_node(v as int).children.len() == 1);
        assert(int_node(v as int).children[0] == NodeTypeS::Text(txt));
        assert(int_node(v as int).name == n.name);
        assert(int_node(v as int).children =~= n.children);
        assert(int_node(v as int) =~= n);
    } else {
        assert(t[i] == TokenS::Float(txt));
        assert(p_atom(t, i) == Ok::<(NodeS, int), ParseError>((float_node(txt), i + 1)));
        assert(n.children.len() == 1);
        assert(n.children[0] is Text);
        assert(n.children[0] == NodeTypeS::Text(txt));
        assert(float_node(txt).children.len() == 1);
        assert(float_node(txt).children[0] == NodeTypeS::Text(txt));
        assert(float_node(txt).name == n.name);
        assert(float_node(txt).children =~= n.children);
        assert(float_node(txt) =~= n);
    }
    assert(p_atom(t, i) == Ok::<(NodeS, int), ParseError>((n, end)));
    assert(p_power(t, i) == Ok::<(NodeS, int), ParseError>((n, end)));
    assert(p_factor(t, i) == Ok::<(NodeS, int), ParseError>((n, end)));
    assert(p_term_more(t, end, n) == Ok::<(NodeS, int), ParseError>((n, end)));
    assert(p_term(t, i) == Ok::<(NodeS, int), ParseError>((n, end)));
    assert(p_expr_more(t, end, n) == Ok::<(NodeS, int), ParseError>((n, end)));
    assert(p_expr(t, i) == Ok::<(NodeS, int), ParseError>((n, end)));
}

/// The binary case: `( left ) op ( right )`.
#[verifier::rlimit(100)]
proof fn lemma_print_parses_bin(t: Seq<TokenS>, i: int, n: NodeS)
    requires
        wf_node(n),
        canonical(n),
        n.name == "BinOp"@,
        0 <= i,
        i + print_toks(n).len() < t.len(),
        forall|k: int| 0 <= k < print_toks(n).len() ==> t[i + k] == #[trigger] print_toks(n)[k],
        !is_op_tok(t[i + print_toks(n).len()]),
    ensures
        p_expr(t, i) == Ok::<(NodeS, int), ParseError>((n, i + print_toks(n).len())),
    decreases n, 0int,
{
    crate::ast::lemma_kind_names_distinct();
    crate::ast::lemma_op_names_distinct();
    let p = print_toks(n);
    let end = i + p.len();
    let l = n.children[0]->Node_0;
    let op = n.children[1]->Text_0;
    let r = n.children[2]->Node_0;
    let pl = print_toks(l);
    let pr = print_toks(r);
    assert(n.children.len() == 3);
    assert(n.children[0] == NodeTypeS::Node(l));
    assert(n.children[1] == NodeTypeS::Text(op));
    assert(n.children[2] == NodeTypeS::Node(r));
    assert(bin_node(l, op, r).children.len() == 3);
    assert(bin_node(l, op, r).children[0] == NodeTypeS::Node(l));
    assert(bin_node(l, op, r).children[1] == NodeTypeS::Text(op));
    assert(bin_node(l, op, r).children[2] == NodeTypeS::Node(r));
    assert(bin_node(l, op, r).name == n.name);
    assert(bin_node(l, op, r).children =~= n.children);
    assert(n =~= bin_node(l, op, r));
    assert(p.len() == 5 + pl.len() + pr.len());
    // the segment laid out
    assert(t[i + 0] == p[0] && p[0] == TokenS::LParen);
    assert forall|k: int| 0 <= k < pl.len() implies t[i + 1 + k] == pl[k] by {
        assert(p[1 + k] == pl[k]);
        assert(t[i + (1 + k)] == p[1 + k]);
    }
    let m = i + 1 + pl.len();
    assert(t[m] == p[1 + pl.len() as int] && p[1 + pl.len() as int] == TokenS::RParen);
    assert(t[m + 1] == p[2 + pl.len() as int] && p[2 + pl.len() as int] == op_token(op));
    assert(t[m + 2] == p[3 + pl.len() as int] && p[3 + pl.len() as int] == TokenS::LParen);
    assert forall|k: int| 0 <= k < pr.len() implies t[m + 3 + k] == pr[k] by {
        assert(p[4 + pl.len() + k] == pr[k]);
        assert(t[i + (4 + pl.len() + k)] == p[4 + pl.len() + k]);
    }
    assert(t[m + 3 + pr.len()] == p[4 + pl.len() + pr.len() as int] && p[4 + pl.len()
        + pr.len() as int] == TokenS::RParen);
    // "(l)" is one atom
    lemma_paren_child(t, i, l);
    let ml = m + 1;  // position of the operator token
    assert(p_atom(t, i) == Ok::<(NodeS, int), ParseError>((l, ml)));
    // "(r)" is one atom
    lemma_paren_child(t, m + 2, r);
    assert(p_atom(t, m + 2) == Ok::<(NodeS, int), ParseError>((r, end)));
    assert(spec_token_text(op_token(op)) == op);
    if op == "Pow"@ {
        assert(t[ml] is Pow);
        assert(p_power(t, m + 2) == Ok::<(NodeS, int), ParseError>((r, end)));
        assert(p_power(t, i) == Ok::<(NodeS, int), ParseError>((n, end)));
        assert(p_factor(t, i) == Ok::<(NodeS, int), ParseError>((n, end)));
        assert(p_term_more(t, end, n) == Ok::<(NodeS, int), ParseError>((n, end)));
        assert(p_term(t, i) == Ok::<(NodeS, int), ParseError>((n, end)));
        assert(p_expr_more(t, end, n) == Ok::<(NodeS, int), ParseError>((n, end)));
        assert(p_expr(t, i) == Ok::<(NodeS, int), ParseError>((n, end)));
    } else {
        assert(!(t[ml] is Pow));
        assert(p_power(t, i) == Ok::<(NodeS, int), ParseError>((l, ml)));
        assert(p_factor(t, i) == Ok::<(NodeS, int), ParseError>((l, ml)));
        assert(p_power(t, m + 2) == Ok::<(NodeS, int), ParseError>((r, end)));
        assert(p_factor(t, m + 2) == Ok::<(NodeS, int), ParseError>((r, end)));
        if op == "Mul"@ || op == "Div"@ {
            assert(t[ml] is Mul || t[ml] is Div);
            assert(p_term_more(t, end, n) == Ok::<(NodeS, int), ParseError>((n, end)));
            assert(p_term_more(t, ml, l) == Ok::<(NodeS, int), ParseError>((n, end)));
            assert(p_term(t, i) == Ok::<(NodeS, int), ParseError>((n, end)));
            assert(p_expr_more(t, end, n) == Ok::<(NodeS, int), ParseError>((n, end)));
            assert(p_expr(t, i) == Ok::<(NodeS, int), ParseError>((n, end)));
        } else {
            assert(op == "Add"@ || op == "Sub"@);
            assert(t[ml] is Add || t[ml] is Sub);
            assert(p_term_more(t, ml, l) == Ok::<(NodeS, int), ParseError>((l, ml)));
            assert(p_term(t, i) == Ok::<(NodeS, int), ParseError>((l, ml)));
            assert(p_term_more(t, end, r) == Ok::<(NodeS, int), ParseError>((r, end)));
            assert(p_term(t, ml + 1) == Ok::<(NodeS, int), ParseError>((r, end)));
            assert(p_expr_more(t, end, n) == Ok::<(NodeS, int), ParseError>((n, end)));
            assert(p_expr_more(t, ml, l) == Ok::<(NodeS, int), ParseError>((n, end)));
            assert(p_expr(t, i) == Ok::<(NodeS, int), ParseError>((n, end)));
        }
    }
}

/// The unary case: `op ( operand )`.
#[verifier::rlimit(100)]
proof fn lemma_print_parses_un(t: Seq<TokenS>, i: int, n: NodeS)
    requires
        wf_node(n),
        canonical(n),
        n.name == "UnaryOp"@,
        0 <= i,
        i + print_toks(n).len() < t.len(),
        forall|k: int| 0 <= k < print_toks(n).len() ==> t[i + k] == #[trigger] print_toks(n)[k],
        !is_op_tok(t[i + print_toks(n).len()]),
    ensures
        p_expr(t, i) == Ok::<(NodeS, int), ParseError>((n, i + print_toks(n).len())),
    decreases n, 0int,
{
    crate::ast::lemma_kind_names_distinct();
    crate::ast::lemma_op_names_distinct();
    let p = print_toks(n);
    let end = i + p.len();
    let op = n.children[0]->Text_0;
    let x = n.children[1]->Node_0;
    let px = print_toks(x);
    assert(n.children.len() == 2);
    assert(n.children[0] == NodeTypeS::Text(op));
    assert(n.children[1] == NodeTypeS::Node(x));
    assert(un_node(op, x).children.len() == 2);
    assert(un_node(op, x).children[0] == NodeTypeS::Text(op));
    assert(un_node(op, x).children[1] == NodeTypeS::Node(x));
    assert(un_node(op, x).name == n.name);
    assert(un_node(op, x).children =~= n.children);
    assert(n =~= un_node(op, x));
    assert(p.len() == 3 + px.len());
    assert(t[i + 0] == p[0] && p[0] == op_token(op));
    assert(t[i + 1] == p[1] && p[1] == TokenS::LParen);
    assert forall|k: int| 0 <= k < px.len() implies t[i + 2 + k] == px[k] by {
        assert(p[2 + k] == px[k]);
        assert(t[i + (2 + k)] == p[2 + k]);
    }
    assert(t[i + 2 + px.len()] == p[2 + px.len() as int] && p[2 + px.len() as int]
        == TokenS::RParen);
    assert(t[i] is Add || t[i] is Sub);
    lemma_paren_child(t, i + 1, x);
    assert(p_atom(t, i + 1) == Ok::<(NodeS, int), ParseError>((x, end)));
    assert(!(t[i + 1] is Add || t[i + 1] is Sub));
    assert(p_power(t, i + 1) == Ok::<(NodeS, int), ParseError>((x, end)));
    assert(p_factor(t, i + 1) == Ok::<(NodeS, int), ParseError>((x, end)));
    assert(spec_token_text(t[i]) == op);
    assert(p_factor(t, i) == Ok::<(NodeS, int), ParseError>((n, end)));
    assert(p_term_more(t, end, n) == Ok::<(NodeS, int), ParseError>((n, end)));
    assert(p_term(t, i) == Ok::<(NodeS, int), ParseError>((n, end)));
    assert(p_expr_more(t, end, n) == Ok::<(NodeS, int), ParseError>((n, end)));
    assert(p_expr(t, i) == Ok::<(NodeS, int), ParseError>((n, end)));
}

/// Round-trip law: for every well-formed tree whose integer leaves carry
/// canonical text — every tree the parser returns is such — re-parsing the
/// tree's canonical token re-print, terminated like a lexed line, yields a
/// structurally equal tree.
pub proof fn lemma_reprint_round_trip(n: NodeS)
    requires
        wf_node(n),
        canonical(n),
    ensures
        p_expr(print_toks(n).push(TokenS::EOF), 0) == Ok::<(NodeS, int), ParseError>((
            n,
            print_toks(n).len() as int,
        )),
{
    let t = print_toks(n).push(TokenS::EOF);
    assert forall|k: int| 0 <= k < print_toks(n).len() implies t[0 + k] == print_toks(n)[k] by {
    }
    lemma_print_parses(t, 0, n);
}

/// The parser's own output is canonical, so the round-trip law applies to
/// every tree it returns.
pub proof fn lemma_parser_output_canonical(t: Seq<TokenS>, i: int)
    ensures
        (p_expr(t, i) matches Ok(p) ==> canonical(p.0)),
    decreases t.len() - i, 6int,
{
    lemma_canon_term(t, i);
    match p_term(t, i) {
        Ok((left, j)) => {
            if i < j <= t.len() {
                lemma_canon_expr_more(t, j, left);
            }
        },
        Err(_) => {},
    }
}

proof fn lemma_canon_atom(t: Seq<TokenS>, i: int)
    ensures
        (p_atom(t, i) matches Ok(p) ==> canonical(p.0)),
    decreases t.len() - i, 0int,
{
    crate::ast::lemma_kind_names_distinct();
    if i < t.len() {
        match t[i] {
            TokenS::Int(v) => {
                crate::ast::lemma_int_string_lit(v);
            },
            TokenS::LParen => {
                lemma_parser_output_canonical(t, i + 1);
            },
            _ => {},
        }
    }
}

proof fn lemma_canon_power(t: Seq<TokenS>, i: int)
    ensures
        (p_power(t, i) matches Ok(p) ==> canonical(p.0)),
    decreases t.len() - i, 1int,
{
    crate::ast::lemma_kind_names_distinct();
    lemma_canon_atom(t, i);
    match p_atom(t, i) {
        Ok((base, j)) => {
            if i < j <= t.len() && j < t.len() && t[j] is Pow {
                lemma_canon_power(t, j + 1);
            }
        },
        Err(_) => {},
    }
}

proof fn lemma_canon_factor(t: Seq<TokenS>, i: int)
    ensures
        (p_factor(t, i) matches Ok(p) ==> canonical(p.0)),
    decreases t.len() - i, 2int,
{
    crate::ast::lemma_kind_names_distinct();
    if i < t.len() && (t[i] is Add || t[i] is Sub) {
        lemma_canon_factor(t, i + 1);
    } else {
        lemma_canon_power(t, i);
    }
}

proof fn lemma_canon_term_more(t: Seq<TokenS>, i: int, left: NodeS)
    requires
        canonical(left),
    ensures
        (p_term_more(t, i, left) matches Ok(p) ==> canonical(p.0)),
    decreases t.len() - i, 0int,
{
    crate::ast::lemma_kind_names_distinct();
    if i < t.len() && (t[i] is Mul || t[i] is Div) {
        lemma_canon_factor(t, i + 1);
        match p_factor(t, i + 1) {
            Ok((right, j)) => {
                if i + 1 < j <= t.len() {
                    lemma_canon_term_more(t, j, bin_node(left, spec_token_text(t[i]), right));
                }
            },
            Err(_) => {},
        }
    }
}

proof fn lemma_canon_term(t: Seq<TokenS>, i: int)
    ensures
        (p_term(t, i) matches Ok(p) ==> canonical(p.0)),
    decreases t.len() - i, 3int,
{
    lemma_canon_factor(t, i);
    match p_factor(t, i) {
        Ok((left, j)) => {
            if i < j <= t.len() {
                lemma_canon_term_more(t, j, left);
            }
        },
        Err(_) => {},
    }
}

proof fn lemma_canon_expr_more(t: Seq<TokenS>, i: int, left: NodeS)
    requires
        canonical(left),
    ensures
        (p_expr_more(t, i, left) matches Ok(p) ==> canonical(p.0)),
    decreases t.len() - i, 0int,
{
    crate::ast::lemma_kind_names_distinct();
    if i < t.len() && (t[i] is Add || t[i] is Sub) {
        lemma_canon_term(t, i + 1);
        match p_term(t, i + 1) {
            Ok((right, j)) => {
                if i + 1 < j <= t.len() {
                    lemma_canon_expr_more(t, j, bin_node(left, spec_token_text(t[i]), right));
                }
            },
            Err(_) => {},
        }
    }
}

} // verus!
