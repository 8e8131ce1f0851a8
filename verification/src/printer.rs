//! The canonical re-print of a tree: every operand fully parenthesized, so
//! that re-lexing and re-parsing the text rebuilds the same tree.

use vstd::prelude::*;

use crate::ast::{lemma_children_view, lemma_kind_names_distinct, wf_node, Node, NodeS, NodeType};

verus! {

broadcast use
    vstd::std_specs::vec::group_vec_axioms,
    vstd::seq::axiom_seq_index_decreases,
    vstd::seq::axiom_seq_subrange_decreases,
;

/// The symbol character of an operator tag.
pub open spec fn op_sym(op: Seq<char>) -> Seq<char> {
    if op == "Add"@ {
        "+"@
    } else if op == "Sub"@ {
        "-"@
    } else if op == "Mul"@ {
        "*"@
    } else if op == "Div"@ {
        "/"@
    } else {
        "^"@
    }
}

/// The canonical text of a tree: a literal's own text, and each operand
/// wrapped in parentheses.
pub open spec fn spec_print(n: NodeS) -> Seq<char>
    decreases n,
{
    if n.name == "Int"@ || n.name == "Float"@ {
        if n.children.len() == 1 {
            match n.children[0] {
                crate::ast::NodeTypeS::Text(t) => t,
                crate::ast::NodeTypeS::Node(_) => Seq::empty(),
            }
        } else {
            Seq::empty()
        }
    } else if n.name == "BinOp"@ {
        if n.children.len() == 3 {
            match (n.children[0], n.children[1], n.children[2]) {
                (
                    crate::ast::NodeTypeS::Node(l),
                    crate::ast::NodeTypeS::Text(op),
                    crate::ast::NodeTypeS::Node(r),
                ) => "("@ + spec_print(l) + ")"@ + op_sym(op) + "("@ + spec_print(r) + ")"@,
                _ => Seq::empty(),
            }
        } else {
            Seq::empty()
        }
    } else if n.name == "UnaryOp"@ {
        if n.children.len() == 2 {
            match (n.children[0], n.children[1]) {
                (crate::ast::NodeTypeS::Text(op), crate::ast::NodeTypeS::Node(x)) => op_sym(op)
                    + "("@ + spec_print(x) + ")"@,
                _ => Seq::empty(),
            }
        } else {
            Seq::empty()
        }
    } else {
        Seq::empty()
    }
}

/// The symbol of an operator tag.
fn op_sym_exec(op: &String) -> (r: &'static str)
    ensures
        r@ == op_sym(op@),
{
    if op.eq(&String::from_str("Add")) {
        "+"
    } else if op.eq(&String::from_str("Sub")) {
        "-"
    } else if op.eq(&String::from_str("Mul")) {
        "*"
    } else if op.eq(&String::from_str("Div")) {
        "/"
    } else {
        "^"
    }
}

/// Appends the canonical text of one well-formed tree.
fn print_into(out: &mut String, ast: &Node)
    requires
        wf_node(ast@),
    ensures
        final(out)@ == old(out)@ + spec_print(ast@),
    decreases *ast,
{
    proof {
        lemma_children_view(ast.children@);
        lemma_kind_names_distinct();
    }
    let ghost pre = out@;
    let is_leaf = ast.name.eq(&String::from_str("Int")) || ast.name.eq(
        &String::from_str("Float"),
    );
    if is_leaf {
        match &ast.children[0] {
            NodeType::Text(s) => {
                out.append(s.as_str());
            },
            NodeType::Node(_) => {
                proof {
                    assert(false);
                }
            },
        }
    } else if ast.name.eq(&String::from_str("BinOp")) {
        match (&ast.children[0], &ast.children[1], &ast.children[2]) {
            (NodeType::Node(l), NodeType::Text(op), NodeType::Node(r)) => {
                out.append("(");
                print_into(out, l);
                out.append(")");
                out.append(op_sym_exec(op));
                out.append("(");
                print_into(out, r);
                out.append(")");
                proof {
                    assert(out@ =~= pre + spec_print(ast@));
                }
            },
            _ => {
                proof {
                    assert(false);
                }
            },
        }
    } else if ast.name.eq(&String::from_str("UnaryOp")) {
        match (&ast.children[0], &ast.children[1]) {
            (NodeType::Text(op), NodeType::Node(x)) => {
                out.append(op_sym_exec(op));
                out.append("(");
                print_into(out, x);
                out.append(")");
                proof {
                    assert(out@ =~= pre + spec_print(ast@));
                }
            },
            _ => {
                proof {
                    assert(false);
                }
            },
        }
    } else {
        proof {
            assert(false);
        }
    }
}

/// The canonical text of one well-formed tree.
pub fn print_node(ast: &Node) -> (r: String)
    requires
        wf_node(ast@),
    ensures
        r@ == spec_print(ast@),
{
    let mut out = String::new();
    print_into(&mut out, ast);
    proof {
        assert(Seq::<char>::empty() + spec_print(ast@) =~= spec_print(ast@));
    }
    out
}

} // verus!
