//! Compilation: a post-order traversal of the tree emits stack-machine
//! instructions, operands before the operator that consumes them.

use vstd::prelude::*;

use crate::ast::{
    int_lit_val, is_int_lit, lemma_children_view, lemma_kind_names_distinct, wf_node, Node, NodeS,
    NodeType, NodeTypeS,
};
use crate::bytecode::{BinOpCode, ByteCode, ByteCodeS, ByteCodes, UnaryOpCode};
use crate::token::{all_digits, digit_of, digits_val, is_digit};

verus! {

broadcast use
    vstd::std_specs::vec::group_vec_axioms,
    vstd::seq::axiom_seq_index_decreases,
    vstd::seq::axiom_seq_subrange_decreases,
;

/// The operator code of a binary operator tag.
pub open spec fn bin_code_of(op: Seq<char>) -> BinOpCode {
    if op == "Add"@ {
        BinOpCode::Add
    } else if op == "Sub"@ {
        BinOpCode::Sub
    } else if op == "Mul"@ {
        BinOpCode::Mul
    } else if op == "Div"@ {
        BinOpCode::Div
    } else {
        BinOpCode::Pow
    }
}

/// The operator code of a unary operator tag: textual plus is identity,
/// textual minus is negation.
pub open spec fn un_code_of(op: Seq<char>) -> UnaryOpCode {
    if op == "Add"@ {
        UnaryOpCode::Identity
    } else {
        UnaryOpCode::Negate
    }
}

/// The instructions a tree compiles to: a push for each leaf, and each
/// operator after its operands.
pub open spec fn spec_compile(n: NodeS) -> Seq<ByteCodeS>
    decreases n,
{
    if n.name == "Int"@ {
        if n.children.len() == 1 {
            match n.children[0] {
                NodeTypeS::Text(t) => seq![ByteCodeS::PUSHI(int_lit_val(t) as i64)],
                NodeTypeS::Node(_) => Seq::empty(),
            }
        } else {
            Seq::empty()
        }
    } else if n.name == "Float"@ {
        if n.children.len() == 1 {
            match n.children[0] {
                NodeTypeS::Text(t) => seq![ByteCodeS::PUSHF(t)],
                NodeTypeS::Node(_) => Seq::empty(),
            }
        } else {
            Seq::empty()
        }
    } else if n.name == "BinOp"@ {
        if n.children.len() == 3 {
            match (n.children[0], n.children[1], n.children[2]) {
                (NodeTypeS::Node(l), NodeTypeS::Text(op), NodeTypeS::Node(r)) => spec_compile(l)
                    + spec_compile(r) + seq![ByteCodeS::BINOP(bin_code_of(op))],
                _ => Seq::empty(),
            }
        } else {
            Seq::empty()
        }
    } else if n.name == "UnaryOp"@ {
        if n.children.len() == 2 {
            match (n.children[0], n.children[1]) {
                (NodeTypeS::Text(op), NodeTypeS::Node(x)) => spec_compile(x) + seq![
                    ByteCodeS::UNARYOP(un_code_of(op)),
                ],
                _ => Seq::empty(),
            }
        } else {
            Seq::empty()
        }
    } else {
        Seq::empty()
    }
}

/// A digit string's value is never negative.
pub proof fn lemma_digits_val_nonneg(s: Seq<char>)
    requires
        all_digits(s),
    ensures
        digits_val(s) >= 0,
    decreases s.len(),
{
    if s.len() > 0 {
        assert(all_digits(s.drop_last())) by {
            assert(forall|i: int|
                0 <= i < s.len() - 1 ==> s.drop_last()[i] == #[trigger] s[i]);
        }
        lemma_digits_val_nonneg(s.drop_last());
        assert(is_digit(s.last()));
    }
}

/// A digit string's prefixes never exceed the whole string's value.
pub proof fn lemma_digits_val_prefix(s: Seq<char>, k: int)
    requires
        all_digits(s),
        0 <= k <= s.len(),
    ensures
        0 <= digits_val(s.take(k)) <= digits_val(s),
    decreases s.len() - k,
{
    assert(all_digits(s.take(k))) by {
        assert(forall|i: int| 0 <= i < k ==> s.take(k)[i] == #[trigger] s[i]);
    }
    lemma_digits_val_nonneg(s.take(k));
    if k == s.len() {
        assert(s.take(k) =~= s);
    } else {
        assert(s.take(k + 1).drop_last() =~= s.take(k));
        assert(s.take(k + 1).last() == s[k]);
        assert(digits_val(s.take(k + 1)) == digits_val(s.take(k)) * 10 + digit_of(s[k]));
        assert(is_digit(s[k]));
        lemma_digits_val_prefix(s, k + 1);
    }
}

/// The value an integer literal denotes, by a left-to-right digit scan.
/// The literal shape guarantees the accumulator never overflows.
pub fn parse_int_lit(s: &String) -> (r: i64)
    requires
        is_int_lit(s@),
    ensures
        r as int == int_lit_val(s@),
{
    let n = s.as_str().unicode_len();
    let neg = s.as_str().get_char(0) == '-';
    let start: usize = if neg {
        1
    } else {
        0
    };
    let ghost digits: Seq<char> = if neg {
        s@.subrange(1, s@.len() as int)
    } else {
        s@
    };
    let mut acc: u64 = 0;
    let mut i: usize = start;
    proof {
        assert(digits.take(0) =~= Seq::<char>::empty());
        lemma_digits_val_prefix(digits, 0);
    }
    while i < n
        invariant
            is_int_lit(s@),
            n == s@.len(),
            neg == (s@[0] == '-'),
            start == (if neg {
                1usize
            } else {
                0usize
            }),
            digits == (if neg {
                s@.subrange(1, s@.len() as int)
            } else {
                s@
            }),
            start <= i <= n,
            acc as int == digits_val(digits.take(i - start)),
            acc <= 0x8000_0000_0000_0000u64,
        decreases n - i,
    {
        let c = s.as_str().get_char(i);
        proof {
            assert(digits[i - start] == s@[i as int]);
            assert(is_digit(c));
            assert(digits.take(i + 1 - start).drop_last() =~= digits.take(i - start));
            assert(digits.take(i + 1 - start).last() == digits[i - start]);
            lemma_digits_val_prefix(digits, i + 1 - start);
            assert(digits.take(digits.len() as int) =~= digits);
        }
        let d = (c as u32 - '0' as u32) as u64;
        acc = acc * 10 + d;
        i = i + 1;
    }
    proof {
        assert(digits.take(n - start) =~= digits);
    }
    if neg {
        if acc == 0x8000_0000_0000_0000u64 {
            i64::MIN
        } else {
            -(acc as i64)
        }
    } else {
        acc as i64
    }
}

/// The binary operator code of an operator tag.
fn bin_code(op: &String) -> (r: BinOpCode)
    ensures
        r == bin_code_of(op@),
{
    if op.eq(&String::from_str("Add")) {
        BinOpCode::Add
    } else if op.eq(&String::from_str("Sub")) {
        BinOpCode::Sub
    } else if op.eq(&String::from_str("Mul")) {
        BinOpCode::Mul
    } else if op.eq(&String::from_str("Div")) {
        BinOpCode::Div
    } else {
        BinOpCode::Pow
    }
}

/// The unary operator code of an operator tag.
fn un_code(op: &String) -> (r: UnaryOpCode)
    ensures
        r == un_code_of(op@),
{
    if op.eq(&String::from_str("Add")) {
        UnaryOpCode::Identity
    } else {
        UnaryOpCode::Negate
    }
}

/// Appends the instructions of one subtree: operands first, then the
/// operator that consumes them.
fn emit(b: &mut ByteCodes, ast: &Node)
    requires
        wf_node(ast@),
    ensures
        final(b)@ == old(b)@ + spec_compile(ast@),
    decreases *ast,
{
    proof {
        lemma_children_view(ast.children@);
        lemma_kind_names_distinct();
    }
    let ghost pre = b@;
    if ast.name.eq(&String::from_str("Int")) {
        match &ast.children[0] {
            NodeType::Text(s) => {
                let v = parse_int_lit(s);
                b.add_code(ByteCode::PUSHI(v));
                proof {
                    assert(b@ =~= pre + spec_compile(ast@));
                }
            },
            NodeType::Node(_) => {
                proof {
                    assert(false);
                }
            },
        }
    } else if ast.name.eq(&String::from_str("Float")) {
        match &ast.children[0] {
            NodeType::Text(s) => {
                b.add_code(ByteCode::PUSHF(s.clone()));
                proof {
                    assert(b@ =~= pre + spec_compile(ast@));
                }
            },
            NodeType::Node(_) => {
                proof {
                    assert(false);
                }
            },
        }
    } else if ast.name.eq(&String::from_str("BinOp")) {
        match (&ast.children[0], &ast.children[1], &ast.children[2]) {
            (NodeType::Node(l), NodeType::Text(op), NodeType::Node(r)) => {
                emit(b, l);
                emit(b, r);
                b.add_code(ByteCode::BINOP(bin_code(op)));
                proof {
                    assert(b@ =~= pre + spec_compile(ast@));
                }
            },
            _ => {
                proof {
                    assert(false);
                }
            },
        }
    } else if ast.name.eq(&String::from_str("UnaryOp")) {
        match (&ast.children[0], &ast.children[1]) {
            (NodeType::Text(op), NodeType::Node(x)) => {
                emit(b, x);
                b.add_code(ByteCode::UNARYOP(un_code(op)));
                proof {
                    assert(b@ =~= pre + spec_compile(ast@));
                }
            },
            _ => {
                proof {
                    assert(false);
                }
            },
        }
    } else {
        proof {
            assert(false);
        }
    }
}

/// The compiler: an instruction list filled by tree traversal.
pub struct Dis {
    pub b: ByteCodes,
}

impl Dis {
    /// A compiler with an empty instruction list.
    pub fn new() -> (r: Dis)
        ensures
            r.b@ == Seq::<ByteCodeS>::empty(),
    {
        Dis { b: ByteCodes::new() }
    }

    /// Appends the instructions of one well-formed tree.
    pub fn dis(&mut self, asts: &Node)
        requires
            wf_node(asts@),
        ensures
            final(self).b@ == old(self).b@ + spec_compile(asts@),
    {
        emit(&mut self.b, asts);
    }

    /// Hands the instruction list over.
    pub fn take(self) -> (r: ByteCodes)
        ensures
            r@ == self.b@,
    {
        self.b
    }
}

/// The instructions of one well-formed tree.
pub fn compile(ast: &Node) -> (r: ByteCodes)
    requires
        wf_node(ast@),
    ensures
        r@ == spec_compile(ast@),
{
    let mut d = Dis::new();
    d.dis(ast);
    proof {
        assert(Seq::<ByteCodeS>::empty() + spec_compile(ast@) =~= spec_compile(ast@));
    }
    d.take()
}

} // verus!
