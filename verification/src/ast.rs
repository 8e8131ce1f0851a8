//! The abstract syntax tree: a kind tag plus an ordered list of children,
//! each child either a text payload or a nested node.

use vstd::prelude::*;

use crate::token::{
    all_digits, digit_char, digit_of, digits_val, is_digit, spec_int_string, spec_nat_string,
};

verus! {

broadcast use
    vstd::std_specs::vec::group_vec_axioms,
    vstd::seq::axiom_seq_index_decreases,
    vstd::seq::axiom_seq_subrange_decreases,
;

/// One child of a syntax-tree node: a text payload (a literal's textual
/// form or an operator tag) or a nested node.
#[derive(PartialEq, Debug)]
pub enum NodeType {
    Text(String),
    Node(Node),
}

/// A syntax-tree node: a kind tag (`"Int"`, `"Float"`, `"BinOp"` or
/// `"UnaryOp"`) and its children.
#[derive(PartialEq, Debug)]
pub struct Node {
    pub name: String,
    pub children: Vec<NodeType>,
}

/// The mathematical model of a child.
#[verifier::ext_equal]
pub enum NodeTypeS {
    Text(Seq<char>),
    Node(NodeS),
}

/// The mathematical model of a node.
#[verifier::ext_equal]
pub struct NodeS {
    pub name: Seq<char>,
    pub children: Seq<NodeTypeS>,
}

pub open spec fn nt_view(nt: NodeType) -> NodeTypeS
    decreases nt,
{
    match nt {
        NodeType::Text(s) => NodeTypeS::Text(s@),
        NodeType::Node(n) => NodeTypeS::Node(node_view(n)),
    }
}

pub open spec fn children_view(s: Seq<NodeType>) -> Seq<NodeTypeS>
    decreases s,
{
    if s.len() == 0 {
        Seq::empty()
    } else {
        children_view(s.drop_last()).push(nt_view(s.last()))
    }
}

pub open spec fn node_view(n: Node) -> NodeS
    decreases n,
{
    NodeS { name: n.name@, children: children_view(n.children@) }
}

/// The children view is the element-wise view.
pub proof fn lemma_children_view(s: Seq<NodeType>)
    ensures
        children_view(s).len() == s.len(),
        forall|i: int| 0 <= i < s.len() ==> children_view(s)[i] == nt_view(#[trigger] s[i]),
    decreases s.len(),
{
    if s.len() > 0 {
        lemma_children_view(s.drop_last());
        assert forall|i: int| 0 <= i < s.len() implies children_view(s)[i] == nt_view(s[i]) by {
            if i < s.len() - 1 {
                assert(s.drop_last()[i] == s[i]);
                assert(children_view(s)[i] == children_view(s.drop_last())[i]);
            } else {
                assert(children_view(s)[i] == nt_view(s.last()));
            }
        }
    }
}

impl View for NodeType {
    type V = NodeTypeS;

    open spec fn view(&self) -> NodeTypeS {
        nt_view(*self)
    }
}

impl View for Node {
    type V = NodeS;

    open spec fn view(&self) -> NodeS {
        node_view(*self)
    }
}

impl NodeType {
    /// The text payload, or the empty string for a nested node.
    pub fn get_s(&self) -> (r: String)
        ensures
            r@ == (match self@ {
                NodeTypeS::Text(t) => t,
                NodeTypeS::Node(_) => Seq::<char>::empty(),
            }),
    {
        match self {
            NodeType::Text(s) => s.clone(),
            NodeType::Node(_) => String::new(),
        }
    }

    /// The nested node, or an empty unnamed node for a text payload.
    pub fn get_n(&self) -> (r: Node)
        ensures
            r@ == (match self@ {
                NodeTypeS::Node(n) => n,
                NodeTypeS::Text(_) => (NodeS { name: Seq::<char>::empty(), children: Seq::empty() }),
            }),
    {
        match self {
            NodeType::Text(_) => {
                let r = Node::new(String::new());
                r
            },
            NodeType::Node(n) => n.clone_node(),
        }
    }
}

impl Node {
    /// A childless node with the given kind tag.
    pub fn new(name: String) -> (r: Node)
        ensures
            r@ == (NodeS { name: name@, children: Seq::empty() }),
    {
        let r = Node { name, children: Vec::new() };
        proof {
            assert(r@.children =~= Seq::<NodeTypeS>::empty());
        }
        r
    }

    /// Appends one child.
    pub fn add_child(&mut self, child: NodeType)
        ensures
            final(self)@ == (NodeS {
                name: old(self)@.name,
                children: old(self)@.children.push(child@),
            }),
    {
        let ghost pre = *self;
        self.children.push(child);
        proof {
            assert(self.children@ == pre.children@.push(child));
            assert(self.children@.drop_last() =~= pre.children@);
            assert(self.children@.last() == child);
            assert(self@.children =~= pre@.children.push(child@));
        }
    }

    /// A structural copy of the whole subtree.
    pub fn clone_node(&self) -> (r: Node)
        ensures
            r@ == self@,
        decreases *self,
    {
        let mut children: Vec<NodeType> = Vec::new();
        let mut i: usize = 0;
        while i < self.children.len()
            invariant
                i <= self.children.len(),
                children.len() == i,
                forall|j: int| 0 <= j < i ==> #[trigger] children[j]@ == self.children[j]@,
            decreases self.children.len() - i,
        {
            let c = &self.children[i];
            let copy = match c {
                NodeType::Text(s) => NodeType::Text(s.clone()),
                NodeType::Node(n) => NodeType::Node(n.clone_node()),
            };
            children.push(copy);
            i = i + 1;
        }
        proof {
            lemma_children_view(children@);
            lemma_children_view(self.children@);
            assert forall|j: int|
                0 <= j < self.children@.len() implies children_view(children@)[j] == children_view(
                self.children@,
            )[j] by {
                assert(children_view(children@)[j] == nt_view(children@[j]));
                assert(children_view(self.children@)[j] == nt_view(self.children@[j]));
                assert(children[j]@ == self.children[j]@);
            }
            assert(children_view(children@) =~= children_view(self.children@));
        }
        let r = Node { name: self.name.clone(), children };
        r
    }
}

/// The decimal literal text of a value an `i64` can hold: digits, with an
/// optional leading minus sign.
pub open spec fn is_int_lit(s: Seq<char>) -> bool {
    if s.len() > 0 && s[0] == '-' {
        &&& s.len() > 1
        &&& all_digits(s.subrange(1, s.len() as int))
        &&& digits_val(s.subrange(1, s.len() as int)) <= 0x8000_0000_0000_0000
    } else {
        &&& s.len() > 0
        &&& all_digits(s)
        &&& digits_val(s) <= i64::MAX
    }
}

/// The value such a literal denotes.
pub open spec fn int_lit_val(s: Seq<char>) -> int {
    if s.len() > 0 && s[0] == '-' {
        -digits_val(s.subrange(1, s.len() as int))
    } else {
        digits_val(s)
    }
}

/// The operator tags a binary node may carry.
pub open spec fn is_bin_op_text(s: Seq<char>) -> bool {
    s == "Add"@ || s == "Sub"@ || s == "Mul"@ || s == "Div"@ || s == "Pow"@
}

/// The operator tags a unary node may carry.
pub open spec fn is_un_op_text(s: Seq<char>) -> bool {
    s == "Add"@ || s == "Sub"@
}

/// The canonical digit string of a non-negative value is all digits and
/// denotes that value.
pub proof fn lemma_nat_string_digits(n: int)
    requires
        n >= 0,
    ensures
        spec_nat_string(n).len() >= 1,
        all_digits(spec_nat_string(n)),
        digits_val(spec_nat_string(n)) == n,
    decreases n,
{
    if n < 10 {
        let s = spec_nat_string(n);
        assert(s.len() == 1);
        assert(is_digit(digit_char(n)) && digit_of(digit_char(n)) == n);
        assert(s.drop_last() =~= Seq::<char>::empty());
        assert(digits_val(Seq::<char>::empty()) == 0);
        assert(digits_val(s) == n);
    } else {
        lemma_nat_string_digits(n / 10);
        let pre = spec_nat_string(n / 10);
        let s = spec_nat_string(n);
        assert(s == pre.push(digit_char(n % 10)));
        assert(s.drop_last() =~= pre);
        assert(is_digit(digit_char(n % 10)) && digit_of(digit_char(n % 10)) == n % 10);
        assert(digits_val(s) == digits_val(pre) * 10 + (n % 10));
        assert(forall|i: int| 0 <= i < s.len() ==> is_digit(#[trigger] s[i]));
    }
}

/// The canonical text of an `i64` is a valid integer literal and denotes
/// the value itself.
pub proof fn lemma_int_string_lit(v: i64)
    ensures
        is_int_lit(spec_int_string(v as int)),
        int_lit_val(spec_int_string(v as int)) == v as int,
{
    if v >= 0 {
        lemma_nat_string_digits(v as int);
        let s = spec_int_string(v as int);
        assert(is_digit(s[0]));
        assert(s[0] != '-');
    } else {
        lemma_nat_string_digits(-(v as int));
        let s = spec_int_string(v as int);
        assert(s[0] == '-');
        assert(s.subrange(1, s.len() as int) =~= spec_nat_string(-(v as int)));
    }
}

/// The four kind tags are pairwise distinct.
pub proof fn lemma_kind_names_distinct()
    ensures
        "Int"@ != "Float"@,
        "Int"@ != "BinOp"@,
        "Int"@ != "UnaryOp"@,
        "Float"@ != "BinOp"@,
        "Float"@ != "UnaryOp"@,
        "BinOp"@ != "UnaryOp"@,
{
    reveal_strlit("Int");
    reveal_strlit("Float");
    reveal_strlit("BinOp");
    reveal_strlit("UnaryOp");
    assert("Int"@.len() == 3);
    assert("Float"@.len() == 5);
    assert("BinOp"@.len() == 5);
    assert("UnaryOp"@.len() == 7);
    assert("Float"@[0] == 'F');
    assert("BinOp"@[0] == 'B');
}

/// The five operator tags are pairwise distinct.
pub proof fn lemma_op_names_distinct()
    ensures
        "Add"@ != "Sub"@,
        "Add"@ != "Mul"@,
        "Add"@ != "Div"@,
        "Add"@ != "Pow"@,
        "Sub"@ != "Mul"@,
        "Sub"@ != "Div"@,
        "Sub"@ != "Pow"@,
        "Mul"@ != "Div"@,
        "Mul"@ != "Pow"@,
        "Div"@ != "Pow"@,
{
    reveal_strlit("Add");
    reveal_strlit("Sub");
    reveal_strlit("Mul");
    reveal_strlit("Div");
    reveal_strlit("Pow");
    assert("Add"@.len() == 3);
    assert("Sub"@.len() == 3);
    assert("Mul"@.len() == 3);
    assert("Div"@.len() == 3);
    assert("Pow"@.len() == 3);
    assert("Add"@[0] == 'A');
    assert("Sub"@[0] == 'S');
    assert("Mul"@[0] == 'M');
    assert("Div"@[0] == 'D');
    assert("Pow"@[0] == 'P');
}

/// Well-formedness: the shape of the children is fixed by the kind tag.
pub open spec fn wf_node(n: NodeS) -> bool
    decreases n,
{
    if n.name == "Int"@ {
        &&& n.children.len() == 1
        &&& match n.children[0] {
            NodeTypeS::Text(t) => is_int_lit(t),
            NodeTypeS::Node(_) => false,
        }
    } else if n.name == "Float"@ {
        &&& n.children.len() == 1
        &&& n.children[0] is Text
    } else if n.name == "BinOp"@ {
        &&& n.children.len() == 3
        &&& match (n.children[0], n.children[1], n.children[2]) {
            (NodeTypeS::Node(l), NodeTypeS::Text(op), NodeTypeS::Node(r)) => {
                &&& is_bin_op_text(op)
                &&& wf_node(l)
                &&& wf_node(r)
            },
            _ => false,
        }
    } else if n.name == "UnaryOp"@ {
        &&& n.children.len() == 2
        &&& match (n.children[0], n.children[1]) {
            (NodeTypeS::Text(op), NodeTypeS::Node(x)) => {
                &&& is_un_op_text(op)
                &&& wf_node(x)
            },
            _ => false,
        }
    } else {
        false
    }
}

} // verus!
