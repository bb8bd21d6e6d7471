//! The syntax tree of an OpenQASM 2.0 program, as the lowering engine reads it.
use crate::text::texts;
use vstd::prelude::*;

verus! {

/// An operand of a statement: one bit of a register, or a whole register.
#[derive(Debug, PartialEq, Eq)]
pub enum Operand {
    /// The bit at the given index of the named register.
    Qubit(String, i32),
    /// The named register as a whole.
    Register(String),
}

impl Operand {
    /// The name that the operand mentions.
    pub open spec fn spec_name(self) -> Seq<char> {
        match self {
            Operand::Qubit(name, _) => name@,
            Operand::Register(name) => name@,
        }
    }

    /// The name that the operand mentions.
    pub fn name(&self) -> (s: &String)
        ensures
            s@ == self.spec_name(),
    {
        match self {
            Operand::Qubit(name, _) => name,
            Operand::Register(name) => name,
        }
    }
}

/// The names that a list of operands mentions, in order.
pub open spec fn argument_names(args: Seq<Operand>) -> Seq<Seq<char>> {
    Seq::new(args.len(), |i: int| args[i].spec_name())
}

/// One statement of a program.
#[derive(Debug, PartialEq, Eq)]
pub enum Node {
    /// Declares a quantum register of the given name and size.
    QReg(String, i32),
    /// Declares a classical register of the given name and size.
    CReg(String, i32),
    /// A barrier on a qubit or register.
    Barrier(Operand),
    /// A reset of a qubit or register.
    Reset(Operand),
    /// A measurement of a qubit or register into a bit or register.
    Measure(Operand, Operand),
    /// Applies the named gate to the operands, with the parameter
    /// expressions given as text.
    ApplyGate(String, Vec<Operand>, Vec<String>),
    /// Declares a gate without a body: its name, formal qubits and formal
    /// parameters.
    Opaque(String, Vec<Operand>, Vec<String>),
    /// Defines a gate: its name, formal qubits, formal parameters and body.
    Gate(String, Vec<String>, Vec<String>, Vec<Node>),
    /// A statement applied only if the named classical register holds the
    /// given value.
    If(String, i32, Box<Node>),
}

impl Node {
    /// Whether the statement, standing at the top level of a program, gives
    /// rise to an instruction (rather than declaring something).
    pub open spec fn is_lowerable(self) -> bool {
        self is ApplyGate || self is Barrier || self is Reset || self is Measure
    }
}

/// What an [`Operand`] stands for.
pub enum OperandView {
    Qubit(Seq<char>, int),
    Register(Seq<char>),
}

impl View for Operand {
    type V = OperandView;

    open spec fn view(&self) -> OperandView {
        match *self {
            Operand::Qubit(name, index) => OperandView::Qubit(name@, index as int),
            Operand::Register(name) => OperandView::Register(name@),
        }
    }
}

/// What a list of operands stands for.
pub open spec fn operand_views(args: Seq<Operand>) -> Seq<OperandView> {
    Seq::new(args.len(), |i: int| args[i]@)
}

/// What a [`Node`] stands for.
pub enum NodeView {
    QReg(Seq<char>, int),
    CReg(Seq<char>, int),
    Barrier(OperandView),
    Reset(OperandView),
    Measure(OperandView, OperandView),
    ApplyGate(Seq<char>, Seq<OperandView>, Seq<Seq<char>>),
    Opaque(Seq<char>, Seq<OperandView>, Seq<Seq<char>>),
    Gate(Seq<char>, Seq<Seq<char>>, Seq<Seq<char>>, Seq<NodeView>),
    If(Seq<char>, int, Box<NodeView>),
}

/// What a statement stands for: its texts as sequences of characters, its
/// numbers as integers, and the statements inside it in the same way.
pub open spec fn node_view(node: Node) -> NodeView
    decreases node,
{
    match node {
        Node::QReg(name, size) => NodeView::QReg(name@, size as int),
        Node::CReg(name, size) => NodeView::CReg(name@, size as int),
        Node::Barrier(arg) => NodeView::Barrier(arg@),
        Node::Reset(arg) => NodeView::Reset(arg@),
        Node::Measure(source, target) => NodeView::Measure(source@, target@),
        Node::ApplyGate(name, args, params) => NodeView::ApplyGate(
            name@,
            operand_views(args@),
            texts(params@),
        ),
        Node::Opaque(name, args, params) => NodeView::Opaque(
            name@,
            operand_views(args@),
            texts(params@),
        ),
        Node::Gate(name, qubits, params, body) => NodeView::Gate(
            name@,
            texts(qubits@),
            texts(params@),
            Seq::new(
                body@.len(),
                |i: int|
                    if 0 <= i < body@.len() {
                        node_view(body@[i])
                    } else {
                        NodeView::QReg(Seq::empty(), 0)
                    },
            ),
        ),
        Node::If(register, value, inner) => NodeView::If(
            register@,
            value as int,
            Box::new(node_view(*inner)),
        ),
    }
}

/// What a list of statements stands for.
pub open spec fn node_views(nodes: Seq<Node>) -> Seq<NodeView> {
    Seq::new(nodes.len(), |i: int| node_view(nodes[i]))
}

} // verus!
