//! The syntax tree: the nodes of a program, and the program's source form.
use vstd::prelude::*;
use vstd::string::*;

verus! {

/// A node of the syntax tree.
pub enum Node {
    /// A statement, held as its source text.
    Statement(String),
    /// An expression, held as its source text.
    Expression(String),
    /// A `let` statement that binds `name` to `value`.
    LetStatement { name: String, value: String },
    /// A name.
    Identifier(String),
}

/// A program: its statements in order.
pub struct Program {
    pub statements: Vec<Node>,
}

/// The source form of a node: the text it holds, and for a `let` statement
/// `let name = value;`.
pub open spec fn node_literal(node: Node) -> Seq<char> {
    match node {
        Node::Statement(text) => text@,
        Node::Expression(text) => text@,
        Node::LetStatement { name, value } => "let "@ + name@ + " = "@ + value@ + ";"@,
        Node::Identifier(name) => name@,
    }
}

/// The source forms of `nodes`, one behind the other with nothing between.
pub open spec fn literal_of(nodes: Seq<Node>) -> Seq<char>
    decreases nodes.len(),
{
    if nodes.len() == 0 {
        Seq::empty()
    } else {
        literal_of(nodes.drop_last()) + node_literal(nodes.last())
    }
}

impl Program {
    /// A program without statements.
    pub fn new() -> (program: Program)
        ensures
            program.statements@ == Seq::<Node>::empty(),
    {
        Program { statements: Vec::new() }
    }

    /// The source form of the program: that of its statements, in order.
    pub fn literal(&self) -> (out: String)
        ensures
            out@ == literal_of(self.statements@),
    {
        let mut out = String::new();
        let mut i: usize = 0;
        while i < self.statements.len()
            invariant
                i <= self.statements.len(),
                out@ == literal_of(self.statements@.take(i as int)),
            decreases self.statements.len() - i,
        {
            proof {
                assert(self.statements@.take(i + 1).drop_last() == self.statements@.take(
                    i as int,
                ));
            }
            match &self.statements[i] {
                Node::Statement(text) => out.append(text.as_str()),
                Node::Expression(text) => out.append(text.as_str()),
                Node::LetStatement { name, value } => {
                    out.append("let ");
                    out.append(name.as_str());
                    out.append(" = ");
                    out.append(value.as_str());
                    out.append(";");
                },
                Node::Identifier(name) => out.append(name.as_str()),
            }
            i += 1;
        }
        assert(self.statements@.take(i as int) == self.statements@);
        out
    }
}

} // verus!
