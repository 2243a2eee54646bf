//! Syntax trees for surface expressions. A tree is either a leaf, optionally
//! bound to a concept and carrying a literal symbol, or a pair of two child
//! trees with a display text and an optional concept binding for the pair as
//! a whole. Trees are immutable values: combining or rewriting never mutates
//! an existing tree, it produces a new one.

use vstd::prelude::*;
use vstd::string::StringExecFns;

verus! {

/// Mathematical model of a syntax tree.
pub struct TreeV {
    pub text: Seq<char>,
    pub concept: Option<usize>,
    pub pair: Option<(Box<TreeV>, Box<TreeV>)>,
}

/// A surface expression.
#[derive(Debug)]
pub struct SyntaxTree {
    /// The display text of this node.
    pub syntax: String,
    /// The concept this node is bound to, if any.
    pub concept: Option<usize>,
    /// The child pair, where this node is a juxtaposition of two trees.
    pub expansion: Option<(Box<SyntaxTree>, Box<SyntaxTree>)>,
}

impl View for SyntaxTree {
    type V = TreeV;

    open spec fn view(&self) -> TreeV
        decreases self,
    {
        TreeV {
            text: self.syntax@,
            concept: self.concept,
            pair: match &self.expansion {
                Some((l, r)) => Some((Box::new((**l)@), Box::new((**r)@))),
                None => None,
            },
        }
    }
}

/// Structural equality of two trees: nodes bound to concepts are equal
/// exactly when their concepts are; unbound pairs are equal exactly when
/// their children are, recursively; unbound leaves are equal exactly when
/// their symbols are.
pub open spec fn tree_eq(a: TreeV, b: TreeV) -> bool
    decreases a,
{
    match (a.concept, b.concept) {
        (Some(x), Some(y)) => x == y,
        (None, None) => match (a.pair, b.pair) {
            (Some(p), Some(q)) => tree_eq(*p.0, *q.0) && tree_eq(*p.1, *q.1),
            (None, None) => a.text == b.text,
            _ => false,
        },
        _ => false,
    }
}

/// View of an optional tree.
pub open spec fn view_opt_tree(o: Option<SyntaxTree>) -> Option<TreeV> {
    match o {
        Some(t) => Some(t@),
        None => None,
    }
}

impl SyntaxTree {
    /// A leaf bound to a concept, with no symbol yet.
    pub fn new_concept(concept: usize) -> (t: SyntaxTree)
        ensures
            t@ == (TreeV { text: Seq::empty(), concept: Some(concept), pair: None }),
    {
        SyntaxTree { syntax: String::new(), concept: Some(concept), expansion: None }
    }

    /// A leaf holding a literal symbol, bound to no concept.
    pub fn from_symbol(symbol: &str) -> (t: SyntaxTree)
        ensures
            t@ == (TreeV { text: symbol@, concept: None, pair: None }),
    {
        SyntaxTree { syntax: String::from_str(symbol), concept: None, expansion: None }
    }

    pub fn get_concept(&self) -> (r: Option<usize>)
        ensures
            r == self@.concept,
    {
        self.concept
    }

    /// The child pair, where this tree is a juxtaposition.
    pub fn get_expansion(&self) -> (r: Option<(&SyntaxTree, &SyntaxTree)>)
        ensures
            match r {
                Some((l, r)) => self@.pair matches Some(p) && *p.0 == l@ && *p.1 == r@,
                None => self@.pair is None,
            },
    {
        match &self.expansion {
            Some((l, r)) => Some((&**l, &**r)),
            None => None,
        }
    }

    /// The display text of this node.
    pub fn display_string(&self) -> (r: &String)
        ensures
            r@ == self@.text,
    {
        &self.syntax
    }

    /// A copy of this tree with the pair `(left, right)` as its expansion.
    pub fn bind_pair(self, left: &SyntaxTree, right: &SyntaxTree) -> (t: SyntaxTree)
        ensures
            t@ == (TreeV {
                text: self@.text,
                concept: self@.concept,
                pair: Some((Box::new(left@), Box::new(right@))),
            }),
    {
        SyntaxTree {
            syntax: self.syntax,
            concept: self.concept,
            expansion: Some((Box::new(left.clone()), Box::new(right.clone()))),
        }
    }

    /// Whether two trees are identical in every field: symbol, binding and
    /// children alike. This is finer than structural equality, which
    /// ignores symbols on bound nodes.
    pub fn same_view(&self, other: &SyntaxTree) -> (r: bool)
        ensures
            r == (self@ == other@),
        decreases self,
    {
        if self.concept != other.concept {
            return false;
        }
        if !(self.syntax == other.syntax) {
            return false;
        }
        match (&self.expansion, &other.expansion) {
            (Some((sl, sr)), Some((ol, or_))) => sl.same_view(ol) && sr.same_view(or_),
            (None, None) => true,
            _ => false,
        }
    }

    /// Structural equality, executing `tree_eq` on the two views.
    pub fn structurally_equal(&self, other: &SyntaxTree) -> (r: bool)
        ensures
            r == tree_eq(self@, other@),
        decreases self,
    {
        match (self.concept, other.concept) {
            (Some(x), Some(y)) => x == y,
            (None, None) => match (&self.expansion, &other.expansion) {
                (Some((sl, sr)), Some((ol, or_))) => sl.structurally_equal(ol)
                    && sr.structurally_equal(or_),
                (None, None) => self.syntax == other.syntax,
                _ => false,
            },
            _ => false,
        }
    }
}

/// Binding a syntax tree to a concept.
pub trait BindConcept: Sized {
    /// A copy of this tree bound to the given concept.
    fn bind_concept(self, concept: usize) -> Self;
}

impl BindConcept for SyntaxTree {
    fn bind_concept(self, concept: usize) -> (t: SyntaxTree)
        ensures
            t@ == (TreeV { text: self@.text, concept: Some(concept), pair: self@.pair }),
    {
        SyntaxTree { syntax: self.syntax, concept: Some(concept), expansion: self.expansion }
    }
}

impl Clone for SyntaxTree {
    /// An identical tree, field for field.
    fn clone(&self) -> (t: SyntaxTree)
        ensures
            t@ == self@,
        decreases self,
    {
        SyntaxTree {
            syntax: self.syntax.clone(),
            concept: self.concept,
            expansion: match &self.expansion {
                Some((l, r)) => Some((Box::new((**l).clone()), Box::new((**r).clone()))),
                None => None,
            },
        }
    }
}

impl PartialEq for SyntaxTree {
    /// Equality of syntax trees is structural equality.
    fn eq(&self, other: &SyntaxTree) -> (r: bool) {
        self.structurally_equal(other)
    }
}

impl vstd::std_specs::cmp::PartialEqSpecImpl for SyntaxTree {
    open spec fn obeys_eq_spec() -> bool {
        true
    }

    open spec fn eq_spec(&self, other: &SyntaxTree) -> bool {
        tree_eq(self@, other@)
    }
}

} // verus!
