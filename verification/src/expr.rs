//! The tree that parsing produces.

use vstd::prelude::*;
use vstd::string::StringExecFns;

verus! {

/// A node of the tree: a leaf, or a labelled sequence of nodes.
#[derive(Debug)]
pub enum Expr {
    /// A literal or an identifier, with its kind.
    Atom(String, &'static str),
    /// A construct or an operator, named by its tag, with its parts in
    /// order.
    Cons(String, Vec<Expr>),
}

/// The tree as a mathematical value.
pub enum Tree {
    Atom(Seq<char>, Seq<char>),
    Cons(Seq<char>, Seq<Tree>),
}

impl View for Expr {
    type V = Tree;

    open spec fn view(&self) -> Tree
        decreases self,
    {
        match self {
            Expr::Atom(text, kind) => Tree::Atom(text@, kind@),
            Expr::Cons(tag, parts) => Tree::Cons(tag@, trees(parts@)),
        }
    }
}

/// The trees of a sequence of nodes, in the same order.
pub open spec fn trees(parts: Seq<Expr>) -> Seq<Tree>
    decreases parts,
{
    if parts.len() == 0 {
        seq![]
    } else {
        trees(parts.drop_last()).push(parts.last()@)
    }
}

/// `trees` keeps the length and maps each node to its tree.
pub proof fn lemma_trees(parts: Seq<Expr>)
    ensures
        trees(parts).len() == parts.len(),
        forall|i: int| 0 <= i < parts.len() ==> #[trigger] trees(parts)[i] == parts[i]@,
    decreases parts.len(),
{
    if parts.len() > 0 {
        lemma_trees(parts.drop_last());
        assert(trees(parts) == trees(parts.drop_last()).push(parts.last()@));
    } else {
        assert(trees(parts) == Seq::<Tree>::empty());
    }
}

/// The trees of a sequence with one more node at its end.
pub proof fn lemma_trees_push(parts: Seq<Expr>, last: Expr)
    ensures
        trees(parts.push(last)) == trees(parts).push(last@),
{
    assert(parts.push(last).drop_last() == parts);
}

/// The parts of a tree, each behind a space.
pub open spec fn rendered_parts(parts: Seq<Tree>) -> Seq<char>
    decreases parts,
{
    if parts.len() == 0 {
        seq![]
    } else {
        rendered_parts(parts.drop_last()) + seq![' '] + rendered(parts.last())
    }
}

/// The text of a tree in prefix form: a leaf is its own text, a node is its
/// tag and its parts between parentheses, with one space before each part.
pub open spec fn rendered(tree: Tree) -> Seq<char>
    decreases tree,
{
    match tree {
        Tree::Atom(text, _) => text,
        Tree::Cons(tag, parts) => seq!['('] + tag + rendered_parts(parts) + seq![')'],
    }
}

impl Clone for Expr {
    /// A copy of the tree, node for node.
    #[verifier::loop_isolation(false)]
    fn clone(&self) -> (copy: Expr)
        ensures
            copy@ == self@,
        decreases self,
    {
        match self {
            Expr::Atom(text, kind) => Expr::Atom(text.clone(), *kind),
            Expr::Cons(tag, parts) => {
                let mut copies: Vec<Expr> = Vec::new();
                let mut i: usize = 0;
                while i < parts.len()
                    invariant
                        i <= parts.len(),
                        copies@.len() == i,
                        trees(copies@) == trees(parts@.take(i as int)),
                    decreases parts.len() - i,
                {
                    assert(decreases_to!(self => parts@[i as int]));
                    let ghost before = copies@;
                    copies.push(parts[i].clone());
                    proof {
                        lemma_trees_push(before, copies@.last());
                        lemma_trees_push(parts@.take(i as int), parts@[i as int]);
                        assert(parts@.take(i + 1) == parts@.take(i as int).push(parts@[i as int]));
                    }
                    i += 1;
                }
                assert(parts@.take(i as int) == parts@);
                Expr::Cons(tag.clone(), copies)
            },
        }
    }
}

impl Expr {
    /// The text of the tree in prefix form.
    #[verifier::loop_isolation(false)]
    pub fn render(&self) -> (out: String)
        ensures
            out@ == rendered(self@),
        decreases self,
    {
        match self {
            Expr::Atom(text, _) => text.clone(),
            Expr::Cons(tag, parts) => {
                proof {
                    reveal_strlit("(");
                    reveal_strlit(" ");
                    reveal_strlit(")");
                }
                let mut out = String::from_str("(");
                out.append(tag.as_str());
                let mut i: usize = 0;
                while i < parts.len()
                    invariant
                        i <= parts.len(),
                        out@ == seq!['('] + tag@ + rendered_parts(trees(parts@).take(i as int)),
                    decreases parts.len() - i,
                {
                    assert(decreases_to!(self => parts@[i as int]));
                    let part = parts[i].render();
                    out.append(" ");
                    out.append(part.as_str());
                    proof {
                        let ts = trees(parts@);
                        lemma_trees(parts@);
                        assert(ts.take(i + 1).drop_last() == ts.take(i as int));
                        assert(ts.take(i + 1).last() == parts@[i as int]@);
                    }
                    i += 1;
                }
                out.append(")");
                proof {
                    let ts = trees(parts@);
                    lemma_trees(parts@);
                    assert(ts.take(parts.len() as int) == ts);
                }
                out
            },
        }
    }
}

} // verus!
