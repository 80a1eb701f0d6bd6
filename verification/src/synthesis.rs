//! Candidate expressions of the symbolic-synthesis domain: arithmetic trees
//! over one variable `x`, with their size and the preorder addressing of
//! subtrees by which mutations pick and replace a part. Constants are of any
//! copyable type `C`; evaluating them is the caller's business.
use vstd::prelude::*;

verus! {

/// An arithmetic expression over `x`.
#[derive(Debug)]
pub enum Expr<C> {
    X,
    Const(C),
    Add(Box<Expr<C>>, Box<Expr<C>>),
    Sub(Box<Expr<C>>, Box<Expr<C>>),
    Mul(Box<Expr<C>>, Box<Expr<C>>),
    Neg(Box<Expr<C>>),
}

/// Number of nodes.
pub open spec fn tree_size<C>(e: Expr<C>) -> nat
    decreases e,
{
    match e {
        Expr::X => 1,
        Expr::Const(_) => 1,
        Expr::Neg(a) => 1 + tree_size(*a),
        Expr::Add(a, b) => 1 + tree_size(*a) + tree_size(*b),
        Expr::Sub(a, b) => 1 + tree_size(*a) + tree_size(*b),
        Expr::Mul(a, b) => 1 + tree_size(*a) + tree_size(*b),
    }
}

/// The subtree at preorder index `i` (0 is the root), if `i` is a node.
pub open spec fn subtree<C>(e: Expr<C>, i: int) -> Option<Expr<C>>
    decreases e,
{
    if i == 0 {
        Some(e)
    } else if i < 0 || i >= tree_size(e) {
        None
    } else {
        match e {
            Expr::Neg(a) => subtree(*a, i - 1),
            Expr::Add(a, b) => if i - 1 < tree_size(*a) {
                subtree(*a, i - 1)
            } else {
                subtree(*b, i - 1 - tree_size(*a))
            },
            Expr::Sub(a, b) => if i - 1 < tree_size(*a) {
                subtree(*a, i - 1)
            } else {
                subtree(*b, i - 1 - tree_size(*a))
            },
            Expr::Mul(a, b) => if i - 1 < tree_size(*a) {
                subtree(*a, i - 1)
            } else {
                subtree(*b, i - 1 - tree_size(*a))
            },
            _ => None,
        }
    }
}

/// The tree with the node at preorder index `i` replaced by `r`; the tree
/// itself when `i` is no node.
pub open spec fn replaced<C>(e: Expr<C>, i: int, r: Expr<C>) -> Expr<C>
    decreases e,
{
    if i == 0 {
        r
    } else if i < 0 || i >= tree_size(e) {
        e
    } else {
        match e {
            Expr::Neg(a) => Expr::Neg(Box::new(replaced(*a, i - 1, r))),
            Expr::Add(a, b) => Expr::Add(
                Box::new(replaced(*a, i - 1, r)),
                Box::new(replaced(*b, i - 1 - tree_size(*a), r)),
            ),
            Expr::Sub(a, b) => Expr::Sub(
                Box::new(replaced(*a, i - 1, r)),
                Box::new(replaced(*b, i - 1 - tree_size(*a), r)),
            ),
            Expr::Mul(a, b) => Expr::Mul(
                Box::new(replaced(*a, i - 1, r)),
                Box::new(replaced(*b, i - 1 - tree_size(*a), r)),
            ),
            _ => e,
        }
    }
}

impl<C: Copy> Expr<C> {
    /// A copy of the tree.
    pub fn copy_tree(&self) -> (r: Expr<C>)
        ensures
            r == *self,
        decreases self,
    {
        match self {
            Expr::X => Expr::X,
            Expr::Const(c) => Expr::Const(*c),
            Expr::Neg(a) => Expr::Neg(Box::new((**a).copy_tree())),
            Expr::Add(a, b) => Expr::Add(Box::new((**a).copy_tree()), Box::new((**b).copy_tree())),
            Expr::Sub(a, b) => Expr::Sub(Box::new((**a).copy_tree()), Box::new((**b).copy_tree())),
            Expr::Mul(a, b) => Expr::Mul(Box::new((**a).copy_tree()), Box::new((**b).copy_tree())),
        }
    }

    /// Number of nodes (the complexity of the expression).
    pub fn size(&self) -> (n: usize)
        requires
            tree_size(*self) <= usize::MAX,
        ensures
            n == tree_size(*self),
        decreases self,
    {
        match self {
            Expr::X => 1,
            Expr::Const(_) => 1,
            Expr::Neg(a) => 1 + (**a).size(),
            Expr::Add(a, b) => 1 + (**a).size() + (**b).size(),
            Expr::Sub(a, b) => 1 + (**a).size() + (**b).size(),
            Expr::Mul(a, b) => 1 + (**a).size() + (**b).size(),
        }
    }

    /// A copy of the subtree at preorder index `idx`, this node being
    /// numbered `*cur`; none when no node of this tree has that number. The
    /// counter ends on the number after the last node visited: after the
    /// node found, or after the whole tree.
    pub fn subtree_at(&self, idx: usize, cur: &mut usize) -> (r: Option<Expr<C>>)
        requires
            *old(cur) + tree_size(*self) <= usize::MAX,
        ensures
            r == (if *old(cur) <= idx {
                subtree(*self, idx - *old(cur))
            } else {
                None::<Expr<C>>
            }),
            *final(cur) == (if *old(cur) <= idx < *old(cur) + tree_size(*self) {
                idx + 1
            } else {
                *old(cur) + tree_size(*self)
            }),
        decreases self,
    {
        proof {
            lemma_subtree_in_range(*self);
        }
        let here = *cur;
        *cur = *cur + 1;
        if here == idx {
            return Some(self.copy_tree());
        }
        match self {
            Expr::X => None,
            Expr::Const(_) => None,
            Expr::Neg(a) => (**a).subtree_at(idx, cur),
            Expr::Add(a, b) => match (**a).subtree_at(idx, cur) {
                Some(t) => Some(t),
                None => (**b).subtree_at(idx, cur),
            },
            Expr::Sub(a, b) => match (**a).subtree_at(idx, cur) {
                Some(t) => Some(t),
                None => (**b).subtree_at(idx, cur),
            },
            Expr::Mul(a, b) => match (**a).subtree_at(idx, cur) {
                Some(t) => Some(t),
                None => (**b).subtree_at(idx, cur),
            },
        }
    }

    /// The tree with the node of preorder index `idx` replaced by a copy of
    /// `repl`, this node being numbered `*cur`; a copy of the tree when no
    /// node has that number. The counter ends after the whole tree.
    pub fn replace_at(&self, idx: usize, repl: &Expr<C>, cur: &mut usize) -> (r: Expr<C>)
        requires
            *old(cur) + tree_size(*self) <= usize::MAX,
        ensures
            r == replaced(*self, idx - *old(cur), *repl),
            *final(cur) == *old(cur) + tree_size(*self) - (if *old(cur) <= idx < *old(cur) + tree_size(*self) {
                tree_size(subtree(*self, idx - *old(cur))->0) - 1
            } else {
                0
            }),
        decreases self,
    {
        proof {
            lemma_subtree_in_range(*self);
        }
        let here = *cur;
        *cur = *cur + 1;
        if here == idx {
            return repl.copy_tree();
        }
        match self {
            Expr::X => Expr::X,
            Expr::Const(c) => Expr::Const(*c),
            Expr::Neg(a) => Expr::Neg(Box::new((**a).replace_at(idx, repl, cur))),
            Expr::Add(a, b) => {
                proof {
                    lemma_subtree_in_range(**a);
                }
                let x = (**a).replace_at(idx, repl, cur);
                let y = (**b).replace_at(idx, repl, cur);
                proof {
                    let i = idx - here;
                    if 0 < i && i - 1 < tree_size(**a) {
                        assert(y == **b);
                        assert(replaced(*self, i, *repl) == Expr::Add(Box::new(replaced(**a, i - 1, *repl)), Box::new(replaced(**b, i - 1 - tree_size(**a), *repl))));
                        assert(Expr::Add(Box::new(x), Box::new(y)) == replaced(*self, idx - here, *repl));
                    } else if 0 < i && i < tree_size(*self) {
                        assert(x == **a);
                        assert(Expr::Add(Box::new(x), Box::new(y)) == replaced(*self, idx - here, *repl));
                    } else {
                        assert(x == **a);
                        assert(y == **b);
                        assert(Expr::Add(Box::new(x), Box::new(y)) == replaced(*self, idx - here, *repl));
                    }
                }
                Expr::Add(Box::new(x), Box::new(y))
            },
            Expr::Sub(a, b) => {
                proof {
                    lemma_subtree_in_range(**a);
                }
                let x = (**a).replace_at(idx, repl, cur);
                let y = (**b).replace_at(idx, repl, cur);
                proof {
                    let i = idx - here;
                    if 0 < i && i - 1 < tree_size(**a) {
                        assert(y == **b);
                        assert(replaced(*self, i, *repl) == Expr::Sub(Box::new(replaced(**a, i - 1, *repl)), Box::new(replaced(**b, i - 1 - tree_size(**a), *repl))));
                        assert(Expr::Sub(Box::new(x), Box::new(y)) == replaced(*self, idx - here, *repl));
                    } else if 0 < i && i < tree_size(*self) {
                        assert(x == **a);
                        assert(Expr::Sub(Box::new(x), Box::new(y)) == replaced(*self, idx - here, *repl));
                    } else {
                        assert(x == **a);
                        assert(y == **b);
                        assert(Expr::Sub(Box::new(x), Box::new(y)) == replaced(*self, idx - here, *repl));
                    }
                }
                Expr::Sub(Box::new(x), Box::new(y))
            },
            Expr::Mul(a, b) => {
                proof {
                    lemma_subtree_in_range(**a);
                }
                let x = (**a).replace_at(idx, repl, cur);
                let y = (**b).replace_at(idx, repl, cur);
                proof {
                    let i = idx - here;
                    if 0 < i && i - 1 < tree_size(**a) {
                        assert(y == **b);
                        assert(replaced(*self, i, *repl) == Expr::Mul(Box::new(replaced(**a, i - 1, *repl)), Box::new(replaced(**b, i - 1 - tree_size(**a), *repl))));
                        assert(Expr::Mul(Box::new(x), Box::new(y)) == replaced(*self, idx - here, *repl));
                    } else if 0 < i && i < tree_size(*self) {
                        assert(x == **a);
                        assert(Expr::Mul(Box::new(x), Box::new(y)) == replaced(*self, idx - here, *repl));
                    } else {
                        assert(x == **a);
                        assert(y == **b);
                        assert(Expr::Mul(Box::new(x), Box::new(y)) == replaced(*self, idx - here, *repl));
                    }
                }
                Expr::Mul(Box::new(x), Box::new(y))
            },
        }
    }
}

/// The binary operators of expressions.
#[derive(Clone, Copy, Debug, PartialEq, Eq, Structural)]
pub enum BinOp {
    Add,
    Sub,
    Mul,
}

/// The expression `a op b`.
pub open spec fn binary<C>(op: BinOp, a: Expr<C>, b: Expr<C>) -> Expr<C> {
    match op {
        BinOp::Add => Expr::Add(Box::new(a), Box::new(b)),
        BinOp::Sub => Expr::Sub(Box::new(a), Box::new(b)),
        BinOp::Mul => Expr::Mul(Box::new(a), Box::new(b)),
    }
}

impl<C: Copy> Expr<C> {
    /// The "grow" mutation: the subtree at preorder index `idx` becomes the
    /// left operand of `op`, with `term` on the right.
    pub fn grow_at(&self, idx: usize, op: BinOp, term: Expr<C>) -> (r: Expr<C>)
        requires
            idx < tree_size(*self),
            tree_size(*self) <= usize::MAX,
        ensures
            r == replaced(*self, idx as int, binary(op, subtree(*self, idx as int)->0, term)),
    {
        proof {
            lemma_subtree_in_range(*self);
        }
        let mut cur: usize = 0;
        let sub = match self.subtree_at(idx, &mut cur) {
            Some(t) => t,
            None => Expr::X,
        };
        let repl = match op {
            BinOp::Add => Expr::Add(Box::new(sub), Box::new(term)),
            BinOp::Sub => Expr::Sub(Box::new(sub), Box::new(term)),
            BinOp::Mul => Expr::Mul(Box::new(sub), Box::new(term)),
        };
        let mut cur2: usize = 0;
        self.replace_at(idx, &repl, &mut cur2)
    }
}

/// Growing at a node puts there the asked operator, with the subtree that
/// was there on its left and the terminal on its right, leaves every node
/// before it in place, and adds the terminal and one node to the size.
pub proof fn law_grow<C>(e: Expr<C>, idx: int, op: BinOp, term: Expr<C>)
    requires
        0 <= idx < tree_size(e),
    ensures
        ({
            let s = subtree(e, idx)->0;
            let g = replaced(e, idx, binary(op, s, term));
            &&& subtree(g, idx) == Some(
                match op {
                    BinOp::Add => Expr::Add(Box::new(s), Box::new(term)),
                    BinOp::Sub => Expr::Sub(Box::new(s), Box::new(term)),
                    BinOp::Mul => Expr::Mul(Box::new(s), Box::new(term)),
                },
            )
            &&& tree_size(g) == tree_size(e) + 1 + tree_size(term)
        }),
{
    let s = subtree(e, idx)->0;
    let b = binary(op, s, term);
    law_replace_subtree(e, idx, b);
}

/// Every node number of a tree addresses a subtree, no larger than the tree.
pub proof fn lemma_subtree_in_range<C>(e: Expr<C>)
    ensures
        tree_size(e) >= 1,
        forall|i: int| 0 <= i < tree_size(e) ==> (#[trigger] subtree(e, i)) is Some && 1 <= tree_size(
            subtree(e, i)->0,
        ) <= tree_size(e) - i,
    decreases e,
{
    match e {
        Expr::Neg(a) => {
            lemma_subtree_in_range(*a);
            assert forall|i: int| 0 <= i < tree_size(e) implies (#[trigger] subtree(e, i)) is Some && 1 <= tree_size(
                subtree(e, i)->0,
            ) <= tree_size(e) - i by {
                if i > 0 {
                    assert(subtree(e, i) == subtree(*a, i - 1));
                }
            }
        },
        Expr::Add(a, b) => {
            lemma_subtree_in_range(*a);
            lemma_subtree_in_range(*b);
            assert forall|i: int| 0 <= i < tree_size(e) implies (#[trigger] subtree(e, i)) is Some && 1 <= tree_size(
                subtree(e, i)->0,
            ) <= tree_size(e) - i by {
                if i > 0 && i - 1 < tree_size(*a) {
                    assert(subtree(e, i) == subtree(*a, i - 1));
                } else if i > 0 {
                    assert(subtree(e, i) == subtree(*b, i - 1 - tree_size(*a)));
                }
            }
        },
        Expr::Sub(a, b) => {
            lemma_subtree_in_range(*a);
            lemma_subtree_in_range(*b);
            assert forall|i: int| 0 <= i < tree_size(e) implies (#[trigger] subtree(e, i)) is Some && 1 <= tree_size(
                subtree(e, i)->0,
            ) <= tree_size(e) - i by {
                if i > 0 && i - 1 < tree_size(*a) {
                    assert(subtree(e, i) == subtree(*a, i - 1));
                } else if i > 0 {
                    assert(subtree(e, i) == subtree(*b, i - 1 - tree_size(*a)));
                }
            }
        },
        Expr::Mul(a, b) => {
            lemma_subtree_in_range(*a);
            lemma_subtree_in_range(*b);
            assert forall|i: int| 0 <= i < tree_size(e) implies (#[trigger] subtree(e, i)) is Some && 1 <= tree_size(
                subtree(e, i)->0,
            ) <= tree_size(e) - i by {
                if i > 0 && i - 1 < tree_size(*a) {
                    assert(subtree(e, i) == subtree(*a, i - 1));
                } else if i > 0 {
                    assert(subtree(e, i) == subtree(*b, i - 1 - tree_size(*a)));
                }
            }
        },
        _ => {},
    }
}

/// A node number addresses a subtree exactly when it is below the size.
pub proof fn law_subtree_defined<C>(e: Expr<C>, i: int)
    ensures
        subtree(e, i) is Some <==> 0 <= i < tree_size(e),
{
    lemma_subtree_in_range(e);
}

/// A number that addresses no node changes nothing: replacing there gives
/// the tree itself, and no subtree is found there.
pub proof fn law_replace_outside<C>(e: Expr<C>, i: int, r: Expr<C>)
    requires
        i < 0 || i >= tree_size(e),
    ensures
        replaced(e, i, r) == e,
        subtree(e, i) is None,
{
    lemma_subtree_in_range(e);
}

/// Replacing the node at `i` and reading it back gives the replacement; the
/// size changes by the difference of the two subtrees; putting back the
/// subtree that was there gives the tree again.
pub proof fn law_replace_subtree<C>(e: Expr<C>, i: int, r: Expr<C>)
    requires
        0 <= i < tree_size(e),
    ensures
        subtree(replaced(e, i, r), i) == Some(r),
        tree_size(replaced(e, i, r)) == tree_size(e) - tree_size(subtree(e, i)->0) + tree_size(r),
        replaced(e, i, subtree(e, i)->0) == e,
    decreases e,
{
    lemma_subtree_in_range(e);
    lemma_subtree_in_range(r);
    if i > 0 {
        match e {
            Expr::Neg(a) => {
                law_replace_subtree(*a, i - 1, r);
            },
            Expr::Add(a, b) => {
                lemma_subtree_in_range(*a);
                let s = subtree(e, i)->0;
                if i - 1 < tree_size(*a) {
                    law_replace_subtree(*a, i - 1, r);
                    assert(subtree(e, i) == subtree(*a, i - 1));
                    assert(replaced(*b, i - 1 - tree_size(*a), s) == *b);
                    assert(replaced(e, i, s) == Expr::Add(Box::new(replaced(*a, i - 1, s)), Box::new(*b)));
                } else {
                    law_replace_subtree(*b, i - 1 - tree_size(*a), r);
                    assert(subtree(e, i) == subtree(*b, i - 1 - tree_size(*a)));
                    assert(replaced(*a, i - 1, s) == *a);
                    assert(replaced(e, i, s) == Expr::Add(Box::new(*a), Box::new(replaced(*b, i - 1 - tree_size(*a), s))));
                }
            },
            Expr::Sub(a, b) => {
                lemma_subtree_in_range(*a);
                let s = subtree(e, i)->0;
                if i - 1 < tree_size(*a) {
                    law_replace_subtree(*a, i - 1, r);
                    assert(subtree(e, i) == subtree(*a, i - 1));
                    assert(replaced(*b, i - 1 - tree_size(*a), s) == *b);
                    assert(replaced(e, i, s) == Expr::Sub(Box::new(replaced(*a, i - 1, s)), Box::new(*b)));
                } else {
                    law_replace_subtree(*b, i - 1 - tree_size(*a), r);
                    assert(subtree(e, i) == subtree(*b, i - 1 - tree_size(*a)));
                    assert(replaced(*a, i - 1, s) == *a);
                    assert(replaced(e, i, s) == Expr::Sub(Box::new(*a), Box::new(replaced(*b, i - 1 - tree_size(*a), s))));
                }
            },
            Expr::Mul(a, b) => {
                lemma_subtree_in_range(*a);
                let s = subtree(e, i)->0;
                if i - 1 < tree_size(*a) {
                    law_replace_subtree(*a, i - 1, r);
                    assert(subtree(e, i) == subtree(*a, i - 1));
                    assert(replaced(*b, i - 1 - tree_size(*a), s) == *b);
                    assert(replaced(e, i, s) == Expr::Mul(Box::new(replaced(*a, i - 1, s)), Box::new(*b)));
                } else {
                    law_replace_subtree(*b, i - 1 - tree_size(*a), r);
                    assert(subtree(e, i) == subtree(*b, i - 1 - tree_size(*a)));
                    assert(replaced(*a, i - 1, s) == *a);
                    assert(replaced(e, i, s) == Expr::Mul(Box::new(*a), Box::new(replaced(*b, i - 1 - tree_size(*a), s))));
                }
            },
            _ => {},
        }
    }
}

} // verus!
