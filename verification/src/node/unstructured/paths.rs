//! Facts about cursor paths in unstructured node trees.

use vstd::prelude::*;

use super::navigation::{enter, outer, with_last};
use super::node::{ListModel, NodeModel, UnstructuredNode, UnstructuredNodeList};

verus! {

/// A path equals another with its final index changed when they agree everywhere else.
pub proof fn lemma_with_last_eq(a: Seq<usize>, b: Seq<usize>, j: int)
    requires
        a.len() == b.len(),
        a.len() > 0,
        a.drop_last() == b.drop_last(),
        a.last() == j,
    ensures
        a == with_last(b, j),
{
    assert forall|k: int| 0 <= k < a.len() - 1 implies a[k] == b[k] by {
        assert(a[k] == a.drop_last()[k]);
        assert(b[k] == b.drop_last()[k]);
    }
    assert(a =~= with_last(b, j));
}

/// A list described slot by slot as replaced is the replaced list.
pub proof fn lemma_list_replaced(old: ListModel, new: ListModel, p: Seq<usize>, l: ListModel)
    requires
        old.valid_path(p),
        old.replaced(new, p, l),
    ensures
        new == old.replace(p, l),
    decreases p.len(),
{
    if p.len() > 1 {
        let k = p[0] as int;
        lemma_node_replaced(old.items[k], new.items[k], p.skip(1), l);
        assert(new.items =~= old.replace(p, l).items);
    }
}

/// A node described slot by slot as replaced is the replaced node.
pub proof fn lemma_node_replaced(old: NodeModel, new: NodeModel, p: Seq<usize>, l: ListModel)
    requires
        old.valid_path(p),
        old.replaced(new, p, l),
    ensures
        new == old.replace(p, l),
    decreases p.len(),
{
    let k = p[0] as int;
    match (old, new) {
        (NodeModel::Sqrt(a), NodeModel::Sqrt(b)) => lemma_list_replaced(a, b, p.skip(1), l),
        (NodeModel::Parentheses(a), NodeModel::Parentheses(b)) => lemma_list_replaced(a, b, p.skip(1), l),
        (NodeModel::Power(a), NodeModel::Power(b)) => lemma_list_replaced(a, b, p.skip(1), l),
        (NodeModel::Fraction(t1, b1), NodeModel::Fraction(t2, b2)) => {
            if k == 0 {
                lemma_list_replaced(t1, t2, p.skip(1), l);
            } else {
                lemma_list_replaced(b1, b2, p.skip(1), l);
            }
        },
        (NodeModel::FunctionCall(f1, a1), NodeModel::FunctionCall(f2, a2)) => {
            lemma_list_replaced(a1[k], a2[k], p.skip(1), l);
            assert(a2 =~= a1.update(k, a1[k].replace(p.skip(1), l)));
        },
        _ => {},
    }
}

/// Replacing the list that a path ends in by itself changes nothing.
pub proof fn lemma_list_replace_target(t: ListModel, p: Seq<usize>)
    requires
        t.valid_path(p),
    ensures
        t.replace(p, t.target(p)) == t,
    decreases p.len(),
{
    if p.len() > 1 {
        let k = p[0] as int;
        lemma_node_replace_target(t.items[k], p.skip(1));
        assert(t.replace(p, t.target(p)).items =~= t.items);
    }
}

pub proof fn lemma_node_replace_target(n: NodeModel, p: Seq<usize>)
    requires
        n.valid_path(p),
    ensures
        n.replace(p, n.target(p)) == n,
    decreases p.len(),
{
    let k = p[0] as int;
    let s = n.slot(k).unwrap();
    lemma_list_replace_target(s, p.skip(1));
    if let NodeModel::FunctionCall(f, args) = n {
        assert(args.update(k, args[k]) =~= args);
    }
}

/// Valid paths have an odd number of indices.
pub proof fn lemma_valid_odd(t: ListModel, p: Seq<usize>)
    requires
        t.valid_path(p),
    ensures
        p.len() % 2 == 1,
    decreases p.len(),
{
    if p.len() > 1 {
        let n = t.items[p[0] as int];
        let s = n.slot(p[1] as int).unwrap();
        lemma_valid_odd(s, p.skip(1).skip(1));
    }
}

/// Changing the final index of a valid path to another position within the same list keeps it
/// valid, with the same target.
pub proof fn lemma_with_last(t: ListModel, p: Seq<usize>, j: int)
    requires
        t.valid_path(p),
        0 <= j <= t.target(p).items.len(),
    ensures
        t.valid_path(with_last(p, j)),
        t.target(with_last(p, j)) == t.target(p),
    decreases p.len(),
{
    if p.len() > 1 {
        let k = p[0] as int;
        let n = t.items[k];
        let s = n.slot(p[1] as int).unwrap();
        assert(with_last(p, j).skip(1) =~= with_last(p.skip(1), j));
        assert(with_last(p, j).skip(1).skip(1) =~= with_last(p.skip(1).skip(1), j));
        lemma_with_last(s, p.skip(1).skip(1), j);
    }
}

/// Entering a slot of the item at the final index of a valid path gives a valid path.
pub proof fn lemma_enter(t: ListModel, p: Seq<usize>, k: usize, j: usize, c: ListModel)
    requires
        t.valid_path(p),
        p.last() < t.target(p).items.len(),
        t.target(p).items[p.last() as int].slot(k as int) == Some(c),
        j <= c.items.len(),
    ensures
        t.valid_path(enter(p, k, j)),
        t.target(enter(p, k, j)) == c,
    decreases p.len(),
{
    let e = enter(p, k, j);
    if p.len() == 1 {
        assert(e.skip(1).skip(1) =~= seq![j]);
        assert(e.skip(1) =~= seq![k, j]);
        assert(c.valid_path(seq![j]));
        assert(c.target(seq![j]) == c);
        let n = t.items[p[0] as int];
        assert(n.valid_path(e.skip(1)));
        assert(n.target(e.skip(1)) == c);
    } else {
        let n = t.items[p[0] as int];
        let s = n.slot(p[1] as int).unwrap();
        assert(e.skip(1) =~= enter(p.skip(1), k, j));
        assert(e.skip(1).skip(1) =~= enter(p.skip(1).skip(1), k, j));
        lemma_enter(s, p.skip(1).skip(1), k, j, c);
        assert(n.valid_path(e.skip(1)));
        assert(n.target(e.skip(1)) == c);
    }
}

/// The path to the node which contains the list that a valid path ends in is valid, and that node
/// holds the list in the slot named by the path.
pub proof fn lemma_outer(t: ListModel, p: Seq<usize>)
    requires
        t.valid_path(p),
        p.len() >= 3,
    ensures
        t.valid_path(outer(p)),
        outer(p).len() == p.len() - 2,
        outer(p).last() < t.target(outer(p)).items.len(),
        t.target(outer(p)).items[outer(p).last() as int].slot(p[p.len() - 2] as int) == Some(
            t.target(p),
        ),
    decreases p.len(),
{
    let q = outer(p);
    let n = t.items[p[0] as int];
    let s = n.slot(p[1] as int).unwrap();
    lemma_valid_odd(t, p);
    if p.len() == 3 {
        assert(q =~= seq![p[0]]);
        assert(p.skip(1).skip(1) =~= seq![p[2]]);
        assert(t.target(q) == t);
        assert(n.target(p.skip(1)) == s.target(p.skip(1).skip(1)));
    } else {
        let p2 = p.skip(1).skip(1);
        lemma_outer(s, p2);
        assert(q.skip(1) =~= outer(p.skip(1)));
        assert(q.skip(1).skip(1) =~= outer(p2));
        assert(p2[p2.len() - 2] == p[p.len() - 2]);
        assert(n.valid_path(q.skip(1)));
        assert(n.target(q.skip(1)) == s.target(outer(p2)));
        assert(n.target(p.skip(1)) == s.target(p2));
    }
}

/// Replacing the list that a valid path ends in gives a tree in which the path, with any final
/// index within the new list, is valid and ends in the new list.
pub proof fn lemma_replace_valid(t: ListModel, p: Seq<usize>, l: ListModel, j: int)
    requires
        t.valid_path(p),
        0 <= j <= l.items.len(),
    ensures
        t.replace(p, l).valid_path(with_last(p, j)),
        t.replace(p, l).target(with_last(p, j)) == l,
    decreases p.len(),
{
    if p.len() > 1 {
        let k = p[0] as int;
        let n = t.items[k];
        let s = n.slot(p[1] as int).unwrap();
        let p2 = p.skip(1).skip(1);
        lemma_replace_valid(s, p2, l, j);
        assert(with_last(p, j).skip(1) =~= with_last(p.skip(1), j));
        assert(with_last(p, j).skip(1).skip(1) =~= with_last(p2, j));
        let n2 = n.with_slot(p[1] as int, s.replace(p2, l));
        assert(n2.slot(p[1] as int) == Some(s.replace(p2, l)));
    }
}

/// The list that a valid path ends in, in a tree without empty function calls, has none either.
pub proof fn lemma_target_wf(t: ListModel, p: Seq<usize>)
    requires
        t.valid_path(p),
        t.wf(),
    ensures
        t.target(p).wf(),
    decreases p.len(),
{
    if p.len() > 1 {
        let n = t.items[p[0] as int];
        let s = n.slot(p[1] as int).unwrap();
        assert(n.wf());
        assert(s.wf()) by {
            if let NodeModel::FunctionCall(_, args) = n {
                assert(args[p[1] as int].wf());
            }
        }
        lemma_target_wf(s, p.skip(1).skip(1));
    }
}

/// Replacing the list that a valid path ends in by one without empty function calls keeps a tree
/// without them.
pub proof fn lemma_replace_wf(t: ListModel, p: Seq<usize>, l: ListModel)
    requires
        t.valid_path(p),
        t.wf(),
        l.wf(),
    ensures
        t.replace(p, l).wf(),
    decreases p.len(),
{
    if p.len() > 1 {
        let k = p[0] as int;
        let n = t.items[k];
        let s = n.slot(p[1] as int).unwrap();
        let p2 = p.skip(1).skip(1);
        assert(s.wf()) by {
            assert(n.wf());
            if let NodeModel::FunctionCall(_, args) = n {
                assert(args[p[1] as int].wf());
            }
        }
        lemma_replace_wf(s, p2, l);
        let n2 = n.with_slot(p[1] as int, s.replace(p2, l));
        assert(n2.wf()) by {
            assert(n.wf());
            if let NodeModel::FunctionCall(f, args) = n {
                let args2 = args.update(p[1] as int, s.replace(p2, l));
                assert forall|i: int| 0 <= i < args2.len() implies (#[trigger] args2[i]).wf() by {
                    if i != p[1] as int {
                        assert(args[i].wf());
                    }
                }
            }
        }
        let t2 = t.replace(p, l);
        assert forall|i: int| 0 <= i < t2.items.len() implies (#[trigger] t2.items[i]).wf() by {
            if i != k {
                assert(t.items[i].wf());
            }
        }
    }
}

/// The final index of a valid path is a position within the list it ends in.
pub proof fn lemma_valid_last(t: ListModel, p: Seq<usize>)
    requires
        t.valid_path(p),
    ensures
        p.len() > 0,
        p.last() <= t.target(p).items.len(),
    decreases p.len(),
{
    if p.len() > 1 {
        let n = t.items[p[0] as int];
        let s = n.slot(p[1] as int).unwrap();
        lemma_valid_last(s, p.skip(1).skip(1));
        assert(p.skip(1).skip(1).last() == p.last());
    }
}

/// The list that a valid path ends in, in a bounded tree, is bounded.
pub proof fn lemma_target_bounded(t: ListModel, p: Seq<usize>)
    requires
        t.valid_path(p),
        t.bounded(),
    ensures
        t.target(p).bounded(),
    decreases p.len(),
{
    if p.len() > 1 {
        let n = t.items[p[0] as int];
        let s = n.slot(p[1] as int).unwrap();
        assert(n.bounded());
        assert(s.bounded()) by {
            if let NodeModel::FunctionCall(_, args) = n {
                assert(args[p[1] as int].bounded());
            }
        }
        lemma_target_bounded(s, p.skip(1).skip(1));
    }
}

/// Every tree made of vectors is bounded.
pub proof fn lemma_node_bounded(n: &UnstructuredNode)
    ensures
        n@.bounded(),
    decreases n,
{
    match n {
        UnstructuredNode::Token(_) => {},
        UnstructuredNode::Sqrt(l) => lemma_list_bounded(l),
        UnstructuredNode::Parentheses(l) => lemma_list_bounded(l),
        UnstructuredNode::Power(l) => lemma_list_bounded(l),
        UnstructuredNode::Fraction(t, b) => {
            lemma_list_bounded(t);
            lemma_list_bounded(b);
        },
        UnstructuredNode::FunctionCall(_, args) => {
            assert(args@.len() == args.len());
            assert forall|i: int| 0 <= i < args@.len() implies (#[trigger] n@->FunctionCall_1[i]).bounded() by {
                assert(decreases_to!(n => n->FunctionCall_1));
                assert(decreases_to!(n->FunctionCall_1 => args[i]));
                lemma_list_bounded(&args[i]);
            }
        },
    }
}

pub proof fn lemma_list_bounded(l: &UnstructuredNodeList)
    ensures
        l@.bounded(),
    decreases l,
{
    assert(l.items@.len() == l.items.len());
    assert forall|i: int| 0 <= i < l.items@.len() implies (#[trigger] l@.items[i]).bounded() by {
        assert(decreases_to!(l => l.items));
        assert(decreases_to!(l.items => l.items[i]));
        lemma_node_bounded(&l.items[i]);
    }
}

} // verus!
