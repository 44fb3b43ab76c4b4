//! The byte format of unstructured node trees.
//!
//! A list is its item count followed by its items. A token is written with its top bit set; any
//! other node is a byte naming its kind, followed by its lists.

use vstd::prelude::*;

use crate::node::function::{ser_function, Function};
use crate::serialize::{lemma_prefix_at_concat, lemma_subrange_join, prefix_at, ser_count, Serializable};

use super::node::{ListModel, NodeModel, Token, UnstructuredNode, UnstructuredNodeList, UnstructuredNodeRoot};

verus! {

broadcast use vstd::std_specs::vec::group_vec_axioms;

/// The bytes of a token.
pub open spec fn ser_token(t: Token) -> Seq<u8> {
    match t {
        Token::Add => seq![1u8],
        Token::Subtract => seq![2u8],
        Token::Multiply => seq![3u8],
        Token::Divide => seq![4u8],
        Token::Digit(d) => seq![(5 + d) as u8],
        Token::Point => seq![15u8],
        Token::Variable(c) => seq![16u8, c as u8],
    }
}

/// A token whose bytes can be read back as the same token: a single decimal digit, or a
/// variable whose character fits in a byte.
pub open spec fn token_readable(t: Token) -> bool {
    match t {
        Token::Digit(d) => d <= 9,
        Token::Variable(c) => (c as u32) < 256,
        _ => true,
    }
}

/// The bytes of a node.
pub open spec fn ser_node(n: NodeModel) -> Seq<u8>
    decreases n, 0int,
{
    match n {
        NodeModel::Token(t) => seq![(ser_token(t)[0] + 128) as u8] + ser_token(t).skip(1),
        NodeModel::Sqrt(l) => seq![1u8] + ser_list(l),
        NodeModel::Fraction(t, b) => seq![2u8] + ser_list(t) + ser_list(b),
        NodeModel::Parentheses(l) => seq![3u8] + ser_list(l),
        NodeModel::Power(l) => seq![4u8] + ser_list(l),
        NodeModel::FunctionCall(f, args) => seq![5u8] + ser_function(f) + seq![args.len() as u8] + ser_lists(
            args,
            args.len() as int,
        ),
    }
}

/// The bytes of the first `k` of some lists, one after the other.
pub open spec fn ser_lists(args: Seq<ListModel>, k: int) -> Seq<u8>
    decreases args, k,
{
    if 0 < k <= args.len() {
        ser_lists(args, k - 1) + ser_list(args[k - 1])
    } else {
        Seq::empty()
    }
}

/// The bytes of the first `k` of some nodes, one after the other.
pub open spec fn ser_items(items: Seq<NodeModel>, k: int) -> Seq<u8>
    decreases items, k,
{
    if 0 < k <= items.len() {
        ser_items(items, k - 1) + ser_node(items[k - 1])
    } else {
        Seq::empty()
    }
}

/// The bytes of a list: its length, then its items.
pub open spec fn ser_list(l: ListModel) -> Seq<u8>
    decreases l, 0int,
{
    ser_count(l.items.len()) + ser_items(l.items, l.items.len() as int)
}

/// Every token of the node is a digit small enough to be written.
pub open spec fn node_writable(n: NodeModel) -> bool
    decreases n,
{
    match n {
        NodeModel::Token(t) => match t {
            Token::Digit(d) => d <= 122,
            _ => true,
        },
        NodeModel::Sqrt(l) | NodeModel::Parentheses(l) | NodeModel::Power(l) => list_writable(l),
        NodeModel::Fraction(t, b) => list_writable(t) && list_writable(b),
        NodeModel::FunctionCall(_, args) => forall|i: int| 0 <= i < args.len() ==> list_writable(#[trigger] args[i]),
    }
}

/// Every token of the list is a digit small enough to be written.
pub open spec fn list_writable(l: ListModel) -> bool
    decreases l,
{
    forall|i: int| 0 <= i < l.items.len() ==> node_writable(#[trigger] l.items[i])
}

/// The node can be written and read back: its tokens can, and its function calls have fewer than
/// 256 arguments.
pub open spec fn node_readable(n: NodeModel) -> bool
    decreases n,
{
    match n {
        NodeModel::Token(t) => token_readable(t),
        NodeModel::Sqrt(l) | NodeModel::Parentheses(l) | NodeModel::Power(l) => list_readable(l),
        NodeModel::Fraction(t, b) => list_readable(t) && list_readable(b),
        NodeModel::FunctionCall(_, args) => args.len() < 256 && forall|i: int|
            0 <= i < args.len() ==> list_readable(#[trigger] args[i]),
    }
}

/// The list can be written and read back.
pub open spec fn list_readable(l: ListModel) -> bool
    decreases l,
{
    &&& l.items.len() <= usize::MAX
    &&& forall|i: int| 0 <= i < l.items.len() ==> node_readable(#[trigger] l.items[i])
}

impl Serializable for Token {
    open spec fn serializable(&self) -> bool {
        match self {
            Token::Digit(d) => *d <= 250,
            _ => true,
        }
    }

    open spec fn spec_serialize(&self) -> Seq<u8> {
        ser_token(*self)
    }

    fn serialize(&self) -> (r: Vec<u8>) {
        let mut r: Vec<u8> = Vec::new();
        match self {
            Token::Add => r.push(1),
            Token::Subtract => r.push(2),
            Token::Multiply => r.push(3),
            Token::Divide => r.push(4),
            Token::Digit(d) => r.push(5 + *d),
            Token::Point => r.push(15),
            Token::Variable(c) => {
                r.push(16);
                r.push(*c as u8);
            },
        }
        assert(r@ =~= ser_token(*self));
        r
    }

    fn deserialize(bytes: &[u8], pos: &mut usize) -> (r: Option<Self>)
        ensures
            forall|t: Token|
                token_readable(t) && prefix_at(bytes@, *old(pos) as int, ser_token(t)) ==> r == Some(t)
                    && *final(pos) == *old(pos) + ser_token(t).len(),
    {
        if *pos >= bytes.len() {
            return None;
        }
        let first = bytes[*pos];
        let ghost start = *pos;
        *pos = *pos + 1;
        proof {
            assert forall|t: Token| prefix_at(bytes@, start as int, ser_token(t)) implies ser_token(t)[0] == first
                && prefix_at(bytes@, start + 1, ser_token(t).skip(1)) by {
                let s = ser_token(t);
                assert(s =~= seq![s[0]] + s.skip(1));
                lemma_prefix_at_concat(bytes@, start as int, seq![s[0]], s.skip(1));
                assert(bytes@.subrange(start as int, start + 1)[0] == bytes@[start as int]);
            }
        }
        token_after(first, bytes, pos)
    }
}

/// Reads the rest of a token, given its first byte, which comes just before the position.
fn token_after(first: u8, bytes: &[u8], pos: &mut usize) -> (r: Option<Token>)
    requires
        1 <= *old(pos) <= bytes@.len(),
    ensures
        *old(pos) <= *final(pos) <= bytes@.len(),
        r matches Some(t) ==> seq![first] + bytes@.subrange(*old(pos) as int, *final(pos) as int) == ser_token(t)
            && token_readable(t),
        forall|t: Token|
            token_readable(t) && ser_token(t)[0] == first && prefix_at(bytes@, *old(pos) as int, ser_token(t).skip(1))
                ==> r == Some(t) && *final(pos) == *old(pos) + ser_token(t).len() - 1,
{
    let start = *pos;
    let r = match first {
        1 => Some(Token::Add),
        2 => Some(Token::Subtract),
        3 => Some(Token::Multiply),
        4 => Some(Token::Divide),
        5..=14 => Some(Token::Digit(first - 5)),
        15 => Some(Token::Point),
        16 => {
            if *pos >= bytes.len() {
                return None;
            }
            let c = bytes[*pos];
            *pos = *pos + 1;
            Some(Token::Variable(c as char))
        },
        _ => None,
    };
    proof {
        if let Some(t) = r {
            assert(seq![first] + bytes@.subrange(start as int, *pos as int) =~= ser_token(t));
        }
        assert forall|t: Token|
            token_readable(t) && ser_token(t)[0] == first && prefix_at(bytes@, start as int, ser_token(t).skip(1))
                implies r == Some(t) && *pos == start + ser_token(t).len() - 1 by {
            if let Token::Variable(c) = t {
                assert(bytes@.subrange(start as int, start + 1)[0] == ser_token(t).skip(1)[0]);
                assert((c as u8) as char == c) by {
                    assert((c as u32) < 256);
                }
            }
        }
    }
    r
}

/// The bytes of the first `k` nodes depend on those nodes only.
proof fn lemma_ser_items_prefix(a: Seq<NodeModel>, b: Seq<NodeModel>, k: int)
    requires
        0 <= k <= a.len(),
        k <= b.len(),
        forall|i: int| 0 <= i < k ==> a[i] == b[i],
    ensures
        ser_items(a, k) == ser_items(b, k),
    decreases k,
{
    if k > 0 {
        lemma_ser_items_prefix(a, b, k - 1);
    }
}

/// The bytes of the first `k` lists depend on those lists only.
proof fn lemma_ser_lists_prefix(a: Seq<ListModel>, b: Seq<ListModel>, k: int)
    requires
        0 <= k <= a.len(),
        k <= b.len(),
        forall|i: int| 0 <= i < k ==> a[i] == b[i],
    ensures
        ser_lists(a, k) == ser_lists(b, k),
    decreases k,
{
    if k > 0 {
        lemma_ser_lists_prefix(a, b, k - 1);
    }
}

/// Where the bytes of the first `n` nodes appear, the bytes of node `i` appear after those of the
/// nodes before it.
proof fn lemma_ser_items_at(bytes: Seq<u8>, p: int, s: Seq<NodeModel>, n: int, i: int)
    requires
        0 <= i < n <= s.len(),
        prefix_at(bytes, p, ser_items(s, n)),
    ensures
        prefix_at(bytes, p + ser_items(s, i).len(), ser_node(s[i])),
        prefix_at(bytes, p, ser_items(s, i + 1)),
    decreases n,
{
    lemma_prefix_at_concat(bytes, p, ser_items(s, n - 1), ser_node(s[n - 1]));
    if i < n - 1 {
        lemma_ser_items_at(bytes, p, s, n - 1, i);
    }
}

/// Where the bytes of the first `n` lists appear, the bytes of list `i` appear after those of the
/// lists before it.
proof fn lemma_ser_lists_at(bytes: Seq<u8>, p: int, s: Seq<ListModel>, n: int, i: int)
    requires
        0 <= i < n <= s.len(),
        prefix_at(bytes, p, ser_lists(s, n)),
    ensures
        prefix_at(bytes, p + ser_lists(s, i).len(), ser_list(s[i])),
        prefix_at(bytes, p, ser_lists(s, i + 1)),
    decreases n,
{
    lemma_prefix_at_concat(bytes, p, ser_lists(s, n - 1), ser_list(s[n - 1]));
    if i < n - 1 {
        lemma_ser_lists_at(bytes, p, s, n - 1, i);
    }
}

/// The first byte of each kind of node.
proof fn lemma_first_byte(m: NodeModel)
    requires
        node_readable(m),
    ensures
        ser_node(m).len() >= 1,
        m is Token <==> ser_node(m)[0] >= 128,
        m is Sqrt <==> ser_node(m)[0] == 1,
        m is Fraction <==> ser_node(m)[0] == 2,
        m is Parentheses <==> ser_node(m)[0] == 3,
        m is Power <==> ser_node(m)[0] == 4,
        m is FunctionCall <==> ser_node(m)[0] == 5,
{
}

/// The list inside a node with a single list.
pub open spec fn inner_list(n: NodeModel) -> ListModel {
    match n {
        NodeModel::Sqrt(l) | NodeModel::Parentheses(l) | NodeModel::Power(l) => l,
        _ => ListModel { items: Seq::empty() },
    }
}

/// Reads a node.
fn read_node(bytes: &[u8], pos: &mut usize) -> (r: Option<UnstructuredNode>)
    requires
        *old(pos) <= bytes@.len(),
    ensures
        *final(pos) <= bytes@.len(),
        r matches Some(x) ==> *old(pos) <= *final(pos) && bytes@.subrange(*old(pos) as int, *final(pos) as int)
            == ser_node(x@),
        forall|m: NodeModel|
            node_readable(m) && prefix_at(bytes@, *old(pos) as int, ser_node(m)) ==> (r matches Some(x) && x@
                == m && *final(pos) == *old(pos) + ser_node(m).len()),
    decreases bytes@.len() - *old(pos), 1int,
{
    let start = *pos;
    if *pos >= bytes.len() {
        proof {
            assert forall|m: NodeModel| node_readable(m) implies !prefix_at(bytes@, start as int, ser_node(m)) by {
                lemma_first_byte(m);
            }
        }
        return None;
    }
    let first = bytes[*pos];
    *pos = *pos + 1;
    proof {
        assert forall|m: NodeModel| node_readable(m) && prefix_at(bytes@, start as int, ser_node(m)) implies ser_node(m)[0]
            == first && prefix_at(bytes@, start + 1, ser_node(m).skip(1)) by {
            lemma_first_byte(m);
            let s = ser_node(m);
            assert(s =~= seq![s[0]] + s.skip(1));
            lemma_prefix_at_concat(bytes@, start as int, seq![s[0]], s.skip(1));
            assert(bytes@.subrange(start as int, start + 1)[0] == bytes@[start as int]);
        }
    }
    if first >= 128 {
        let low = first & 0x7F;
        assert(low == first - 128 && low < 128) by (bit_vector)
            requires
                first >= 128,
                low == first & 0x7F,
        ;
        let token = token_after(low, bytes, pos);
        match token {
            Some(t) => {
                let r = UnstructuredNode::Token(t);
                proof {
                    assert(ser_token(t)[0] == low);
                    assert(ser_token(t).skip(1) =~= bytes@.subrange(start + 1, *pos as int));
                    lemma_subrange_join(bytes@, start as int, start + 1, *pos as int);
                    assert(bytes@.subrange(start as int, start + 1) =~= seq![first]);
                    assert(bytes@.subrange(start as int, *pos as int) =~= ser_node(r@));
                    assert forall|m: NodeModel| node_readable(m) && prefix_at(bytes@, start as int, ser_node(m)) implies r@ == m
                        && *pos == start + ser_node(m).len() by {
                        lemma_first_byte(m);
                        let t2 = m->Token_0;
                        assert(ser_node(m).skip(1) =~= ser_token(t2).skip(1));
                    }
                }
                return Some(r);
            },
            None => {
                proof {
                    assert forall|m: NodeModel| node_readable(m) implies !prefix_at(bytes@, start as int, ser_node(m)) by {
                        lemma_first_byte(m);
                        if prefix_at(bytes@, start as int, ser_node(m)) {
                            let t2 = m->Token_0;
                            assert(ser_node(m).skip(1) =~= ser_token(t2).skip(1));
                        }
                    }
                }
                return None;
            },
        }
    }
    if first == 1 || first == 3 || first == 4 {
        let ghost inner_start = *pos;
        let inner = read_list(bytes, pos);
        proof {
            assert forall|m: NodeModel| node_readable(m) && prefix_at(bytes@, start as int, ser_node(m)) implies (m is Sqrt
                || m is Parentheses || m is Power) && (inner matches Some(x) && x@ == inner_list(m)) && *pos == start
                + ser_node(m).len() by {
                lemma_first_byte(m);
                let l2 = inner_list(m);
                assert(ser_node(m).skip(1) =~= ser_list(l2));
                assert(prefix_at(bytes@, inner_start as int, ser_list(l2)));
                assert(list_readable(l2));
            }
        }
        match inner {
            Some(l) => {
                let r = if first == 1 {
                    UnstructuredNode::Sqrt(l)
                } else if first == 3 {
                    UnstructuredNode::Parentheses(l)
                } else {
                    UnstructuredNode::Power(l)
                };
                proof {
                    lemma_subrange_join(bytes@, start as int, start + 1, *pos as int);
                    assert(bytes@.subrange(start as int, start + 1) =~= seq![first]);
                    assert(bytes@.subrange(start as int, *pos as int) =~= ser_node(r@));
                    assert forall|m: NodeModel| node_readable(m) && prefix_at(bytes@, start as int, ser_node(m)) implies r@ == m
                        && *pos == start + ser_node(m).len() by {
                        lemma_first_byte(m);
                    }
                }
                return Some(r);
            },
            None => {
                return None;
            },
        }
    }
    if first == 2 {
        let ghost top_start = *pos;
        let top = read_list(bytes, pos);
        proof {
            assert forall|m: NodeModel| node_readable(m) && prefix_at(bytes@, start as int, ser_node(m)) implies m is Fraction
                && (top matches Some(x) && x@ == m->Fraction_0) && *pos == top_start + ser_list(m->Fraction_0).len()
                && prefix_at(bytes@, *pos as int, ser_list(m->Fraction_1)) && list_readable(m->Fraction_1) by {
                lemma_first_byte(m);
                let t2 = m->Fraction_0;
                let b2 = m->Fraction_1;
                assert(ser_node(m).skip(1) =~= ser_list(t2) + ser_list(b2));
                lemma_prefix_at_concat(bytes@, top_start as int, ser_list(t2), ser_list(b2));
                assert(list_readable(t2));
                assert(prefix_at(bytes@, top_start as int, ser_list(t2)));
                if let Some(x) = top {
                    assert(x@ == t2);
                }
            }
        }
        let top = match top {
            Some(t) => t,
            None => return None,
        };
        let middle = *pos;
        let bottom = read_list(bytes, pos);
        proof {
            assert forall|m: NodeModel| node_readable(m) && prefix_at(bytes@, start as int, ser_node(m)) implies (bottom matches Some(
                x,
            ) && x@ == m->Fraction_1) && *pos == start + ser_node(m).len() by {
                lemma_first_byte(m);
                let t2 = m->Fraction_0;
                let b2 = m->Fraction_1;
                assert(ser_node(m).len() == 1 + ser_list(t2).len() + ser_list(b2).len());
            }
        }
        match bottom {
            Some(b) => {
                let r = UnstructuredNode::Fraction(top, b);
                proof {
                    lemma_subrange_join(bytes@, start as int, start + 1, middle as int);
                    lemma_subrange_join(bytes@, start as int, middle as int, *pos as int);
                    assert(bytes@.subrange(start as int, start + 1) =~= seq![first]);
                    assert(bytes@.subrange(start as int, *pos as int) =~= ser_node(r@));
                }
                return Some(r);
            },
            None => return None,
        }
    }
    if first == 5 {
        return read_function_call(bytes, pos, start);
    }
    proof {
        assert forall|m: NodeModel| node_readable(m) implies !prefix_at(bytes@, start as int, ser_node(m)) by {
            lemma_first_byte(m);
        }
    }
    None
}

/// Reads the rest of a function call, whose first byte comes just before the position.
fn read_function_call(bytes: &[u8], pos: &mut usize, start: usize) -> (r: Option<UnstructuredNode>)
    requires
        *old(pos) == start + 1,
        *old(pos) <= bytes@.len(),
        bytes@[start as int] == 5,
        forall|m: NodeModel|
            node_readable(m) && prefix_at(bytes@, start as int, ser_node(m)) ==> ser_node(m)[0] == 5
                && prefix_at(bytes@, start + 1, ser_node(m).skip(1)),
    ensures
        *final(pos) <= bytes@.len(),
        r matches Some(x) ==> start <= *final(pos) && bytes@.subrange(start as int, *final(pos) as int) == ser_node(x@),
        forall|m: NodeModel|
            node_readable(m) && prefix_at(bytes@, start as int, ser_node(m)) ==> (r matches Some(x) && x@
                == m && *final(pos) == start + ser_node(m).len()),
    decreases bytes@.len() - start, 0int,
{
    // The bytes after the first, for each function call they could belong to
    proof {
        assert forall|m: NodeModel| node_readable(m) && prefix_at(bytes@, start as int, ser_node(m)) implies {
            &&& m is FunctionCall
            &&& prefix_at(bytes@, start + 1, ser_function(m->FunctionCall_0))
            &&& prefix_at(bytes@, start + 2, seq![m->FunctionCall_1.len() as u8])
            &&& prefix_at(bytes@, start + 3, ser_lists(m->FunctionCall_1, m->FunctionCall_1.len() as int))
        } by {
            lemma_first_byte(m);
            let f = m->FunctionCall_0;
            let args = m->FunctionCall_1;
            assert(ser_node(m).skip(1) =~= ser_function(f) + (seq![args.len() as u8] + ser_lists(args, args.len() as int)));
            lemma_prefix_at_concat(bytes@, start + 1, ser_function(f), seq![args.len() as u8] + ser_lists(args, args.len() as int));
            lemma_prefix_at_concat(bytes@, start + 2, seq![args.len() as u8], ser_lists(args, args.len() as int));
        }
    }
    let function = Function::deserialize(bytes, pos);
    let function = match function {
        Some(f) => f,
        None => return None,
    };
    if *pos >= bytes.len() {
        return None;
    }
    let arg_count = bytes[*pos];
    *pos = *pos + 1;
    proof {
        assert forall|m: NodeModel| node_readable(m) && prefix_at(bytes@, start as int, ser_node(m)) implies m->FunctionCall_0
            == function && m->FunctionCall_1.len() == arg_count by {
            assert(bytes@.subrange(start + 2, start + 3)[0] == bytes@[start + 2]);
        }
    }
    let ghost head = bytes@.subrange(start as int, *pos as int);
    proof {
        assert(head =~= seq![5u8] + ser_function(function) + seq![arg_count]);
    }
    let mut args: Vec<UnstructuredNodeList> = Vec::new();
    let ghost mut got: Seq<ListModel> = Seq::empty();
    let mut i: u8 = 0;
    while i < arg_count
        invariant
            start + 3 <= *pos <= bytes@.len(),
            start + 1 == *old(pos),
            i <= arg_count,
            got.len() == i,
            args@.len() == i,
            forall|j: int| 0 <= j < i ==> (#[trigger] args@[j])@ == got[j],
            bytes@.subrange(start as int, *pos as int) == head + ser_lists(got, i as int),
            head == seq![5u8] + ser_function(function) + seq![arg_count],
            forall|m: NodeModel|
                node_readable(m) && prefix_at(bytes@, start as int, ser_node(m)) ==> {
                    &&& m is FunctionCall
                    &&& m->FunctionCall_0 == function
                    &&& m->FunctionCall_1.len() == arg_count
                    &&& prefix_at(bytes@, start + 3, ser_lists(m->FunctionCall_1, arg_count as int))
                    &&& got == m->FunctionCall_1.take(i as int)
                    &&& *pos == start + 3 + ser_lists(m->FunctionCall_1, i as int).len()
                },
        decreases arg_count - i,
    {
        let ghost before = *pos;
        proof {
            assert forall|m: NodeModel| node_readable(m) && prefix_at(bytes@, start as int, ser_node(m)) implies
                list_readable(m->FunctionCall_1[i as int]) && prefix_at(bytes@, before as int, ser_list(m->FunctionCall_1[i as int])) by {
                let a = m->FunctionCall_1;
                lemma_ser_lists_at(bytes@, start + 3, a, arg_count as int, i as int);
                lemma_ser_lists_prefix(a, got, i as int);
            }
        }
        let arg = read_list(bytes, pos);
        let arg = match arg {
            Some(a) => a,
            None => return None,
        };
        proof {
            let new_got = got.push(arg@);
            lemma_ser_lists_prefix(got, new_got, i as int);
            lemma_subrange_join(bytes@, start as int, before as int, *pos as int);
            assert forall|m: NodeModel| node_readable(m) && prefix_at(bytes@, start as int, ser_node(m)) implies new_got
                == m->FunctionCall_1.take(i + 1) && *pos == start + 3 + ser_lists(m->FunctionCall_1, i + 1).len() by {
                let a = m->FunctionCall_1;
                lemma_ser_lists_prefix(a, got, i as int);
                assert(new_got =~= a.take(i + 1));
            }
            got = new_got;
        }
        args.push(arg);
        i = i + 1;
    }
    let r = UnstructuredNode::FunctionCall(function, args);
    proof {
        assert(r@->FunctionCall_1 =~= got);
        assert(bytes@.subrange(start as int, *pos as int) =~= ser_node(r@));
        assert forall|m: NodeModel| node_readable(m) && prefix_at(bytes@, start as int, ser_node(m)) implies r@ == m
            && *pos == start + ser_node(m).len() by {
            assert(got =~= m->FunctionCall_1);
        }
    }
    Some(r)
}

/// Reads a list.
fn read_list(bytes: &[u8], pos: &mut usize) -> (r: Option<UnstructuredNodeList>)
    requires
        *old(pos) <= bytes@.len(),
    ensures
        *final(pos) <= bytes@.len(),
        r matches Some(x) ==> *old(pos) <= *final(pos) && bytes@.subrange(*old(pos) as int, *final(pos) as int)
            == ser_list(x@),
        forall|m: ListModel|
            list_readable(m) && prefix_at(bytes@, *old(pos) as int, ser_list(m)) ==> (r matches Some(x) && x@
                == m && *final(pos) == *old(pos) + ser_list(m).len()),
    decreases bytes@.len() - *old(pos), 2int,
{
    let start = *pos;
    proof {
        assert forall|m: ListModel| list_readable(m) && prefix_at(bytes@, start as int, ser_list(m)) implies prefix_at(
            bytes@,
            start as int,
            ser_count(m.items.len()),
        ) && prefix_at(bytes@, start + ser_count(m.items.len()).len(), ser_items(m.items, m.items.len() as int)) by {
            lemma_prefix_at_concat(bytes@, start as int, ser_count(m.items.len()), ser_items(m.items, m.items.len() as int));
        }
    }
    let len = usize::deserialize(bytes, pos);
    let len = match len {
        Some(n) => n,
        None => {
            proof {
                assert forall|m: ListModel| list_readable(m) implies !prefix_at(bytes@, start as int, ser_list(m)) by {
                    if prefix_at(bytes@, start as int, ser_list(m)) {
                        let n = m.items.len() as usize;
                        assert(ser_count(n as nat) == ser_count(m.items.len()));
                    }
                }
            }
            return None;
        },
    };
    let count_end = *pos;
    proof {
        assert forall|m: ListModel| list_readable(m) && prefix_at(bytes@, start as int, ser_list(m)) implies m.items.len()
            == len && count_end == start + ser_count(m.items.len()).len() by {
            let n = m.items.len() as usize;
            assert(ser_count(n as nat) == ser_count(m.items.len()));
        }
    }
    let mut items: Vec<UnstructuredNode> = Vec::new();
    let ghost mut got: Seq<NodeModel> = Seq::empty();
    let mut i: usize = 0;
    while i < len
        invariant
            start < count_end <= *pos <= bytes@.len(),
            start == *old(pos),
            i <= len,
            got.len() == i,
            items@.len() == i,
            forall|j: int| 0 <= j < i ==> (#[trigger] items@[j])@ == got[j],
            bytes@.subrange(start as int, *pos as int) == ser_count(len as nat) + ser_items(got, i as int),
            bytes@.subrange(start as int, count_end as int) == ser_count(len as nat),
            forall|m: ListModel|
                list_readable(m) && prefix_at(bytes@, start as int, ser_list(m)) ==> {
                    &&& m.items.len() == len
                    &&& prefix_at(bytes@, count_end as int, ser_items(m.items, len as int))
                    &&& got == m.items.take(i as int)
                    &&& *pos == count_end + ser_items(m.items, i as int).len()
                },
        decreases len - i,
    {
        let ghost before = *pos;
        proof {
            assert forall|m: ListModel| list_readable(m) && prefix_at(bytes@, start as int, ser_list(m)) implies node_readable(
                m.items[i as int],
            ) && prefix_at(bytes@, before as int, ser_node(m.items[i as int])) by {
                lemma_ser_items_at(bytes@, count_end as int, m.items, len as int, i as int);
                lemma_ser_items_prefix(m.items, got, i as int);
            }
        }
        let item = read_node(bytes, pos);
        let item = match item {
            Some(x) => x,
            None => {
                proof {
                    assert forall|m: ListModel| list_readable(m) implies !prefix_at(bytes@, start as int, ser_list(m)) by {
                        if prefix_at(bytes@, start as int, ser_list(m)) {
                            assert(node_readable(m.items[i as int]));
                        }
                    }
                }
                return None;
            },
        };
        proof {
            let new_got = got.push(item@);
            lemma_ser_items_prefix(got, new_got, i as int);
            lemma_subrange_join(bytes@, start as int, before as int, *pos as int);
            assert(bytes@.subrange(start as int, *pos as int) =~= ser_count(len as nat) + ser_items(new_got, i + 1));
            assert forall|m: ListModel| list_readable(m) && prefix_at(bytes@, start as int, ser_list(m)) implies new_got
                == m.items.take(i + 1) && *pos == count_end + ser_items(m.items, i + 1).len() by {
                lemma_ser_items_prefix(m.items, got, i as int);
                assert(new_got =~= m.items.take(i + 1));
            }
            got = new_got;
        }
        items.push(item);
        i = i + 1;
    }
    let r = UnstructuredNodeList { items };
    proof {
        assert(r@.items =~= got);
        assert(bytes@.subrange(start as int, *pos as int) =~= ser_list(r@));
        assert forall|m: ListModel| list_readable(m) && prefix_at(bytes@, start as int, ser_list(m)) implies r@ == m
            && *pos == start + ser_list(m).len() by {
            assert(got =~= m.items);
            assert(r@.items =~= m.items);
        }
    }
    Some(r)
}

/// Appends the bytes of a node.
fn write_node(n: &UnstructuredNode, out: &mut Vec<u8>)
    requires
        node_writable(n@),
    ensures
        final(out)@ == old(out)@ + ser_node(n@),
    decreases n, 0int,
{
    let ghost before = out@;
    match n {
        UnstructuredNode::Token(t) => {
            let token_bytes = t.serialize();
            let first = token_bytes[0];
            assert(first < 128);
            out.push(first | 0x80);
            assert((first | 0x80) == first + 128) by (bit_vector)
                requires
                    first < 128,
            ;
            let mut i: usize = 1;
            while i < token_bytes.len()
                invariant
                    1 <= i <= token_bytes@.len(),
                    out@ =~= before + seq![(first + 128) as u8] + token_bytes@.subrange(1, i as int),
                decreases token_bytes@.len() - i,
            {
                out.push(token_bytes[i]);
                i = i + 1;
            }
            assert(token_bytes@.subrange(1, i as int) =~= token_bytes@.skip(1));
        },
        UnstructuredNode::Sqrt(l) => {
            out.push(1);
            write_list(l, out);
        },
        UnstructuredNode::Fraction(t, b) => {
            out.push(2);
            write_list(t, out);
            write_list(b, out);
        },
        UnstructuredNode::Parentheses(l) => {
            out.push(3);
            write_list(l, out);
        },
        UnstructuredNode::Power(l) => {
            out.push(4);
            write_list(l, out);
        },
        UnstructuredNode::FunctionCall(f, args) => {
            out.push(5);
            let mut function_bytes = f.serialize();
            out.append(&mut function_bytes);
            out.push(args.len() as u8);
            let ghost args_model = n@->FunctionCall_1;
            let ghost head = out@;
            let mut i: usize = 0;
            while i < args.len()
                invariant
                    i <= args@.len(),
                    *n == UnstructuredNode::FunctionCall(*f, *args),
                    args_model == n@->FunctionCall_1,
                    node_writable(n@),
                    out@ == head + ser_lists(args_model, i as int),
                decreases args@.len() - i,
            {
                proof {
                    assert(decreases_to!(*n => n->FunctionCall_1));
                    assert(decreases_to!(n->FunctionCall_1 => args[i as int]));
                    assert(args_model[i as int] == args@[i as int]@);
                }
                write_list(&args[i], out);
                i = i + 1;
            }
        },
    }
    assert(out@ =~= before + ser_node(n@));
}

/// Appends the bytes of a list.
fn write_list(l: &UnstructuredNodeList, out: &mut Vec<u8>)
    requires
        list_writable(l@),
    ensures
        final(out)@ == old(out)@ + ser_list(l@),
    decreases l, 0int,
{
    let ghost before = out@;
    let mut count_bytes = l.items.len().serialize();
    out.append(&mut count_bytes);
    let ghost head = out@;
    let mut i: usize = 0;
    while i < l.items.len()
        invariant
            i <= l.items@.len(),
            list_writable(l@),
            out@ == head + ser_items(l@.items, i as int),
        decreases l.items@.len() - i,
    {
        proof {
            assert(decreases_to!(l => l.items));
            assert(decreases_to!(l.items => l.items[i as int]));
            assert(l@.items[i as int] == l.items@[i as int]@);
        }
        write_node(&l.items[i], out);
        i = i + 1;
    }
    assert(out@ =~= before + ser_list(l@));
}


impl Serializable for UnstructuredNode {
    open spec fn serializable(&self) -> bool {
        node_writable(self@)
    }

    open spec fn spec_serialize(&self) -> Seq<u8> {
        ser_node(self@)
    }

    fn serialize(&self) -> (r: Vec<u8>) {
        let mut out: Vec<u8> = Vec::new();
        write_node(self, &mut out);
        assert(out@ =~= ser_node(self@));
        out
    }

    /// Reading back the bytes of a node which can be read back gives that node.
    fn deserialize(bytes: &[u8], pos: &mut usize) -> (r: Option<Self>)
        ensures
            forall|m: NodeModel|
                node_readable(m) && prefix_at(bytes@, *old(pos) as int, ser_node(m)) ==> (r matches Some(x)
                    && x@ == m && *final(pos) == *old(pos) + ser_node(m).len()),
    {
        read_node(bytes, pos)
    }
}

impl Serializable for UnstructuredNodeList {
    open spec fn serializable(&self) -> bool {
        list_writable(self@)
    }

    open spec fn spec_serialize(&self) -> Seq<u8> {
        ser_list(self@)
    }

    fn serialize(&self) -> (r: Vec<u8>) {
        let mut out: Vec<u8> = Vec::new();
        write_list(self, &mut out);
        assert(out@ =~= ser_list(self@));
        out
    }

    /// Reading back the bytes of a list which can be read back gives that list.
    fn deserialize(bytes: &[u8], pos: &mut usize) -> (r: Option<Self>)
        ensures
            forall|m: ListModel|
                list_readable(m) && prefix_at(bytes@, *old(pos) as int, ser_list(m)) ==> (r matches Some(x)
                    && x@ == m && *final(pos) == *old(pos) + ser_list(m).len()),
    {
        read_list(bytes, pos)
    }
}

impl Serializable for UnstructuredNodeRoot {
    open spec fn serializable(&self) -> bool {
        list_writable(self@)
    }

    open spec fn spec_serialize(&self) -> Seq<u8> {
        ser_list(self@)
    }

    fn serialize(&self) -> (r: Vec<u8>) {
        self.root.serialize()
    }

    /// Reading back the bytes of a tree which can be read back gives that tree.
    fn deserialize(bytes: &[u8], pos: &mut usize) -> (r: Option<Self>)
        ensures
            forall|m: ListModel|
                list_readable(m) && prefix_at(bytes@, *old(pos) as int, ser_list(m)) ==> (r matches Some(x)
                    && x@ == m && *final(pos) == *old(pos) + ser_list(m).len()),
    {
        match read_list(bytes, pos) {
            Some(root) => Some(UnstructuredNodeRoot { root }),
            None => None,
        }
    }
}

} // verus!
