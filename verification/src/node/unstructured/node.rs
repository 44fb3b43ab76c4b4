//! The definition of the unstructured node tree itself.

use vstd::prelude::*;

use crate::node::function::Function;
use crate::number::{char_digit, dec_to_string, decimal_to_string, number_wf, Dec, Number};

verus! {

broadcast use vstd::std_specs::vec::group_vec_axioms;

/// An unstructured item, either a node or a node list.
#[derive(Clone)]
pub enum UnstructuredItem<'a> {
    Node(&'a UnstructuredNode),
    List(&'a UnstructuredNodeList),
}

/// A token which may appear in an unstructured node tree: a simple, character-sized item with no
/// further nodes nested inside it.
#[derive(PartialEq, Eq, Debug, Copy, Clone)]
pub enum Token {
    /// An addition symbol.
    Add,
    /// A subtraction symbol.
    Subtract,
    /// A multiplication symbol.
    Multiply,
    /// A division symbol.
    Divide,
    /// A base-10 digit.
    Digit(u8),
    /// A decimal point.
    Point,
    /// A variable, denoted by a particular character.
    Variable(char),
}

/// The token which the given character denotes, if there is one. Digits are the characters `0` to
/// `9`; variables are never produced.
pub open spec fn spec_token_from_char(c: char) -> Option<Token> {
    if c == '+' {
        Some(Token::Add)
    } else if c == '-' {
        Some(Token::Subtract)
    } else if c == '*' {
        Some(Token::Multiply)
    } else if c == '/' {
        Some(Token::Divide)
    } else if c == '.' {
        Some(Token::Point)
    } else if '0' <= c <= '9' {
        Some(Token::Digit((c as u32 - '0' as u32) as u8))
    } else {
        None
    }
}

impl Token {
    /// Attempts to convert the given character to a `Token`, or returns `None` if this is not
    /// possible. Only ASCII characters are recognised, and a [Token::Variable] is never returned.
    pub fn from_char(c: char) -> (r: Option<Token>)
        ensures
            r == spec_token_from_char(c),
    {
        if c == '+' {
            Some(Token::Add)
        } else if c == '-' {
            Some(Token::Subtract)
        } else if c == '*' {
            Some(Token::Multiply)
        } else if c == '/' {
            Some(Token::Divide)
        } else if c == '.' {
            Some(Token::Point)
        } else if '0' <= c && c <= '9' {
            Some(Token::Digit((c as u32 - '0' as u32) as u8))
        } else {
            None
        }
    }
}

/// An unstructured node in the tree.
#[derive(PartialEq, Eq, Debug)]
pub enum UnstructuredNode {
    /// A plain token.
    Token(Token),
    /// A square root, applied to other unstructured nodes.
    Sqrt(UnstructuredNodeList),
    /// A fraction, with lists of unstructured nodes as the numerator and denominator.
    Fraction(UnstructuredNodeList, UnstructuredNodeList),
    /// A set of parentheses containing other unstructured nodes.
    Parentheses(UnstructuredNodeList),
    /// A power of unstructured nodes. The base is whatever precedes it in its list.
    Power(UnstructuredNodeList),
    /// A function call, with a sequence of arguments passed as unstructured nodes.
    FunctionCall(Function, Vec<UnstructuredNodeList>),
}

/// An ordered sequence of unstructured nodes.
#[derive(PartialEq, Eq, Debug)]
pub struct UnstructuredNodeList {
    pub items: Vec<UnstructuredNode>,
}

/// The root of a tree of unstructured nodes.
#[derive(PartialEq, Eq, Debug)]
pub struct UnstructuredNodeRoot {
    pub root: UnstructuredNodeList,
}

/// The mathematical value of an [UnstructuredNode].
#[verifier::ext_equal]
pub enum NodeModel {
    Token(Token),
    Sqrt(ListModel),
    Fraction(ListModel, ListModel),
    Parentheses(ListModel),
    Power(ListModel),
    FunctionCall(Function, Seq<ListModel>),
}

/// The mathematical value of an [UnstructuredNodeList].
#[verifier::ext_equal]
pub struct ListModel {
    pub items: Seq<NodeModel>,
}

impl UnstructuredNode {
    pub open spec fn model(&self) -> NodeModel
        decreases self,
    {
        match self {
            UnstructuredNode::Token(t) => NodeModel::Token(*t),
            UnstructuredNode::Sqrt(l) => NodeModel::Sqrt(l.model()),
            UnstructuredNode::Fraction(t, b) => NodeModel::Fraction(t.model(), b.model()),
            UnstructuredNode::Parentheses(l) => NodeModel::Parentheses(l.model()),
            UnstructuredNode::Power(l) => NodeModel::Power(l.model()),
            UnstructuredNode::FunctionCall(f, args) => NodeModel::FunctionCall(
                *f,
                Seq::new(
                    args@.len(),
                    |i: int|
                        if 0 <= i < args@.len() {
                            args@[i].model()
                        } else {
                            ListModel { items: Seq::empty() }
                        },
                ),
            ),
        }
    }
}

impl UnstructuredNodeList {
    pub open spec fn model(&self) -> ListModel
        decreases self,
    {
        ListModel {
            items: Seq::new(
                self.items@.len(),
                |i: int|
                    if 0 <= i < self.items@.len() {
                        self.items@[i].model()
                    } else {
                        NodeModel::Token(Token::Point)
                    },
            ),
        }
    }
}

impl View for UnstructuredNode {
    type V = NodeModel;

    open spec fn view(&self) -> NodeModel {
        self.model()
    }
}

impl View for UnstructuredNodeList {
    type V = ListModel;

    open spec fn view(&self) -> ListModel {
        self.model()
    }
}

impl View for UnstructuredNodeRoot {
    type V = ListModel;

    open spec fn view(&self) -> ListModel {
        self.root.model()
    }
}

/// The empty node list.
pub open spec fn empty_list() -> ListModel {
    ListModel { items: Seq::empty() }
}

impl UnstructuredNode {
    /// Creates a new `UnstructuredNode::FunctionCall` given a function, with an empty list for
    /// each argument.
    pub fn new_function_call(func: Function) -> (r: Self)
        ensures
            r@ == NodeModel::FunctionCall(
                func,
                Seq::new(func.spec_argument_count(), |i: int| empty_list()),
            ),
    {
        let count = func.argument_count();
        let mut args: Vec<UnstructuredNodeList> = Vec::new();
        let mut i: usize = 0;
        while i < count
            invariant
                i <= count,
                count == func.spec_argument_count(),
                args@.len() == i,
                forall|j: int| 0 <= j < i ==> (#[trigger] args@[j])@ == empty_list(),
            decreases count - i,
        {
            args.push(UnstructuredNodeList::new());
            proof {
                assert(args@[i as int]@.items =~= Seq::<NodeModel>::empty());
            }
            i = i + 1;
        }
        let r = UnstructuredNode::FunctionCall(func, args);
        proof {
            assert(r@ matches NodeModel::FunctionCall(f, a) && a =~= Seq::new(
                func.spec_argument_count(),
                |i: int| empty_list(),
            ));
        }
        r
    }

    /// A copy of this node.
    pub fn copy(&self) -> (r: Self)
        ensures
            r@ == self@,
        decreases self,
    {
        match self {
            UnstructuredNode::Token(t) => UnstructuredNode::Token(*t),
            UnstructuredNode::Sqrt(l) => UnstructuredNode::Sqrt(l.copy()),
            UnstructuredNode::Fraction(t, b) => UnstructuredNode::Fraction(t.copy(), b.copy()),
            UnstructuredNode::Parentheses(l) => UnstructuredNode::Parentheses(l.copy()),
            UnstructuredNode::Power(l) => UnstructuredNode::Power(l.copy()),
            UnstructuredNode::FunctionCall(f, args) => {
                let mut new_args: Vec<UnstructuredNodeList> = Vec::new();
                let mut i: usize = 0;
                while i < args.len()
                    invariant
                        i <= args@.len(),
                        *self == UnstructuredNode::FunctionCall(*f, *args),
                        new_args@.len() == i,
                        forall|j: int| 0 <= j < i ==> (#[trigger] new_args@[j])@ == args@[j]@,
                    decreases args@.len() - i,
                {
                    proof {
                        assert(decreases_to!(*self => self->FunctionCall_1));
                        assert(decreases_to!(self->FunctionCall_1 => args[i as int]));
                    }
                    new_args.push(args[i].copy());
                    i = i + 1;
                }
                let r = UnstructuredNode::FunctionCall(*f, new_args);
                proof {
                    assert(r@ matches NodeModel::FunctionCall(g, a) && a =~= (match self@ {
                        NodeModel::FunctionCall(_, b) => b,
                        _ => Seq::empty(),
                    }));
                }
                r
            },
        }
    }
}

impl UnstructuredNodeList {
    pub fn new() -> (r: Self)
        ensures
            r@ == empty_list(),
    {
        let r = UnstructuredNodeList { items: Vec::new() };
        proof {
            assert(r@.items =~= Seq::<NodeModel>::empty());
        }
        r
    }

    /// A copy of this list.
    pub fn copy(&self) -> (r: Self)
        ensures
            r@ == self@,
        decreases self,
    {
        let mut items: Vec<UnstructuredNode> = Vec::new();
        let mut i: usize = 0;
        while i < self.items.len()
            invariant
                i <= self.items@.len(),
                items@.len() == i,
                forall|j: int| 0 <= j < i ==> (#[trigger] items@[j])@ == self.items@[j]@,
            decreases self.items@.len() - i,
        {
            items.push(self.items[i].copy());
            i = i + 1;
        }
        let r = UnstructuredNodeList { items };
        proof {
            assert(r@.items =~= self@.items);
        }
        r
    }
}

impl Clone for UnstructuredNode {
    fn clone(&self) -> (r: Self)
        ensures
            r@ == self@,
    {
        self.copy()
    }
}

impl Clone for UnstructuredNodeList {
    fn clone(&self) -> (r: Self)
        ensures
            r@ == self@,
    {
        self.copy()
    }
}

impl Clone for UnstructuredNodeRoot {
    fn clone(&self) -> (r: Self)
        ensures
            r@ == self@,
    {
        UnstructuredNodeRoot { root: self.root.copy() }
    }
}

impl UnstructuredNodeRoot {
    pub fn new() -> (r: Self)
        ensures
            r@ == empty_list(),
    {
        UnstructuredNodeRoot { root: UnstructuredNodeList::new() }
    }
}

/// The digit tokens of a whole number, most significant first.
pub open spec fn digit_tokens(n: nat) -> Seq<Token>
    decreases n,
{
    if n < 10 {
        seq![Token::Digit(n as u8)]
    } else {
        digit_tokens(n / 10).push(Token::Digit((n % 10) as u8))
    }
}

/// The tokens of an integer written in decimal, with a minus sign where it is negative.
pub open spec fn integer_tokens(n: int) -> Seq<Token> {
    if n < 0 {
        seq![Token::Subtract] + digit_tokens((-n) as nat)
    } else {
        digit_tokens(n as nat)
    }
}

/// Token nodes, one for each token.
pub open spec fn token_nodes(t: Seq<Token>) -> Seq<NodeModel> {
    t.map_values(|x: Token| NodeModel::Token(x))
}

/// The tokens of a decimal's written form, one for each character.
pub open spec fn decimal_tokens(d: Dec) -> Seq<Token> {
    decimal_to_string(d.parts()).map_values(|c: char| spec_token_from_char(c).unwrap())
}

/// The node list which shows a number: a decimal or whole rational as a sequence of tokens, and
/// any other rational as a fraction of two sequences of tokens.
pub open spec fn spec_from_number(n: Number) -> ListModel {
    match n {
        Number::Decimal(d, _) => ListModel { items: token_nodes(decimal_tokens(d)) },
        Number::Rational(p, q) => if q == 1 {
            ListModel { items: token_nodes(integer_tokens(p as int)) }
        } else {
            ListModel {
                items: seq![
                    NodeModel::Fraction(
                        ListModel { items: token_nodes(integer_tokens(p as int)) },
                        ListModel { items: token_nodes(integer_tokens(q as int)) },
                    ),
                ],
            }
        },
    }
}

/// The token nodes of an integer written in decimal.
fn integer_nodes(n: i64) -> (r: Vec<UnstructuredNode>)
    ensures
        node_seq_models(r@) == token_nodes(integer_tokens(n as int)),
{
    let negative = n < 0;
    let mut m: u64 = if negative { (0i128 - n as i128) as u64 } else { n as u64 };
    let ghost whole = m as nat;
    // Digits, least significant first
    let mut digits: Vec<u8> = Vec::new();
    while m >= 10
        invariant
            m >= 1 || digits@.len() == 0,
            digit_tokens(whole) == digit_tokens(m as nat) + reversed_digits(digits@),
            forall|k: int| 0 <= k < digits@.len() ==> #[trigger] digits@[k] < 10,
        decreases m,
    {
        let ghost before = digits@;
        digits.push((m % 10) as u8);
        proof {
            lemma_reversed_digits_push(before, (m % 10) as u8);
            assert(digit_tokens(m as nat) == digit_tokens((m / 10) as nat).push(Token::Digit((m % 10) as u8)));
            assert(digit_tokens(m as nat) + reversed_digits(before) =~= digit_tokens((m / 10) as nat) + reversed_digits(digits@));
        }
        m = m / 10;
    }
    let ghost before = digits@;
    digits.push(m as u8);
    proof {
        lemma_reversed_digits_push(before, m as u8);
        assert(digit_tokens(whole) =~= reversed_digits(digits@));
    }
    let mut r: Vec<UnstructuredNode> = Vec::new();
    if negative {
        r.push(UnstructuredNode::Token(Token::Subtract));
    }
    let ghost lead: Seq<Token> = if negative { seq![Token::Subtract] } else { Seq::empty() };
    let mut i: usize = digits.len();
    while i > 0
        invariant
            i <= digits@.len(),
            lead == (if negative { seq![Token::Subtract] } else { Seq::<Token>::empty() }),
            node_seq_models(r@) == token_nodes(lead + reversed_digits(digits@.skip(i as int))),
        decreases i,
    {
        let ghost before_r = node_seq_models(r@);
        r.push(UnstructuredNode::Token(Token::Digit(digits[i - 1])));
        proof {
            assert(digits@.skip(i - 1).drop_first() =~= digits@.skip(i as int));
            assert(reversed_digits(digits@.skip(i - 1)) =~= reversed_digits(digits@.skip(i as int)).push(Token::Digit(digits@[i - 1]))) by {
                lemma_reversed_digits_first(digits@.skip(i - 1));
            }
            assert(node_seq_models(r@) =~= before_r.push(NodeModel::Token(Token::Digit(digits@[i - 1]))));
            assert(token_nodes(lead + reversed_digits(digits@.skip(i - 1))) =~= token_nodes(
                lead + reversed_digits(digits@.skip(i as int)),
            ).push(NodeModel::Token(Token::Digit(digits@[i - 1]))));
        }
        i = i - 1;
    }
    proof {
        assert(digits@.skip(0) =~= digits@);
        assert(integer_tokens(n as int) =~= lead + reversed_digits(digits@));
    }
    r
}

/// Digit tokens of digits given least significant first.
pub open spec fn reversed_digits(d: Seq<u8>) -> Seq<Token>
    decreases d.len(),
{
    if d.len() == 0 {
        Seq::empty()
    } else {
        reversed_digits(d.drop_first()).push(Token::Digit(d[0]))
    }
}

/// A digit added last comes first once reversed.
proof fn lemma_reversed_digits_push(s: Seq<u8>, x: u8)
    ensures
        reversed_digits(s.push(x)) == seq![Token::Digit(x)] + reversed_digits(s),
    decreases s.len(),
{
    if s.len() == 0 {
        assert(s.push(x).drop_first() =~= s);
        assert(reversed_digits(s.push(x)) =~= seq![Token::Digit(x)] + reversed_digits(s));
    } else {
        assert(s.push(x).drop_first() =~= s.drop_first().push(x));
        lemma_reversed_digits_push(s.drop_first(), x);
        assert(reversed_digits(s.push(x)) =~= seq![Token::Digit(x)] + reversed_digits(s));
    }
}

/// Reversing digits puts the first one last.
proof fn lemma_reversed_digits_first(d: Seq<u8>)
    requires
        d.len() > 0,
    ensures
        reversed_digits(d) == reversed_digits(d.drop_first()).push(Token::Digit(d[0])),
{
}

/// The models of a sequence of nodes.
pub open spec fn node_seq_models(v: Seq<UnstructuredNode>) -> Seq<NodeModel> {
    Seq::new(v.len(), |i: int| v[i]@)
}

/// The token nodes of a decimal's written form.
fn decimal_nodes(d: Dec) -> (r: Vec<UnstructuredNode>)
    requires
        d.wf(),
    ensures
        node_seq_models(r@) == token_nodes(decimal_tokens(d)),
{
    let text = dec_to_string(d);
    let st = text.as_str();
    let n = st.unicode_len();
    let ghost chars = text@;
    let mut r: Vec<UnstructuredNode> = Vec::new();
    let mut i: usize = 0;
    while i < n
        invariant
            i <= n,
            n == chars.len(),
            st@ == chars,
            chars == decimal_to_string(d.parts()),
            forall|j: int| 0 <= j < chars.len() ==> (#[trigger] chars[j] == '.' || chars[j] == '-' || char_digit(chars[j]) is Some),
            node_seq_models(r@) == token_nodes(decimal_tokens(d)).take(i as int),
        decreases n - i,
    {
        let c = st.get_char(i);
        let t = match Token::from_char(c) {
            Some(t) => t,
            None => {
                assert(chars[i as int] == c);
                vstd::pervasive::unreached()
            },
        };
        let ghost before = node_seq_models(r@);
        r.push(UnstructuredNode::Token(t));
        proof {
            assert(node_seq_models(r@) =~= before.push(NodeModel::Token(t)));
            assert(token_nodes(decimal_tokens(d)).take(i + 1) =~= token_nodes(decimal_tokens(d)).take(i as int).push(
                NodeModel::Token(t),
            ));
        }
        i = i + 1;
    }
    proof {
        assert(token_nodes(decimal_tokens(d)).take(n as int) =~= token_nodes(decimal_tokens(d)));
    }
    r
}

impl UnstructuredNodeRoot {
    /// Creates a new root given a number: a decimal or whole rational becomes a sequence of
    /// tokens, and a rational with another denominator becomes a fraction with a sequence of
    /// tokens on the top and bottom.
    pub fn from_number(num: Number) -> (r: Self)
        requires
            number_wf(num),
        ensures
            r@ == spec_from_number(num),
    {
        let items = match num {
            Number::Decimal(d, _) => decimal_nodes(d),
            Number::Rational(numer, denom) => {
                if denom == 1 {
                    integer_nodes(numer)
                } else {
                    let top = UnstructuredNodeList { items: integer_nodes(numer) };
                    let bottom = UnstructuredNodeList { items: integer_nodes(denom) };
                    proof {
                        assert(top@.items =~= node_seq_models(top.items@));
                        assert(bottom@.items =~= node_seq_models(bottom.items@));
                    }
                    let ghost f = NodeModel::Fraction(top@, bottom@);
                    let node = UnstructuredNode::Fraction(top, bottom);
                    assert(node@ == f);
                    let v = vec![node];
                    assert(node_seq_models(v@) =~= seq![f]);
                    v
                }
            },
        };
        let r = UnstructuredNodeRoot { root: UnstructuredNodeList { items } };
        proof {
            assert(r@.items =~= node_seq_models(items@));
        }
        r
    }
}

} // verus!
