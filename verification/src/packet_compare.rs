//! Nested packets of values and lists, and their recursive ordering.

use vstd::prelude::*;

verus! {

/// A packet element: a number or a nested list.
pub enum Node {
    Value(usize),
    List(Vec<Node>),
}

/// The height of a packet tree, used to bound the comparison.
pub open spec fn node_height(n: Node) -> nat
    decreases n,
{
    match n {
        Node::Value(_) => 1,
        Node::List(v) => 1 + nodes_height(v@),
    }
}

/// The summed height of a list of packet elements.
pub open spec fn nodes_height(s: Seq<Node>) -> nat
    decreases s,
{
    if s.len() == 0 {
        0
    } else {
        node_height(s[0]) + nodes_height(s.drop_first())
    }
}

/// What a comparison step reports: done with no verdict, or a verdict
/// where `true` means the left side orders first.
pub type NodeResult = Result<(), bool>;

/// Two numbers compare by value; equality gives no verdict.
pub open spec fn spec_compare_values(left: int, right: int) -> NodeResult {
    if left < right {
        Err(true)
    } else if left > right {
        Err(false)
    } else {
        Ok(())
    }
}

/// Two elements compare by value, elementwise as lists, or by wrapping
/// the lone number into a list.
pub open spec fn spec_compare_nodes(left: Node, right: Node) -> NodeResult
    decreases node_height(left) + node_height(right), 0int,
    via spec_compare_nodes_decreases
{
    match left {
        Node::Value(lv) => match right {
            Node::Value(rv) => spec_compare_values(lv as int, rv as int),
            Node::List(rl) => spec_compare_list(seq![left], rl@),
        },
        Node::List(ll) => match right {
            Node::Value(rv) => spec_compare_list(ll@, seq![right]),
            Node::List(rl) => spec_compare_list(ll@, rl@),
        },
    }
}

#[via_fn]
proof fn spec_compare_nodes_decreases(left: Node, right: Node) {
    assert(seq![left].drop_first() =~= Seq::<Node>::empty());
    assert(seq![right].drop_first() =~= Seq::<Node>::empty());
    assert(nodes_height(Seq::<Node>::empty()) == 0);
    assert(nodes_height(seq![left]) == node_height(left));
    assert(nodes_height(seq![right]) == node_height(right));
}

/// One element's height never exceeds the summed height of its list.
proof fn lemma_node_height_le(s: Seq<Node>, i: int)
    requires
        0 <= i < s.len(),
    ensures
        node_height(s[i]) <= nodes_height(s),
    decreases s.len(),
{
    if i > 0 {
        lemma_node_height_le(s.drop_first(), i - 1);
        assert(s.drop_first()[i - 1] == s[i]);
    }
}

/// Two lists compare by their first differing element; a shorter list
/// that ran out orders first.
pub open spec fn spec_compare_list(left: Seq<Node>, right: Seq<Node>) -> NodeResult
    decreases nodes_height(left) + nodes_height(right), 1int,
{
    if left.len() == 0 {
        if right.len() == 0 {
            Ok(())
        } else {
            Err(true)
        }
    } else if right.len() == 0 {
        Err(false)
    } else {
        let head = spec_compare_nodes(left[0], right[0]);
        if head is Err {
            head
        } else {
            spec_compare_list(left.drop_first(), right.drop_first())
        }
    }
}

/// Compare two numbers.
pub fn compare_values(left_value: usize, right_value: usize) -> (r: NodeResult)
    ensures
        r == spec_compare_values(left_value as int, right_value as int),
{
    if left_value < right_value {
        return Err(true);
    }
    if left_value > right_value {
        return Err(false);
    }
    Ok(())
}

/// Wrap a lone number into a one-element list.
pub fn wrap_value(value: usize) -> (r: Vec<Node>)
    ensures
        r@ =~= seq![Node::Value(value)],
{
    let mut r: Vec<Node> = Vec::new();
    r.push(Node::Value(value));
    r
}

/// Compare two elements.
pub fn compare_nodes(left_node: &Node, right_node: &Node) -> (r: NodeResult)
    ensures
        r == spec_compare_nodes(*left_node, *right_node),
    decreases node_height(*left_node) + node_height(*right_node), 0int,
{
    match left_node {
        Node::Value(left_value) => match right_node {
            Node::Value(right_value) => compare_values(*left_value, *right_value),
            Node::List(right_list) => {
                let wrapped = wrap_value(*left_value);
                proof {
                    assert(nodes_height(wrapped@) == node_height(Node::Value(*left_value))
                        + nodes_height(seq![Node::Value(*left_value)].drop_first()));
                    assert(seq![Node::Value(*left_value)].drop_first() =~= Seq::<Node>::empty());
                }
                proof {
                    assert(nodes_height(Seq::<Node>::empty()) == 0);
                    assert(nodes_height(wrapped@) == node_height(*left_node));
                }
                let r = compare_list(&wrapped, right_list);
                proof {
                    assert(wrapped@ =~= seq![*left_node]);
                }
                r
            },
        },
        Node::List(left_list) => match right_node {
            Node::List(right_list) => compare_list(left_list, right_list),
            Node::Value(right_value) => {
                let wrapped = wrap_value(*right_value);
                proof {
                    assert(nodes_height(wrapped@) == node_height(Node::Value(*right_value))
                        + nodes_height(seq![Node::Value(*right_value)].drop_first()));
                    assert(seq![Node::Value(*right_value)].drop_first() =~= Seq::<Node>::empty());
                }
                proof {
                    assert(nodes_height(Seq::<Node>::empty()) == 0);
                    assert(nodes_height(wrapped@) == node_height(*right_node));
                }
                let r = compare_list(left_list, &wrapped);
                proof {
                    assert(wrapped@ =~= seq![*right_node]);
                }
                r
            },
        },
    }
}

/// Compare two lists element by element.
pub fn compare_list(left: &Vec<Node>, right: &Vec<Node>) -> (r: NodeResult)
    ensures
        r == spec_compare_list(left@, right@),
    decreases nodes_height(left@) + nodes_height(right@), 1int,
{
    let ln = left.len();
    let rn = right.len();
    proof {
        assert(left@.skip(0) =~= left@);
        assert(right@.skip(0) =~= right@);
    }
    let mut i: usize = 0;
    while i < ln
        invariant
            ln == left@.len(),
            rn == right@.len(),
            0 <= i <= ln,
            i <= rn,
            spec_compare_list(left@, right@) == spec_compare_list(
                left@.skip(i as int),
                right@.skip(i as int),
            ),
        decreases ln - i,
    {
        if i >= rn {
            proof {
                assert(right@.skip(i as int).len() == 0);
                assert(left@.skip(i as int).len() > 0);
            }
            return Err(false);
        }
        proof {
            lemma_node_height_le(left@, i as int);
            lemma_node_height_le(right@, i as int);
        }
        let head = compare_nodes(&left[i], &right[i]);
        proof {
            assert(left@.skip(i as int)[0] == left@[i as int]);
            assert(right@.skip(i as int)[0] == right@[i as int]);
            assert(left@.skip(i as int).drop_first() =~= left@.skip(i + 1));
            assert(right@.skip(i as int).drop_first() =~= right@.skip(i + 1));
        }
        match head {
            Err(verdict) => {
                return Err(verdict);
            },
            Ok(_) => {},
        }
        i = i + 1;
    }
    proof {
        assert(left@.skip(i as int).len() == 0);
        if rn > ln {
            assert(right@.skip(i as int).len() > 0);
        } else {
            assert(right@.skip(i as int).len() == 0);
        }
    }
    if rn > ln {
        Err(true)
    } else {
        Ok(())
    }
}

/// A whole packet: its top-level list and whether it is one of the two
/// divider packets.
pub struct Packet {
    pub list: Vec<Node>,
    pub is_divider: bool,
}

impl Packet {
    /// Bundle a parsed list into a packet.
    pub fn new(list: Vec<Node>, is_divider: bool) -> (p: Packet)
        ensures
            p.list == list,
            p.is_divider == is_divider,
    {
        Packet { list, is_divider }
    }
}

/// A packet line read character by character: nested lists under
/// construction and the digits of the number being read.
pub struct LineParser {
    pub lists_stack: Vec<Vec<Node>>,
    pub current_list: Option<Vec<Node>>,
    pub current_value: Option<usize>,
}

/// The current list once a pending number is flushed into it.
pub open spec fn flushed_current(p: LineParser) -> Seq<Node> {
    match p.current_value {
        Some(v) => p.current_list->0@.push(Node::Value(v)),
        None => p.current_list->0@,
    }
}

impl LineParser {
    /// Ready for the first character of a line.
    pub fn new() -> (p: LineParser)
        ensures
            p.lists_stack@.len() == 0,
            p.current_list is None,
            p.current_value is None,
    {
        LineParser { lists_stack: Vec::new(), current_list: None, current_value: None }
    }

    /// Open a nested list: the list under construction is shelved.
    pub fn start_list(&mut self)
        ensures
            final(self).current_value == old(self).current_value,
            final(self).current_list is Some,
            final(self).current_list->0@ =~= Seq::<Node>::empty(),
            old(self).current_list is Some ==> final(self).lists_stack@ == old(
                self,
            ).lists_stack@.push(old(self).current_list->0),
            old(self).current_list is None ==> final(self).lists_stack == old(self).lists_stack,
    {
        let taken = self.current_list.take();
        match taken {
            Some(current_list) => {
                self.lists_stack.push(current_list);
            },
            None => {},
        }
        self.current_list = Some(Vec::new());
    }

    /// Flush the pending number into the list under construction.
    pub fn finish_number(&mut self)
        requires
            old(self).current_value is Some,
            old(self).current_list is Some,
        ensures
            final(self).current_value is None,
            final(self).lists_stack == old(self).lists_stack,
            final(self).current_list is Some,
            final(self).current_list->0@ == flushed_current(*old(self)),
    {
        let value = self.current_value.take().unwrap();
        let mut current_list = self.current_list.take().unwrap();
        current_list.push(Node::Value(value));
        self.current_list = Some(current_list);
    }

    /// Flush the pending number, when there is one.
    pub fn try_finish_number(&mut self)
        requires
            old(self).current_value is Some ==> old(self).current_list is Some,
        ensures
            final(self).current_value is None,
            final(self).lists_stack == old(self).lists_stack,
            final(self).current_list is Some <==> old(self).current_list is Some,
            old(self).current_list is Some ==> final(self).current_list->0@ == flushed_current(
                *old(self),
            ),
    {
        if self.current_value.is_some() {
            self.finish_number();
        }
    }

    /// Close the open list: it becomes one element of its parent.
    pub fn stop_list(&mut self)
        requires
            old(self).current_value is Some ==> old(self).current_list is Some,
            old(self).lists_stack@.len() > 0 ==> old(self).current_list is Some,
        ensures
            final(self).current_value is None,
            old(self).lists_stack@.len() == 0 ==> {
                &&& final(self).lists_stack@ == old(self).lists_stack@
                &&& (final(self).current_list is Some <==> old(self).current_list is Some)
                &&& (old(self).current_list is Some ==> final(self).current_list->0@
                    == flushed_current(*old(self)))
            },
            old(self).lists_stack@.len() > 0 ==> {
                &&& final(self).lists_stack@ == old(self).lists_stack@.drop_last()
                &&& final(self).current_list is Some
                &&& final(self).current_list->0@.len() == old(self).lists_stack@.last()@.len() + 1
                &&& final(self).current_list->0@.drop_last() == old(self).lists_stack@.last()@
                &&& (final(self).current_list->0@.last() matches Node::List(child) && child@
                    == flushed_current(*old(self)))
            },
    {
        self.try_finish_number();

        let parent = self.lists_stack.pop();
        match parent {
            Some(mut parent_list) => {
                let child_list = self.current_list.take().unwrap();
                parent_list.push(Node::List(child_list));
                self.current_list = Some(parent_list);
                proof {
                    assert(final(self).current_list->0@.drop_last() =~= old(
                        self,
                    ).lists_stack@.last()@);
                }
            },
            None => {},
        }
    }

    /// Read one more digit of the pending number.
    pub fn add_digit(&mut self, digit: char)
        requires
            crate::parsing::is_digit(digit),
            old(self).current_value is Some ==> 10 * old(self).current_value->0
                + crate::parsing::digit_of(digit) <= usize::MAX,
        ensures
            final(self).lists_stack == old(self).lists_stack,
            final(self).current_list == old(self).current_list,
            final(self).current_value is Some,
            final(self).current_value->0 == (match old(self).current_value {
                Some(v) => 10 * v + crate::parsing::digit_of(digit),
                None => crate::parsing::digit_of(digit),
            }),
    {
        let digit_value = ((digit as u32) - ('0' as u32)) as usize;
        match self.current_value {
            Some(current_value) => {
                self.current_value = Some(current_value * 10 + digit_value);
            },
            None => {
                self.current_value = Some(digit_value);
            },
        }
    }

    /// Feed one character of the line into the parser.
    pub fn parse_char(&mut self, c: char)
        requires
            c == '[' || c == ']' || c == ',' || crate::parsing::is_digit(c),
            old(self).current_value is Some ==> old(self).current_list is Some,
            c == ']' && old(self).lists_stack@.len() > 0 ==> old(self).current_list is Some,
            crate::parsing::is_digit(c) && old(self).current_value is Some ==> 10 * old(
                self,
            ).current_value->0 + crate::parsing::digit_of(c) <= usize::MAX,
        ensures
            c == '[' ==> {
                &&& final(self).current_value == old(self).current_value
                &&& final(self).current_list is Some
                &&& final(self).current_list->0@ =~= Seq::<Node>::empty()
                &&& (old(self).current_list is Some ==> final(self).lists_stack@ == old(
                    self,
                ).lists_stack@.push(old(self).current_list->0))
                &&& (old(self).current_list is None ==> final(self).lists_stack == old(
                    self,
                ).lists_stack)
            },
            c == ',' ==> {
                &&& final(self).current_value is None
                &&& final(self).lists_stack == old(self).lists_stack
                &&& (final(self).current_list is Some <==> old(self).current_list is Some)
                &&& (old(self).current_list is Some ==> final(self).current_list->0@
                    == flushed_current(*old(self)))
            },
            c == ']' && old(self).lists_stack@.len() == 0 ==> {
                &&& final(self).current_value is None
                &&& final(self).lists_stack@ == old(self).lists_stack@
                &&& (final(self).current_list is Some <==> old(self).current_list is Some)
                &&& (old(self).current_list is Some ==> final(self).current_list->0@
                    == flushed_current(*old(self)))
            },
            c == ']' && old(self).lists_stack@.len() > 0 ==> {
                &&& final(self).current_value is None
                &&& final(self).lists_stack@ == old(self).lists_stack@.drop_last()
                &&& final(self).current_list is Some
                &&& final(self).current_list->0@.drop_last() == old(self).lists_stack@.last()@
                &&& final(self).current_list->0@.len() == old(self).lists_stack@.last()@.len() + 1
                &&& (final(self).current_list->0@.last() matches Node::List(child) && child@
                    == flushed_current(*old(self)))
            },
            crate::parsing::is_digit(c) ==> {
                &&& final(self).lists_stack == old(self).lists_stack
                &&& final(self).current_list == old(self).current_list
                &&& final(self).current_value is Some
                &&& final(self).current_value->0 == (match old(self).current_value {
                    Some(v) => 10 * v + crate::parsing::digit_of(c),
                    None => crate::parsing::digit_of(c),
                })
            },
    {
        if c == '[' {
            self.start_list();
        } else if c == ']' {
            self.stop_list();
        } else if c == ',' {
            self.try_finish_number();
        } else {
            self.add_digit(c);
        }
    }

    /// Take the finished top-level list out of the parser.
    pub fn get_result(&mut self) -> (r: Vec<Node>)
        requires
            old(self).lists_stack@.len() == 0,
            old(self).current_value is None,
            old(self).current_list is Some,
        ensures
            r == old(self).current_list->0,
            final(self).current_list is None,
            final(self).lists_stack == old(self).lists_stack,
            final(self).current_value is None,
    {
        self.current_list.take().unwrap()
    }
}

} // verus!
