//! A stack of integers kept as a singly linked list of boxed nodes.
use vstd::prelude::*;

verus! {

enum Link {
    Empty,
    More(Box<Node>),
}

struct Node {
    elem: i32,
    next: Link,
}

/// The elements of `link`, the first node first.
spec fn link_view(link: Link) -> Seq<i32>
    decreases link,
{
    match link {
        Link::Empty => Seq::empty(),
        Link::More(node) => seq![node.elem] + link_view(node.next),
    }
}

/// A stack of integers.
pub struct List {
    head: Link,
}

impl List {
    /// The elements of the stack, the top first.
    pub closed spec fn view(&self) -> Seq<i32> {
        link_view(self.head)
    }

    pub fn new() -> (l: Self)
        ensures
            l@ == Seq::<i32>::empty(),
    {
        List { head: Link::Empty }
    }

    /// Puts `val` on top of the stack.
    pub fn push(&mut self, val: i32)
        ensures
            final(self)@ == seq![val] + old(self)@,
    {
        let mut next = Link::Empty;
        std::mem::swap(&mut next, &mut self.head);
        let node = Box::new(Node { elem: val, next });
        self.head = Link::More(node);
    }

    /// Takes the top of the stack, if any.
    pub fn pop(&mut self) -> (r: Option<i32>)
        ensures
            old(self)@.len() == 0 ==> r is None && final(self)@ == old(self)@,
            old(self)@.len() > 0 ==> r == Some(old(self)@[0]) && final(self)@ == old(self)@.drop_first(),
    {
        let mut head = Link::Empty;
        std::mem::swap(&mut head, &mut self.head);
        match head {
            Link::Empty => {
                None
            },
            Link::More(node) => {
                let Node { elem, next } = *node;
                self.head = next;
                assert(seq![elem] + link_view(next) =~= old(self)@);
                assert(link_view(next) =~= old(self)@.drop_first());
                Some(elem)
            },
        }
    }
}

/// Popping right after pushing gives back the pushed value and the stack
/// there was.
pub proof fn lemma_pop_undoes_push(stack: Seq<i32>, val: i32)
    ensures
        (seq![val] + stack).len() > 0,
        (seq![val] + stack)[0] == val,
        (seq![val] + stack).drop_first() == stack,
{
    assert((seq![val] + stack).drop_first() =~= stack);
}

} // verus!
