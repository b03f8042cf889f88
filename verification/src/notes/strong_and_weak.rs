//! A persistent linked list whose nodes are shared through reference counts.
use vstd::prelude::*;
use std::rc::Rc;

verus! {

/// Another handle to the same node, through `Rc::clone` of std. Claimed:
/// the handle refers to the same value, as std documents (another pointer
/// to the same allocation).
#[verifier::external_body]
fn share<T>(rc: &Rc<T>) -> (r: Rc<T>)
    ensures
        r == *rc,
{
    Rc::clone(rc)
}

/// A node of the list.
pub struct Node<T> {
    data: T,
    next: Option<Rc<Node<T>>>,
}

/// The data of the nodes from `link` on.
spec fn link_view<T>(link: Option<Rc<Node<T>>>) -> Seq<T>
    decreases link,
{
    match link {
        None => Seq::empty(),
        Some(node) => seq![node.data] + link_view(node.next),
    }
}

/// An immutable list; appending makes a new list that shares the old one.
pub struct LinkedList<T> {
    head: Option<Rc<Node<T>>>,
}

impl<T> LinkedList<T> {
    /// The data of the list, the last appended first.
    pub closed spec fn view(&self) -> Seq<T> {
        link_view(self.head)
    }

    pub fn new() -> (l: Self)
        ensures
            l@ == Seq::<T>::empty(),
    {
        LinkedList { head: None }
    }

    /// A list with `data` in front of this one, which stays as it is.
    pub fn append(&self, data: T) -> (l: Self)
        ensures
            l@ == seq![data] + self@,
    {
        let next = match &self.head {
            Some(node) => Some(share(node)),
            None => None,
        };
        LinkedList { head: Some(Rc::new(Node { data, next })) }
    }
}

} // verus!
