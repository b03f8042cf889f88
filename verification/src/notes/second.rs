//! The start of a second linked list, whose `push` only looks at the head.
use vstd::prelude::*;

verus! {

type Link = Option<Box<Node>>;

/// A list of integers.
pub struct List {
    head: Link,
}

/// A node of the list.
pub struct Node {
    elem: i32,
    next: Link,
}

impl List {
    /// Whether the list has no node.
    pub closed spec fn is_empty(&self) -> bool {
        self.head is None
    }

    pub fn new() -> (l: Self)
        ensures
            l.is_empty(),
    {
        List { head: None }
    }

    /// Reads the head of the list; the list, being shared, stays as it is.
    pub fn push(&self, elem: &Node) {
        let _next = &self.head;
    }
}

} // verus!
