//! A cons list whose cells live on the heap.

use vstd::prelude::*;

verus! {

/// A list of integers: a head and a boxed rest, or nothing.
pub enum List {
    Cons(i32, Box<List>),
    Nil,
}

impl View for List {
    type V = Seq<i32>;

    open spec fn view(&self) -> Seq<i32> {
        self.items()
    }
}

impl List {
    /// The items of the list, head first.
    pub open spec fn items(&self) -> Seq<i32>
        decreases self,
    {
        match self {
            List::Cons(head, rest) => seq![*head] + rest.items(),
            List::Nil => Seq::empty(),
        }
    }

    /// The rest of the list behind its head; nothing for the empty list.
    pub fn tail(&self) -> (r: Option<&List>)
        ensures
            match self {
                List::Cons(_, rest) => r == Some(&**rest),
                List::Nil => r is None,
            },
            r matches Some(rest) ==> self@.len() > 0 && rest@ == self@.skip(1),
            r is None ==> self@.len() == 0,
    {
        match self {
            List::Cons(_, item) => {
                assert(self@.skip(1) =~= item@);
                Some(&**item)
            },
            List::Nil => None,
        }
    }
}

/// Builds the list 1, 2, 3, each cell boxed inside the one before it.
pub fn create_in_heap2() -> (list: List)
    ensures
        list@ == seq![1i32, 2i32, 3i32],
{
    let list = List::Cons(
        1,
        Box::new(List::Cons(2, Box::new(List::Cons(3, Box::new(List::Nil))))),
    );
    proof {
        reveal_with_fuel(List::items, 5);
        assert(list@ =~= seq![1i32, 2i32, 3i32]);
    }
    list
}

} // verus!
