//! A list that grows at its end.

use vstd::prelude::*;

verus! {

/// One element of a list, and what follows it.
struct ListElement<T> {
    value: T,
    next: Option<Box<ListElement<T>>>,
}

impl<T> ListElement<T> {
    /// An element that nothing follows.
    fn new(v: T) -> (e: Self)
        ensures
            e.value == v,
            e.next is None,
    {
        ListElement { value: v, next: None }
    }

    /// The values from this element on.
    spec fn values(&self) -> Seq<T>
        decreases self,
    {
        match self.next {
            Some(n) => seq![self.value] + n.values(),
            None => seq![self.value],
        }
    }

    /// Puts `element` behind the last element.
    fn push(&mut self, element: T)
        ensures
            final(self).values() == old(self).values().push(element),
        decreases old(self).values().len(),
    {
        match self.next.take() {
            Some(mut n) => {
                let ghost before = n.values();
                n.push(element);
                self.next = Some(n);
                proof {
                    assert(old(self).values() == seq![self.value] + before);
                    assert(self.values() == seq![self.value] + n.values());
                    assert(self.values() =~= old(self).values().push(element));
                }
            },
            None => {
                let e = Box::new(ListElement::new(element));
                proof {
                    assert(e.values() == seq![element]);
                }
                self.next = Some(e);
                proof {
                    assert(old(self).values() == seq![self.value]);
                    assert(self.values() == seq![self.value] + seq![element]);
                    assert(self.values() =~= old(self).values().push(element));
                }
            },
        }
    }

    /// The value `k` elements behind this one, where the list is that long.
    fn find(&self, k: usize) -> (r: Option<&T>)
        ensures
            match r {
                Some(v) => k < self.values().len() && *v == self.values()[k as int],
                None => k >= self.values().len(),
            },
        decreases self,
    {
        if k == 0 {
            Some(&self.value)
        } else {
            match &self.next {
                Some(n) => n.find(k - 1),
                None => None,
            }
        }
    }

    /// The value of the last element.
    fn last(&self) -> (v: &T)
        ensures
            *v == self.values().last(),
        decreases self,
    {
        match &self.next {
            Some(n) => n.last(),
            None => &self.value,
        }
    }
}

/// A list to whose end values are added and from which none is taken.
pub struct StableList<T> {
    first: Option<Box<ListElement<T>>>,
}

impl<T> View for StableList<T> {
    type V = Seq<T>;

    closed spec fn view(&self) -> Seq<T> {
        match self.first {
            Some(e) => e.values(),
            None => Seq::empty(),
        }
    }
}

impl<T> StableList<T> {
    /// A list without values.
    pub fn new() -> (l: Self)
        ensures
            l@.len() == 0,
    {
        StableList { first: None }
    }

    /// The value at position `k`.
    pub fn get(&self, k: usize) -> (r: Option<&T>)
        ensures
            match r {
                Some(v) => k < self@.len() && *v == self@[k as int],
                None => k >= self@.len(),
            },
    {
        match &self.first {
            Some(e) => e.find(k),
            None => None,
        }
    }

    /// Adds `element` to the end and hands it back by reference.
    pub fn push(&mut self, element: T) -> (r: &T)
        ensures
            final(self)@ == old(self)@.push(element),
            *r == element,
    {
        match self.first.take() {
            Some(mut e) => {
                e.push(element);
                self.first = Some(e);
            },
            None => {
                self.first = Some(Box::new(ListElement::new(element)));
            },
        }
        match &self.first {
            Some(e) => e.last(),
            None => vstd::pervasive::unreached(),
        }
    }
}

impl<T> Default for StableList<T> {
    fn default() -> (l: Self)
        ensures
            l@.len() == 0,
    {
        StableList::new()
    }
}

} // verus!
