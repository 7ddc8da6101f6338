//! A bidirectional cursor over a vector: the parser reads one token ahead to
//! decide which production applies and pushes the token back when the grammar
//! instead falls through to a caller. Exactly one step of backtracking is
//! ever needed.

use vstd::prelude::*;

verus! {

/// The cursor interface: `next` moves forward and returns the element now
/// pointed at, `prev` moves back one position.
pub trait IIter {
    type Item;

    /// Whether the cursor is in a usable state.
    spec fn iter_wf(&self) -> bool;

    fn next(&mut self) -> Option<Self::Item>
        requires
            old(self).iter_wf(),
    ;

    fn prev(&mut self) -> Option<Self::Item>
        requires
            old(self).iter_wf(),
    ;
}

/// A cursor over a borrowed vector. `index` is the position of the element
/// read last: `None` before the first read, and saturating at the vector's
/// length once the end has been passed.
pub struct Iter<'a, Item> {
    pub index: Option<usize>,
    pub vector: &'a Vec<Item>,
}

impl<'a, Item> Iter<'a, Item> {
    /// The elements the cursor walks over.
    pub open spec fn elements(&self) -> Seq<Item> {
        self.vector@
    }

    /// The stored index never passes the vector's length.
    pub open spec fn wf(&self) -> bool {
        match self.index {
            Option::None => true,
            Option::Some(i) => i <= self.vector@.len(),
        }
    }

    /// The position of the next element to be read.
    pub open spec fn pos(&self) -> int {
        match self.index {
            Option::None => 0,
            Option::Some(i) => if i + 1 <= self.vector@.len() {
                i + 1
            } else {
                self.vector@.len() as int
            },
        }
    }

    pub fn new(vector: &'a Vec<Item>) -> (r: Iter<'a, Item>)
        ensures
            r.wf(),
            r.pos() == 0,
            r.elements() == vector@,
    {
        Iter { index: None, vector }
    }

    /// Moves forward and returns the element now pointed at, or `None` at the end.
    pub fn next(&mut self) -> (r: Option<&'a Item>)
        requires
            old(self).wf(),
        ensures
            final(self).wf(),
            final(self).elements() == old(self).elements(),
            ({
                let p = old(self).pos();
                if p < old(self).elements().len() {
                    &&& r matches Some(x)
                    &&& *x == old(self).elements()[p]
                    &&& final(self).pos() == p + 1
                    &&& final(self).index == Option::Some(p as usize)
                } else {
                    &&& r is None
                    &&& final(self).pos() == p
                    &&& final(self).index == Option::Some(old(self).elements().len() as usize)
                }
            }),
    {
        let k: usize = match self.index {
            None => 0,
            Some(i) => if i < self.vector.len() {
                i + 1
            } else {
                i
            },
        };
        self.index = Some(k);
        if k < self.vector.len() {
            Some(&self.vector[k])
        } else {
            None
        }
    }

    /// Moves back one position. At the start this is a no-op returning `None`;
    /// after one read it returns to the state before that read.
    pub fn prev(&mut self) -> (r: Option<&'a Item>)
        requires
            old(self).wf(),
        ensures
            final(self).wf(),
            final(self).elements() == old(self).elements(),
            old(self).pos() == 0 ==> r is None && final(self).pos() == 0,
            ({
                match old(self).index {
                    Option::None => r is None && final(self).index == Option::<usize>::None,
                    Option::Some(i) => if i == 0 {
                        r is None && final(self).index == Option::<usize>::None
                    } else {
                        &&& r matches Some(x)
                        &&& *x == old(self).elements()[i - 1]
                        &&& final(self).index == Option::Some((i - 1) as usize)
                    },
                }
            }),
    {
        match self.index {
            None => None,
            Some(i) => {
                if i == 0 {
                    self.index = None;
                    None
                } else {
                    self.index = Some(i - 1);
                    Some(&self.vector[i - 1])
                }
            },
        }
    }

    /// The position of the next element to be read.
    pub fn cur(&self) -> (r: usize)
        requires
            self.wf(),
        ensures
            r == self.pos(),
    {
        match self.index {
            None => 0,
            Some(i) => if i < self.vector.len() {
                i + 1
            } else {
                i
            },
        }
    }
}

impl<'a, Item> IIter for Iter<'a, Item> {
    type Item = &'a Item;

    open spec fn iter_wf(&self) -> bool {
        self.wf()
    }

    fn next(&mut self) -> Option<&'a Item> {
        Iter::next(self)
    }

    fn prev(&mut self) -> Option<&'a Item> {
        Iter::prev(self)
    }
}

} // verus!
