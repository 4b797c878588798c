use vstd::prelude::*;

verus! {

/// Equality up to the tolerance that a type allows itself.
pub trait Approx<T> {
    /// What `approx` decides.
    spec fn close(&self, other: &T) -> bool;

    fn approx(&self, other: &T) -> (r: bool)
        ensures
            r == self.close(other),
    ;
}

impl Approx<bool> for bool {
    open spec fn close(&self, other: &bool) -> bool {
        *self == *other
    }

    fn approx(&self, other: &bool) -> (r: bool) {
        *self == *other
    }
}

impl Approx<usize> for usize {
    open spec fn close(&self, other: &usize) -> bool {
        *self == *other
    }

    fn approx(&self, other: &usize) -> (r: bool) {
        *self == *other
    }
}

impl<T: Approx<T>> Approx<Vec<T>> for Vec<T> {
    /// Two vectors are close when they are equally long and close item by item.
    open spec fn close(&self, other: &Vec<T>) -> bool {
        &&& self@.len() == other@.len()
        &&& forall|i: int| 0 <= i < self@.len() ==> (#[trigger] self@[i]).close(&other@[i])
    }

    fn approx(&self, other: &Vec<T>) -> (r: bool) {
        if self.len() != other.len() {
            return false;
        }
        let mut i: usize = 0;
        while i < self.len()
            invariant
                i <= self@.len(),
                self@.len() == other@.len(),
                forall|j: int| 0 <= j < i ==> (#[trigger] self@[j]).close(&other@[j]),
            decreases self@.len() - i,
        {
            if !self[i].approx(&other[i]) {
                return false;
            }
            i += 1;
        }
        true
    }
}

} // verus!
