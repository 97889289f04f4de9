use vstd::prelude::*;

verus! {

/// A two-slot buffer: a pass reads `back` and writes `front`, then swaps.
#[derive(Clone, Copy, Debug)]
pub struct FrontBackBuffer<T> {
    pub front: T,
    pub back: T,
}

impl<T> FrontBackBuffer<T> where T: Copy {
    /// Exchanges `front` and `back`.
    pub fn swap(&mut self)
        ensures
            final(self).front == old(self).back,
            final(self).back == old(self).front,
    {
        let temp = self.back;
        self.back = self.front;
        self.front = temp;
    }
}

} // verus!
