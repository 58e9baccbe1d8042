use vstd::prelude::*;

verus! {

/// A record of two identifiers and a signed counter.
#[derive(Clone, Copy, Debug, PartialEq, Eq, Structural)]
pub struct Data {
    pub id: i32,
    pub id1: u32,
    pub data: i32,
}

impl Data {
    /// A record with every field zero.
    pub fn new() -> (r: Data)
        ensures
            r == (Data { id: 0, id1: 0, data: 0 }),
    {
        Data { id: 0, id1: 0, data: 0 }
    }

    /// Adds one to the counter.
    pub fn inc(&mut self) -> (r: &Self)
        requires
            old(self).data < i32::MAX,
        ensures
            *final(self) == (Data { data: (old(self).data + 1) as i32, ..*old(self) }),
            *r == *final(self),
    {
        self.data = self.data + 1;
        self
    }

    /// Takes one from the counter.
    pub fn dec(&mut self) -> (r: &Self)
        requires
            old(self).data > i32::MIN,
        ensures
            *final(self) == (Data { data: (old(self).data - 1) as i32, ..*old(self) }),
            *r == *final(self),
    {
        self.data = self.data - 1;
        self
    }
}

} // verus!
