//! A single-slot mailbox for handing one message of up to 1024 bytes from a
//! producer to a consumer.
use vstd::prelude::*;

verus! {

/// The capacity of the slot.
pub const OOB_CAPACITY: usize = 1024;

/// A single-slot mailbox: empty, or holding one message.
pub struct OutOfBandBuffer {
    length: usize,
    buffer: Vec<u8>,
}

impl OutOfBandBuffer {
    /// The slot is allocated and the length fits it.
    pub closed spec fn wf(&self) -> bool {
        self.buffer@.len() == OOB_CAPACITY && self.length <= OOB_CAPACITY
    }

    /// The message in the slot; empty where there is none.
    pub closed spec fn contents(&self) -> Seq<u8> {
        self.buffer@.subrange(0, self.length as int)
    }

    pub fn new() -> (r: OutOfBandBuffer)
        ensures
            r.wf(),
            r.contents().len() == 0,
    {
        let mut buffer: Vec<u8> = Vec::with_capacity(OOB_CAPACITY);
        let mut i: usize = 0;
        while i < OOB_CAPACITY
            invariant
                i <= OOB_CAPACITY,
                buffer@.len() == i,
            decreases OOB_CAPACITY - i,
        {
            buffer.push(0);
            i = i + 1;
        }
        OutOfBandBuffer { length: 0, buffer }
    }

    pub fn has_data(&self) -> (r: bool)
        requires
            self.wf(),
        ensures
            r == (self.contents().len() > 0),
    {
        self.length > 0
    }

    pub fn read(&self) -> (r: &[u8])
        requires
            self.wf(),
        ensures
            r@ == self.contents(),
    {
        vstd::slice::slice_subrange(self.buffer.as_slice(), 0, self.length)
    }

    /// Empties the slot.
    pub fn done(&mut self)
        requires
            old(self).wf(),
        ensures
            final(self).wf(),
            final(self).contents().len() == 0,
    {
        self.length = 0;
    }

    /// Puts a message in an empty slot; a full slot is left as it is.
    pub fn write(&mut self, data: &[u8]) -> (r: bool)
        requires
            old(self).wf(),
            data@.len() <= OOB_CAPACITY,
        ensures
            final(self).wf(),
            r == (old(self).contents().len() == 0),
            r ==> final(self).contents() == data@,
            !r ==> final(self).contents() == old(self).contents(),
    {
        if self.length != 0 {
            return false;
        }
        let mut i: usize = 0;
        while i < data.len()
            invariant
                self.length == 0,
                self.buffer@.len() == OOB_CAPACITY,
                data@.len() <= OOB_CAPACITY,
                i <= data@.len(),
                forall|j: int| 0 <= j < i ==> self.buffer@[j] == data@[j],
            decreases data@.len() - i,
        {
            self.buffer[i] = data[i];
            i = i + 1;
        }
        self.length = data.len();
        proof {
            assert(self.buffer@.subrange(0, data@.len() as int) =~= data@);
        }
        true
    }
}

} // verus!
