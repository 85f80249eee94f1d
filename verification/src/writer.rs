//! A byte sink with a hard size limit, for replay documents streamed out
//! by a JSON serializer.

use vstd::prelude::*;

verus! {

/// Bytes written so far, refused once they would pass the limit; a refusal
/// is remembered.
#[derive(Debug)]
pub struct LimitedJsonWriter {
    bytes: Vec<u8>,
    limit: usize,
    overflowed: bool,
}

/// Why a write was refused.
#[derive(Debug, Clone, Copy, PartialEq, Eq, Structural)]
pub enum WriteRefusal {
    /// The total length does not fit in `usize`.
    SizeOverflow,
    /// The total length passes the limit.
    LimitExceeded,
}

impl LimitedJsonWriter {
    #[verifier::type_invariant]
    spec fn within_limit(self) -> bool {
        self.bytes@.len() <= self.limit
    }

    pub closed spec fn spec_bytes(&self) -> Seq<u8> {
        self.bytes@
    }

    pub closed spec fn spec_limit(&self) -> usize {
        self.limit
    }

    pub closed spec fn spec_overflowed(&self) -> bool {
        self.overflowed
    }

    /// An empty writer that takes at most `limit` bytes.
    pub fn new(limit: usize) -> (res: LimitedJsonWriter)
        ensures
            res.spec_bytes() == Seq::<u8>::empty(),
            res.spec_limit() == limit,
            !res.spec_overflowed(),
    {
        LimitedJsonWriter { bytes: Vec::new(), limit, overflowed: false }
    }

    /// The bytes written.
    pub fn into_inner(self) -> (res: Vec<u8>)
        ensures
            res@ == self.spec_bytes(),
    {
        self.bytes
    }

    /// Whether a write was ever refused.
    pub fn overflowed(&self) -> (res: bool)
        ensures
            res == self.spec_overflowed(),
    {
        self.overflowed
    }

    /// Appends `bytes` when the total stays within the limit; otherwise
    /// writes nothing and remembers the refusal.
    pub fn write(&mut self, bytes: &[u8]) -> (res: Result<usize, WriteRefusal>)
        ensures
            final(self).spec_limit() == old(self).spec_limit(),
            final(self).spec_bytes().len() <= final(self).spec_limit(),
            old(self).spec_bytes().len() + bytes@.len() > usize::MAX ==> res == Err::<
                usize,
                WriteRefusal,
            >(WriteRefusal::SizeOverflow) && final(self).spec_bytes() == old(self).spec_bytes()
                && final(self).spec_overflowed(),
            old(self).spec_bytes().len() + bytes@.len() <= usize::MAX && old(self).spec_bytes().len()
                + bytes@.len() > old(self).spec_limit() ==> res == Err::<usize, WriteRefusal>(
                WriteRefusal::LimitExceeded,
            ) && final(self).spec_bytes() == old(self).spec_bytes() && final(self).spec_overflowed(),
            old(self).spec_bytes().len() + bytes@.len() <= old(self).spec_limit() ==> res == Ok::<
                usize,
                WriteRefusal,
            >(bytes@.len() as usize) && final(self).spec_bytes() == old(self).spec_bytes() + bytes@
                && final(self).spec_overflowed() == old(self).spec_overflowed(),
    {
        proof {
            use_type_invariant(&*self);
        }
        let total = match self.bytes.len().checked_add(bytes.len()) {
            Some(t) => t,
            None => {
                self.overflowed = true;
                return Err(WriteRefusal::SizeOverflow);
            },
        };
        if total > self.limit {
            self.overflowed = true;
            return Err(WriteRefusal::LimitExceeded);
        }
        let mut buf: Vec<u8> = Vec::new();
        std::mem::swap(&mut buf, &mut self.bytes);
        let ghost start = buf@;
        let mut i: usize = 0;
        while i < bytes.len()
            invariant
                i <= bytes.len(),
                buf@ == start + bytes@.take(i as int),
            decreases bytes.len() - i,
        {
            buf.push(bytes[i]);
            assert(bytes@.take(i + 1) =~= bytes@.take(i as int).push(bytes@[i as int]));
            i += 1;
        }
        assert(bytes@.take(bytes.len() as int) =~= bytes@);
        self.bytes = buf;
        Ok(bytes.len())
    }
}

} // verus!
