use vstd::prelude::*;
use vstd::string::StringExecFns;
use crate::error::{Error, ErrorKind};

verus! {

/// A flat run of `n` zero bytes, the content of freshly grown pages.
pub open spec fn zero_bytes(n: nat) -> Seq<u8> {
    Seq::new(n, |i: int| 0u8)
}

/// The bytes of `mem` with `b` laid over it starting at `off`.
pub open spec fn overwrite(mem: Seq<u8>, off: int, b: Seq<u8>) -> Seq<u8>
    recommends
        0 <= off,
        off + b.len() <= mem.len(),
{
    mem.take(off) + b + mem.skip(off + b.len())
}

/// A bounds-checked, offset-addressed view over one guest's linear memory:
/// every read and write is checked against the current size, and an
/// offset out of range is a typed error, never an access beside the data.
pub struct GuestMemory {
    data: Vec<u8>,
}

impl View for GuestMemory {
    type V = Seq<u8>;

    closed spec fn view(&self) -> Seq<u8> {
        self.data@
    }
}

impl GuestMemory {
    /// An empty linear memory of no pages.
    pub fn new() -> (r: GuestMemory)
        ensures
            r@ == Seq::<u8>::empty(),
    {
        GuestMemory { data: Vec::new() }
    }

    /// The model never outgrows the machine's address range.
    pub proof fn lemma_size_bound(&self)
        ensures
            self@.len() <= usize::MAX,
    {
        broadcast use vstd::std_specs::vec::axiom_spec_len;

        assert(vstd::std_specs::vec::spec_vec_len(&self.data) == self.data@.len());
    }

    /// Current size in bytes.
    pub fn size(&self) -> (n: usize)
        ensures
            n == self@.len(),
    {
        self.data.len()
    }

    /// Grows the memory by whole zeroed pages, rejecting growth beyond the
    /// address range.
    #[verifier::loop_isolation(false)]
    pub fn grow_pages(&mut self, pages: u32) -> (r: Result<(), Error>)
        ensures
            match r {
                Ok(()) => old(self)@.len() + pages * crate::protocol::WASM_PAGE_SIZE
                    <= usize::MAX && final(self)@ == old(self)@ + zero_bytes(
                    (pages * crate::protocol::WASM_PAGE_SIZE) as nat,
                ),
                Err(e) => old(self)@.len() + pages * crate::protocol::WASM_PAGE_SIZE > usize::MAX
                    && final(self)@ == old(self)@ && e.kind == ErrorKind::Instantiation,
            },
    {
        let page = crate::protocol::WASM_PAGE_SIZE;
        proof {
            vstd::arithmetic::div_mod::lemma_fundamental_div_mod(
                (usize::MAX - self.data@.len()) as int,
                page as int,
            );
        }
        if pages as usize > (usize::MAX - self.data.len()) / page {
            return Err(Error::new(
                ErrorKind::Instantiation,
                String::from_str("memory growth beyond the address range"),
            ));
        }
        let total = pages as usize * page;
        let ghost start = self.data@;
        for i in 0..total
            invariant
                self.data@ == start + zero_bytes(i as nat),
        {
            self.data.push(0);
            proof {
                assert(self.data@ =~= start + zero_bytes((i + 1) as nat));
            }
        }
        proof {
            assert(pages as usize * page == (pages * crate::protocol::WASM_PAGE_SIZE) as nat);
        }
        Ok(())
    }

    /// Writes `bytes` at `offset`, rejecting a range that does not lie
    /// inside the current memory.
    #[verifier::loop_isolation(false)]
    pub fn write_at(&mut self, offset: usize, bytes: &Vec<u8>) -> (r: Result<(), Error>)
        ensures
            match r {
                Ok(()) => offset + bytes@.len() <= old(self)@.len() && final(self)@ == overwrite(
                    old(self)@,
                    offset as int,
                    bytes@,
                ),
                Err(e) => offset + bytes@.len() > old(self)@.len() && final(self)@ == old(self)@
                    && e.kind == ErrorKind::Instantiation,
            },
    {
        if bytes.len() > self.data.len() || offset > self.data.len() - bytes.len() {
            return Err(Error::new(
                ErrorKind::Instantiation,
                String::from_str("write beyond the end of guest memory"),
            ));
        }
        let ghost start = self.data@;
        for i in 0..bytes.len()
            invariant
                offset + bytes@.len() <= start.len(),
                self.data@.len() == start.len(),
                forall|j: int| 0 <= j < start.len() && !(offset <= j < offset + i)
                    ==> self.data@[j] == start[j],
                forall|j: int| offset <= j < offset + i ==> self.data@[j] == bytes@[j - offset],
        {
            self.data.set(offset + i, bytes[i]);
        }
        proof {
            assert(self.data@ =~= overwrite(start, offset as int, bytes@));
        }
        Ok(())
    }

    /// Reads `len` bytes at `offset`, rejecting a range that does not lie
    /// inside the current memory.
    #[verifier::loop_isolation(false)]
    pub fn read_at(&self, offset: usize, len: usize) -> (r: Result<Vec<u8>, Error>)
        ensures
            match r {
                Ok(b) => offset + len <= self@.len() && b@ == self@.subrange(
                    offset as int,
                    offset + len,
                ),
                Err(e) => offset + len > self@.len() && e.kind == ErrorKind::Instantiation,
            },
    {
        if len > self.data.len() || offset > self.data.len() - len {
            return Err(Error::new(
                ErrorKind::Instantiation,
                String::from_str("read beyond the end of guest memory"),
            ));
        }
        let mut out: Vec<u8> = Vec::new();
        for i in 0..len
            invariant
                offset + len <= self.data@.len(),
                out@ == self.data@.subrange(offset as int, offset + i),
        {
            out.push(self.data[offset + i]);
            proof {
                assert(out@ =~= self.data@.subrange(offset as int, offset + i + 1));
            }
        }
        Ok(out)
    }
}

} // verus!
