//! Fixed-size pages. A page is an opaque 4096-byte array; the runtime
//! never interprets its contents.

use vstd::prelude::*;
use crate::PAGESIZE;

verus! {

/// A single page: exactly `PAGESIZE` bytes.
#[derive(Debug)]
pub struct Page {
    data: Vec<u8>,
}

impl View for Page {
    type V = Seq<u8>;

    closed spec fn view(&self) -> Seq<u8> {
        self.data@
    }
}

/// The all-zero page served for offsets that were never written.
pub open spec fn zero_page_bytes() -> Seq<u8> {
    Seq::new(PAGESIZE as nat, |i: int| 0u8)
}

impl Page {
    /// A page is always exactly `PAGESIZE` bytes.
    pub open spec fn wf(&self) -> bool {
        self@.len() == PAGESIZE
    }

    /// Builds a page from exactly `PAGESIZE` bytes.
    pub fn from_vec(data: Vec<u8>) -> (r: Page)
        requires
            data@.len() == PAGESIZE,
        ensures
            r@ == data@,
            r.wf(),
    {
        Page { data }
    }

    /// The all-zero page.
    pub fn zero() -> (r: Page)
        ensures
            r@ == zero_page_bytes(),
            r.wf(),
    {
        let mut data: Vec<u8> = Vec::new();
        let mut i: usize = 0;
        while i < PAGESIZE
            invariant
                i <= PAGESIZE,
                data@.len() == i,
                forall|j: int| 0 <= j < i ==> data@[j] == 0u8,
            decreases PAGESIZE - i,
        {
            data.push(0);
            i = i + 1;
        }
        proof {
            assert(data@ =~= zero_page_bytes());
        }
        Page { data }
    }

    /// A page filled with one byte value.
    pub fn filled(b: u8) -> (r: Page)
        ensures
            r.wf(),
            r@.len() == PAGESIZE,
            forall|j: int| 0 <= j < PAGESIZE ==> r@[j] == b,
    {
        let mut data: Vec<u8> = Vec::new();
        let mut i: usize = 0;
        while i < PAGESIZE
            invariant
                i <= PAGESIZE,
                data@.len() == i,
                forall|j: int| 0 <= j < i ==> data@[j] == b,
            decreases PAGESIZE - i,
        {
            data.push(b);
            i = i + 1;
        }
        Page { data }
    }

    /// The raw bytes of the page.
    pub fn as_bytes(&self) -> (r: &Vec<u8>)
        ensures
            r@ == self@,
    {
        &self.data
    }

    /// Copies the bytes in `[off, off + len)` out of the page.
    pub fn read_range(&self, off: usize, len: usize) -> (r: Vec<u8>)
        requires
            self.wf(),
            off + len <= PAGESIZE,
        ensures
            r@ == self@.subrange(off as int, off + len),
    {
        let mut out: Vec<u8> = Vec::new();
        let mut i: usize = 0;
        while i < len
            invariant
                i <= len,
                off + len <= PAGESIZE,
                off + len <= self@.len(),
                out@.len() == i,
                forall|j: int| 0 <= j < i ==> out@[j] == self@[off + j],
            decreases len - i,
        {
            out.push(self.data[off + i]);
            i = i + 1;
        }
        proof {
            assert(out@ =~= self@.subrange(off as int, off + len));
        }
        out
    }

    /// Overwrites the bytes in `[off, off + data.len())` of the page.
    pub fn write_range(&mut self, off: usize, data: &Vec<u8>)
        requires
            old(self).wf(),
            off + data@.len() <= PAGESIZE,
        ensures
            final(self).wf(),
            final(self)@.len() == PAGESIZE,
            forall|j: int|
                0 <= j < PAGESIZE ==> final(self)@[j] == (if off <= j < off + data@.len() {
                    data@[j - off]
                } else {
                    old(self)@[j]
                }),
    {
        let len = data.len();
        let mut i: usize = 0;
        while i < len
            invariant
                i <= len,
                len == data@.len(),
                off + len <= PAGESIZE,
                self@.len() == PAGESIZE,
                forall|j: int| off <= j < off + i ==> self@[j] == data@[j - off],
                forall|j: int|
                    0 <= j < PAGESIZE && !(off <= j < off + i) ==> self@[j] == old(self)@[j],
            decreases len - i,
        {
            self.data.set(off + i, data[i]);
            i = i + 1;
        }
    }

    /// An explicit copy of the page.
    pub fn duplicate(&self) -> (r: Page)
        requires
            self.wf(),
        ensures
            r@ == self@,
            r.wf(),
    {
        Page { data: self.read_range_full() }
    }

    fn read_range_full(&self) -> (r: Vec<u8>)
        requires
            self.wf(),
        ensures
            r@ == self@,
    {
        let r = self.read_range(0, PAGESIZE);
        proof {
            assert(self@.subrange(0, PAGESIZE as int) =~= self@);
        }
        r
    }
}

impl Clone for Page {
    /// Cloning a page keeps its bytes.
    fn clone(&self) -> (r: Self)
        ensures
            r@ == self@,
    {
        Page { data: self.data.clone() }
    }
}

} // verus!
