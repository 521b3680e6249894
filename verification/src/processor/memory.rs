//! The processor's memory: the loaded byte code, one 32-bit word per cell.
use vstd::prelude::*;
use crate::processor::fault::Fault;
use crate::word::spec_from_be_bytes;

verus! {

pub struct Memory {
    data: Vec<[u8; 4]>,
}

/// The value of each cell as a big-endian word.
pub open spec fn cell_words(cells: Seq<[u8; 4]>) -> Seq<u32> {
    cells.map_values(|b: [u8; 4]| spec_from_be_bytes(b@))
}

impl Memory {
    pub closed spec fn cells(&self) -> Seq<[u8; 4]> {
        self.data@
    }

    pub open spec fn words(&self) -> Seq<u32> {
        cell_words(self.cells())
    }

    pub fn new() -> (r: Self)
        ensures
            r.cells() == Seq::<[u8; 4]>::empty(),
    {
        Memory { data: Vec::new() }
    }

    pub fn load(&mut self, byte_code: Vec<[u8; 4]>)
        ensures
            final(self).cells() == byte_code@,
    {
        self.data = byte_code;
    }

    /// The cell at `address`; an error past the end of memory.
    pub fn read(&self, address: usize) -> (r: Result<[u8; 4], Fault>)
        ensures
            address < self.cells().len() ==> r == Ok::<[u8; 4], Fault>(self.cells()[address as int]),
            address >= self.cells().len() ==> r == Err::<[u8; 4], Fault>(Fault::AddressOutOfBounds(address)),
    {
        if address < self.data.len() {
            Ok(self.data[address])
        } else {
            Err(Fault::AddressOutOfBounds(address))
        }
    }

    pub fn length(&self) -> (r: usize)
        ensures
            r == self.cells().len(),
    {
        self.data.len()
    }
}

} // verus!
