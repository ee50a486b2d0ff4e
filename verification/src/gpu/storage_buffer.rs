use vstd::prelude::*;

verus! {

/// The number of bytes a storage buffer needs for `data_bytes` bytes of elements of
/// `element_size` bytes each: the data's size, but never less than one element, since
/// a buffer may not be empty.
pub open spec fn required_size(data_bytes: usize, element_size: usize) -> u64 {
    if data_bytes < element_size { element_size as u64 } else { data_bytes as u64 }
}

/// Whether a buffer of `current` bytes is replaced to hold `size` bytes: when it is too
/// small, or when less than half of it would be used.
pub open spec fn must_reallocate(size: u64, current: u64) -> bool {
    size > current || size < current / 2
}

/// The number of bytes a storage buffer needs for `data_bytes` bytes of elements of
/// `element_size` bytes each.
pub fn storage_size(data_bytes: usize, element_size: usize) -> (r: u64)
    ensures
        r == required_size(data_bytes, element_size),
{
    let bytes = if data_bytes < element_size { element_size } else { data_bytes };
    bytes as u64
}

/// The size of the memory behind a storage buffer, which grows and shrinks with the data
/// written to it.
pub struct StorageAllocation {
    size: u64,
}

impl StorageAllocation {
    /// The size, in bytes, of the memory behind the buffer.
    pub closed spec fn view(&self) -> u64 {
        self.size
    }

    /// The allocation of a new buffer holding `data_bytes` bytes of elements of
    /// `element_size` bytes each.
    pub fn new(data_bytes: usize, element_size: usize) -> (r: Self)
        ensures
            r@ == required_size(data_bytes, element_size),
    {
        StorageAllocation { size: storage_size(data_bytes, element_size) }
    }

    /// The size, in bytes, of the memory behind the buffer.
    pub fn size(&self) -> (r: u64)
        ensures
            r == self@,
    {
        self.size
    }

    /// Accounts for writing `data_bytes` bytes of elements of `element_size` bytes each:
    /// returns whether the memory must be replaced, in which case its new size is what
    /// the data needs; otherwise the size stays.
    pub fn write(&mut self, data_bytes: usize, element_size: usize) -> (reallocated: bool)
        ensures
            reallocated == must_reallocate(required_size(data_bytes, element_size), old(self)@),
            reallocated ==> final(self)@ == required_size(data_bytes, element_size),
            !reallocated ==> final(self)@ == old(self)@,
    {
        let size = storage_size(data_bytes, element_size);
        let reallocated = size > self.size || size < self.size / 2;
        if reallocated {
            self.size = size;
        }
        reallocated
    }
}

/// After every write, the memory behind a buffer holds the data and is used at least
/// half: its size is at least what the data needs and at most twice that, plus one.
pub proof fn lemma_write_keeps_fit(old_size: u64, new_size: u64, needed: u64, reallocated: bool)
    requires
        reallocated == must_reallocate(needed, old_size),
        reallocated ==> new_size == needed,
        !reallocated ==> new_size == old_size,
    ensures
        needed <= new_size <= 2 * needed + 1,
{
}

/// Writing the same amount of data twice replaces the memory at most the first time.
pub proof fn lemma_same_size_write_keeps_allocation(size: u64)
    ensures
        !must_reallocate(size, size),
{
}

} // verus!
