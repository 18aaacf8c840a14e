use vstd::prelude::*;

verus! {

/// The size that the storage of a class plans for one instance of a type.
pub open spec fn spec_typical_size<T>() -> nat {
    if vstd::layout::size_of::<T>() == 0 {
        1
    } else {
        vstd::layout::size_of::<T>()
    }
}

/// Tells the storage how large a value of the type typically is.
pub trait StorageAware: Sized {
    /// The size of the type in bytes, and 1 for a type without size.
    fn typical_size() -> (size: usize)
        ensures
            size == spec_typical_size::<Self>(),
            size >= 1,
    {
        let size = core::mem::size_of::<Self>();
        if size == 0 {
            1
        } else {
            size
        }
    }
}

impl<T> StorageAware for T {

}

} // verus!
