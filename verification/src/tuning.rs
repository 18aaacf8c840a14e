use vstd::prelude::*;

verus! {

/// The chunk sizes, in bytes, in which the storage of a class grows.
pub struct Tuning {
    /// Storage of instance states.
    pub instance_chunk_size: usize,
    /// Storage of the slot map's entries.
    pub instance_entry_chunk_size: usize,
    /// Storage of the slot map's versions.
    pub instance_versions_chunk_size: usize,
    /// Storage of the ids that wait for reuse.
    pub instance_free_chunk_size: usize,
    /// Storage of an inbox.
    pub inbox_queue_chunk_size: usize,
}

impl Default for Tuning {
    fn default() -> (t: Tuning)
        ensures
            t.instance_chunk_size == 4 * 1024 * 1024,
            t.instance_entry_chunk_size == 1024 * 1024,
            t.instance_versions_chunk_size == 512 * 1024,
            t.instance_free_chunk_size == 8 * 1024,
            t.inbox_queue_chunk_size == 1024 * 1024,
    {
        Tuning {
            instance_chunk_size: 4194304,
            instance_entry_chunk_size: 1048576,
            instance_versions_chunk_size: 524288,
            instance_free_chunk_size: 8192,
            inbox_queue_chunk_size: 1048576,
        }
    }
}

} // verus!
