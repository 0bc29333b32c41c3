//! The caller-visible file handle.
//!
//! Raw file content I/O is an external collaborator; the handle carries what
//! that collaborator consumes: the first cluster of the file's chain and, for
//! files, the byte length.

use vstd::prelude::*;

verus! {

/// A handle to a file (or to a directory's cluster chain when the length is
/// unknown), to be consumed by the cluster-chain collaborator.
#[derive(Debug, Clone, Copy, PartialEq, Eq)]
pub struct FatFile {
    /// The first cluster of the file's chain.
    pub first_cluster: u32,
    /// The file's byte length; `None` for a directory, whose true size is
    /// determined by its cluster-chain length.
    pub size: Option<u32>,
}

impl FatFile {
    /// Creates a handle from a first cluster and an optional byte length.
    pub fn new(first_cluster: u32, size: Option<u32>) -> (f: Self)
        ensures
            f.first_cluster == first_cluster,
            f.size == size,
    {
        FatFile { first_cluster, size }
    }

    /// The byte length of the file, or 0 for a directory handle.
    pub fn len(&self) -> (r: u64)
        ensures
            r == match self.size {
                Some(n) => n as u64,
                None => 0u64,
            },
    {
        match self.size {
            Some(n) => n as u64,
            None => 0u64,
        }
    }
}

} // verus!
