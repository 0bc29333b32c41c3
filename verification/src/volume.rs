//! Filesystem-wide shared state: the raw byte regions that directories are
//! decoded from.
//!
//! Cluster-chain traversal and raw storage I/O are external collaborators;
//! here they are represented by their result, a readable byte region per
//! directory: one region for the root directory and one region per first
//! cluster of a subdirectory.

use vstd::prelude::*;

verus! {

/// One directory byte region, keyed by the first cluster of its chain.
#[derive(Debug)]
pub(crate) struct FatRegion {
    /// The first cluster of the chain that this region was read from.
    pub(crate) cluster: u32,
    /// The raw directory records, 32 bytes each.
    pub(crate) bytes: Vec<u8>,
}

/// Mathematical model of the shared filesystem state.
#[verifier::ext_equal]
pub struct SpecFs {
    /// The root directory's raw byte region.
    pub root: Seq<u8>,
    /// The subdirectory regions, as (first cluster, raw bytes) pairs, in the
    /// order they were added.
    pub regions: Seq<(u32, Seq<u8>)>,
}

/// Filesystem-wide state shared read-only by every directory and entry.
#[derive(Debug)]
pub struct FatSharedState {
    pub(crate) root: Vec<u8>,
    pub(crate) regions: Vec<FatRegion>,
}

impl View for FatSharedState {
    type V = SpecFs;

    closed spec fn view(&self) -> SpecFs {
        SpecFs {
            root: self.root@,
            regions: Seq::new(
                self.regions@.len(),
                |i: int| (self.regions@[i].cluster, self.regions@[i].bytes@),
            ),
        }
    }
}

pub(crate) proof fn lemma_fs_view(fs: &FatSharedState)
    ensures
        fs@.root == fs.root@,
        fs@.regions.len() == fs.regions@.len(),
        forall|i: int|
            0 <= i < fs.regions@.len() ==> fs@.regions[i] == (
                fs.regions@[i].cluster,
                fs.regions@[i].bytes@,
            ),
{
}

/// The bytes of the first region keyed by `cluster`, if any.
pub open spec fn region_lookup(regions: Seq<(u32, Seq<u8>)>, cluster: u32) -> Option<Seq<u8>>
    decreases regions.len(),
{
    if regions.len() == 0 {
        None
    } else if regions[0].0 == cluster {
        Some(regions[0].1)
    } else {
        region_lookup(regions.skip(1), cluster)
    }
}

impl FatSharedState {
    /// Creates the shared state from the root directory's raw byte region.
    pub fn new(root: Vec<u8>) -> (s: Self)
        ensures
            s@.root == root@,
            s@.regions.len() == 0,
    {
        let s = FatSharedState { root, regions: Vec::new() };
        proof {
            assert(s@.regions =~= Seq::<(u32, Seq<u8>)>::empty());
        }
        s
    }

    /// Adds the raw byte region that the cluster chain starting at `cluster`
    /// resolves to.
    pub fn add_region(&mut self, cluster: u32, bytes: Vec<u8>)
        ensures
            final(self)@.root == old(self)@.root,
            final(self)@.regions == old(self)@.regions.push((cluster, bytes@)),
    {
        let ghost old_view = self@.regions;
        let region = FatRegion { cluster, bytes };
        let ghost pair = (region.cluster, region.bytes@);
        self.regions.push(region);
        proof {
            assert(self@.regions =~= old_view.push(pair));
        }
    }
}

/// The bytes of the first region keyed by `cluster`, or `None`.
pub(crate) fn region_bytes_ref<'x>(fs: &'x FatSharedState, cluster: u32) -> (r: Option<
    &'x Vec<u8>,
>)
    ensures
        match region_lookup(fs@.regions, cluster) {
            Some(b) => r matches Some(v) && v@ == b,
            None => r is None,
        },
{
    let mut i: usize = 0;
    proof {
        assert(fs@.regions.skip(0) =~= fs@.regions);
    }
    while i < fs.regions.len()
        invariant
            i <= fs.regions@.len(),
            fs@.regions.len() == fs.regions@.len(),
            region_lookup(fs@.regions, cluster) == region_lookup(
                fs@.regions.skip(i as int),
                cluster,
            ),
        decreases fs.regions@.len() - i,
    {
        proof {
            assert(fs@.regions.skip(i as int)[0] == fs@.regions[i as int]);
            assert(fs@.regions.skip(i as int).skip(1) =~= fs@.regions.skip(i + 1));
        }
        if fs.regions[i].cluster == cluster {
            return Some(&fs.regions[i].bytes);
        }
        i = i + 1;
    }
    proof {
        assert(fs@.regions.skip(fs@.regions.len() as int) =~= Seq::<(u32, Seq<u8>)>::empty());
    }
    None
}

} // verus!
