use vstd::prelude::*;

verus! {

/// What a build reports of one block.
#[derive(Debug)]
pub struct BlockStat {
    pub name: String,
    pub start_address: u32,
    pub allocated_size: u32,
    pub used_size: u32,
    pub crc_value: Option<u32>,
}

impl Clone for BlockStat {
    fn clone(&self) -> (r: Self)
        ensures
            r == *self,
    {
        BlockStat {
            name: self.name.clone(),
            start_address: self.start_address,
            allocated_size: self.allocated_size,
            used_size: self.used_size,
            crc_value: self.crc_value,
        }
    }
}

/// What a build reports of all its blocks, in the order in which they were
/// added.
#[derive(Debug)]
pub struct BuildStats {
    pub blocks_processed: usize,
    pub total_allocated: usize,
    pub total_used: usize,
    pub block_stats: Vec<BlockStat>,
}

/// `value` held to the range of `usize`.
pub open spec fn clip_usize(value: nat) -> usize {
    if value > usize::MAX {
        usize::MAX
    } else {
        value as usize
    }
}

/// The sum of the allocated sizes of `stats`.
pub open spec fn sum_allocated(stats: Seq<BlockStat>) -> nat
    decreases stats.len(),
{
    if stats.len() == 0 {
        0
    } else {
        sum_allocated(stats.drop_last()) + stats.last().allocated_size as nat
    }
}

/// The sum of the used sizes of `stats`.
pub open spec fn sum_used(stats: Seq<BlockStat>) -> nat
    decreases stats.len(),
{
    if stats.len() == 0 {
        0
    } else {
        sum_used(stats.drop_last()) + stats.last().used_size as nat
    }
}

impl BuildStats {
    /// True where the counters are what the list of blocks says: the number
    /// of blocks and the sums of their sizes, held to the range of `usize`.
    pub open spec fn wf(self) -> bool {
        &&& self.blocks_processed == self.block_stats@.len()
        &&& self.total_allocated == clip_usize(sum_allocated(self.block_stats@))
        &&& self.total_used == clip_usize(sum_used(self.block_stats@))
    }

    /// Statistics of no block.
    pub fn new() -> (r: Self)
        ensures
            r.wf(),
            r.block_stats@.len() == 0,
    {
        BuildStats { blocks_processed: 0, total_allocated: 0, total_used: 0, block_stats: Vec::new() }
    }

    /// Adds a block behind those already there.
    pub fn add_block(&mut self, stat: BlockStat)
        requires
            old(self).wf(),
        ensures
            final(self).wf(),
            final(self).block_stats@ == old(self).block_stats@.push(stat),
    {
        let length = self.block_stats.len();
        self.total_allocated = self.total_allocated.saturating_add(stat.allocated_size as usize);
        self.total_used = self.total_used.saturating_add(stat.used_size as usize);
        self.block_stats.push(stat);
        self.blocks_processed = self.block_stats.len();
        proof {
            assert(self.block_stats@.drop_last() =~= old(self).block_stats@);
        }
    }
}

} // verus!
