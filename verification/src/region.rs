//! Regions: ordered groups of blocks owned by operations.
//!
//! `Region` owns a detached region, used as a staging area before a builder
//! attaches it to an operation; `RegionRef` is a copyable, non-owning
//! reference to a region resident in a context.

use crate::ancestry::reaches;
use crate::block::{Block, BlockRef};
use crate::context::{pos_of, Context, Node, RegionNode};
use vstd::prelude::*;

verus! {

/// An owned, detached region.
#[derive(Debug)]
pub struct Region {
    pub id: usize,
}

/// A non-owning reference to a region.
#[derive(Clone, Copy, Debug, PartialEq, Eq, Structural)]
pub struct RegionRef {
    pub id: usize,
}

impl RegionRef {
    /// The first block, or nothing for an empty region.
    pub fn first_block(&self, ctx: &Context) -> (r: Option<BlockRef>)
        requires
            ctx@.wf(),
            ctx@.is_region(self.id as int),
        ensures
            ({
                let blocks = ctx@.region_at(self.id as int).blocks;
                if blocks.len() > 0 {
                    r == Some(BlockRef { id: blocks[0] })
                } else {
                    r is None
                }
            }),
    {
        let node = ctx.region_node(self.id);
        if node.blocks.len() > 0 {
            Some(BlockRef { id: node.blocks[0] })
        } else {
            None
        }
    }

    /// Appends a detached block; ownership moves into the region.
    pub fn append_block(&self, ctx: &mut Context, block: Block) -> (r: BlockRef)
        requires
            old(ctx)@.wf(),
            old(ctx)@.is_region(self.id as int),
            old(ctx)@.is_block(block.id as int),
            old(ctx)@.block_at(block.id as int).parent is None,
            !reaches(old(ctx)@.pm(), self.id as int, block.id as int),
        ensures
            final(ctx)@.wf(),
            crate::context::same_surroundings(old(ctx)@, final(ctx)@),
            final(ctx)@.nodes == old(ctx)@.nodes.update(
                self.id as int,
                crate::context::NodeV::Region(
                    crate::context::RegionNodeV {
                        blocks: old(ctx)@.region_at(self.id as int).blocks.push(block.id),
                        ..old(ctx)@.region_at(self.id as int)
                    },
                ),
            ).update(
                block.id as int,
                crate::context::NodeV::Block(
                    crate::context::BlockNodeV {
                        parent: Some(self.id),
                        ..old(ctx)@.block_at(block.id as int)
                    },
                ),
            ),
            r.id == block.id,
    {
        let len = ctx.region_node(self.id).blocks.len();
        proof {
            let blocks = old(ctx)@.region_at(self.id as int).blocks;
            assert(blocks.insert(blocks.len() as int, block.id) =~= blocks.push(block.id));
        }
        ctx.attach_block(block.id, self.id, len);
        BlockRef { id: block.id }
    }

    /// Inserts a detached block directly after a block of this region;
    /// ownership moves into the region.
    pub fn insert_block_after(&self, ctx: &mut Context, anchor: BlockRef, block: Block) -> (r:
        BlockRef)
        requires
            old(ctx)@.wf(),
            old(ctx)@.is_region(self.id as int),
            old(ctx)@.region_at(self.id as int).blocks.contains(anchor.id),
            old(ctx)@.is_block(block.id as int),
            old(ctx)@.block_at(block.id as int).parent is None,
            !reaches(old(ctx)@.pm(), self.id as int, block.id as int),
        ensures
            final(ctx)@.wf(),
            crate::context::same_surroundings(old(ctx)@, final(ctx)@),
            ({
                let blocks = old(ctx)@.region_at(self.id as int).blocks;
                let idx = pos_of(blocks, anchor.id);
                final(ctx)@.nodes == old(ctx)@.nodes.update(
                    self.id as int,
                    crate::context::NodeV::Region(
                        crate::context::RegionNodeV {
                            blocks: blocks.insert(idx + 1, block.id),
                            ..old(ctx)@.region_at(self.id as int)
                        },
                    ),
                ).update(
                    block.id as int,
                    crate::context::NodeV::Block(
                        crate::context::BlockNodeV {
                            parent: Some(self.id),
                            ..old(ctx)@.block_at(block.id as int)
                        },
                    ),
                )
            }),
            r.id == block.id,
    {
        let n = ctx.region_node(self.id).blocks.len();
        let idx = crate::block::index_of_block(ctx, self.id, anchor.id);
        ctx.attach_block(block.id, self.id, idx + 1);
        BlockRef { id: block.id }
    }

    /// Inserts a detached block directly before a block of this region;
    /// ownership moves into the region.
    pub fn insert_block_before(&self, ctx: &mut Context, anchor: BlockRef, block: Block) -> (r:
        BlockRef)
        requires
            old(ctx)@.wf(),
            old(ctx)@.is_region(self.id as int),
            old(ctx)@.region_at(self.id as int).blocks.contains(anchor.id),
            old(ctx)@.is_block(block.id as int),
            old(ctx)@.block_at(block.id as int).parent is None,
            !reaches(old(ctx)@.pm(), self.id as int, block.id as int),
        ensures
            final(ctx)@.wf(),
            crate::context::same_surroundings(old(ctx)@, final(ctx)@),
            ({
                let blocks = old(ctx)@.region_at(self.id as int).blocks;
                let idx = pos_of(blocks, anchor.id);
                final(ctx)@.nodes == old(ctx)@.nodes.update(
                    self.id as int,
                    crate::context::NodeV::Region(
                        crate::context::RegionNodeV {
                            blocks: blocks.insert(idx, block.id),
                            ..old(ctx)@.region_at(self.id as int)
                        },
                    ),
                ).update(
                    block.id as int,
                    crate::context::NodeV::Block(
                        crate::context::BlockNodeV {
                            parent: Some(self.id),
                            ..old(ctx)@.block_at(block.id as int)
                        },
                    ),
                )
            }),
            r.id == block.id,
    {
        let idx = crate::block::index_of_block(ctx, self.id, anchor.id);
        ctx.attach_block(block.id, self.id, idx);
        BlockRef { id: block.id }
    }
}

impl Region {
    /// Creates an empty, parentless region.
    pub fn new(ctx: &mut Context) -> (r: Region)
        requires
            old(ctx)@.wf(),
        ensures
            final(ctx)@.wf(),
            crate::context::same_surroundings(old(ctx)@, final(ctx)@),
            r.id == old(ctx)@.nodes.len(),
            final(ctx)@.nodes == old(ctx)@.nodes.push(
                crate::context::NodeV::Region(
                    crate::context::RegionNodeV { blocks: Seq::empty(), parent: None },
                ),
            ),
    {
        let node = Node::Region(RegionNode { blocks: Vec::new(), parent: None });
        let id = ctx.add_node(node);
        proof {
            assert(final(ctx)@.nodes[id as int] matches crate::context::NodeV::Region(rg)
                && rg.blocks =~= Seq::<usize>::empty());
        }
        Region { id }
    }

    /// A non-owning reference to this region.
    pub fn as_ref(&self) -> (r: RegionRef)
        ensures
            r.id == self.id,
    {
        RegionRef { id: self.id }
    }

    /// The first block, or nothing for an empty region.
    pub fn first_block(&self, ctx: &Context) -> (r: Option<BlockRef>)
        requires
            ctx@.wf(),
            ctx@.is_region(self.id as int),
        ensures
            ({
                let blocks = ctx@.region_at(self.id as int).blocks;
                if blocks.len() > 0 {
                    r == Some(BlockRef { id: blocks[0] })
                } else {
                    r is None
                }
            }),
    {
        self.as_ref().first_block(ctx)
    }

    /// Appends a detached block; ownership moves into the region.
    pub fn append_block(&self, ctx: &mut Context, block: Block) -> (r: BlockRef)
        requires
            old(ctx)@.wf(),
            old(ctx)@.is_region(self.id as int),
            old(ctx)@.is_block(block.id as int),
            old(ctx)@.block_at(block.id as int).parent is None,
            !reaches(old(ctx)@.pm(), self.id as int, block.id as int),
        ensures
            final(ctx)@.wf(),
            crate::context::same_surroundings(old(ctx)@, final(ctx)@),
            final(ctx)@.nodes == old(ctx)@.nodes.update(
                self.id as int,
                crate::context::NodeV::Region(
                    crate::context::RegionNodeV {
                        blocks: old(ctx)@.region_at(self.id as int).blocks.push(block.id),
                        ..old(ctx)@.region_at(self.id as int)
                    },
                ),
            ).update(
                block.id as int,
                crate::context::NodeV::Block(
                    crate::context::BlockNodeV {
                        parent: Some(self.id),
                        ..old(ctx)@.block_at(block.id as int)
                    },
                ),
            ),
            r.id == block.id,
    {
        self.as_ref().append_block(ctx, block)
    }

    /// Inserts a detached block directly after a block of this region.
    pub fn insert_block_after(&self, ctx: &mut Context, anchor: BlockRef, block: Block) -> (r:
        BlockRef)
        requires
            old(ctx)@.wf(),
            old(ctx)@.is_region(self.id as int),
            old(ctx)@.region_at(self.id as int).blocks.contains(anchor.id),
            old(ctx)@.is_block(block.id as int),
            old(ctx)@.block_at(block.id as int).parent is None,
            !reaches(old(ctx)@.pm(), self.id as int, block.id as int),
        ensures
            final(ctx)@.wf(),
            crate::context::same_surroundings(old(ctx)@, final(ctx)@),
            ({
                let blocks = old(ctx)@.region_at(self.id as int).blocks;
                let idx = pos_of(blocks, anchor.id);
                final(ctx)@.nodes == old(ctx)@.nodes.update(
                    self.id as int,
                    crate::context::NodeV::Region(
                        crate::context::RegionNodeV {
                            blocks: blocks.insert(idx + 1, block.id),
                            ..old(ctx)@.region_at(self.id as int)
                        },
                    ),
                ).update(
                    block.id as int,
                    crate::context::NodeV::Block(
                        crate::context::BlockNodeV {
                            parent: Some(self.id),
                            ..old(ctx)@.block_at(block.id as int)
                        },
                    ),
                )
            }),
            r.id == block.id,
    {
        self.as_ref().insert_block_after(ctx, anchor, block)
    }

    /// Inserts a detached block directly before a block of this region.
    pub fn insert_block_before(&self, ctx: &mut Context, anchor: BlockRef, block: Block) -> (r:
        BlockRef)
        requires
            old(ctx)@.wf(),
            old(ctx)@.is_region(self.id as int),
            old(ctx)@.region_at(self.id as int).blocks.contains(anchor.id),
            old(ctx)@.is_block(block.id as int),
            old(ctx)@.block_at(block.id as int).parent is None,
            !reaches(old(ctx)@.pm(), self.id as int, block.id as int),
        ensures
            final(ctx)@.wf(),
            crate::context::same_surroundings(old(ctx)@, final(ctx)@),
            ({
                let blocks = old(ctx)@.region_at(self.id as int).blocks;
                let idx = pos_of(blocks, anchor.id);
                final(ctx)@.nodes == old(ctx)@.nodes.update(
                    self.id as int,
                    crate::context::NodeV::Region(
                        crate::context::RegionNodeV {
                            blocks: blocks.insert(idx, block.id),
                            ..old(ctx)@.region_at(self.id as int)
                        },
                    ),
                ).update(
                    block.id as int,
                    crate::context::NodeV::Block(
                        crate::context::BlockNodeV {
                            parent: Some(self.id),
                            ..old(ctx)@.block_at(block.id as int)
                        },
                    ),
                )
            }),
            r.id == block.id,
    {
        self.as_ref().insert_block_before(ctx, anchor, block)
    }
}

} // verus!
