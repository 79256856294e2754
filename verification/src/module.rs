//! Modules: the root container.
//!
//! A module is one operation of the distinguished module kind whose sole
//! region holds the top-level block.

use crate::block::{Block, BlockRef};
use crate::builder::{build_post, Builder};
use crate::chars::ident_ok;
use crate::context::{has_kind, kind_for, Context, ContextV};
use crate::location::{location_ok, Location};
use crate::operation::{Operation, OperationRef};
use crate::region::Region;
use vstd::prelude::*;

verus! {

/// The name of the module operation kind.
pub open spec fn module_name() -> Seq<char> {
    "builtin.module"@
}

/// The operation at `op` is a module root: the module kind's name, one
/// region holding one block, and no results or operands.
pub open spec fn is_module_op(cv: ContextV, op: usize) -> bool {
    &&& cv.is_op(op as int)
    &&& cv.strings[cv.op_at(op as int).name as int] == module_name()
    &&& cv.op_at(op as int).regions.len() == 1
    &&& cv.is_region(cv.op_at(op as int).regions[0] as int)
    &&& cv.region_at(cv.op_at(op as int).regions[0] as int).blocks.len() == 1
    &&& cv.op_at(op as int).result_types.len() == 0
    &&& cv.op_at(op as int).operands.len() == 0
    &&& cv.op_at(op as int).attrs.len() == 0
    &&& cv.op_at(op as int).successors.len() == 0
}

/// The top-level block of a module operation.
pub open spec fn module_body(cv: ContextV, op: usize) -> usize {
    cv.region_at(cv.op_at(op as int).regions[0] as int).blocks[0]
}

proof fn lemma_module_name_ok()
    ensures
        ident_ok(module_name()),
{
    reveal_strlit("builtin.module");
}

/// A module: the root operation of a compilation unit.
#[derive(Debug)]
pub struct Module {
    pub op: usize,
}

impl Module {
    /// Creates an empty module at a location: one operation of the module
    /// kind, one region, one empty block.  Registers the module kind.
    pub fn new(ctx: &mut Context, location: Location) -> (r: Module)
        requires
            old(ctx)@.wf(),
            location_ok(location@),
        ensures
            final(ctx)@.wf(),
            is_module_op(final(ctx)@, r.op),
            final(ctx)@.op_at(r.op as int).parent is None,
            final(ctx)@.op_at(r.op as int).location == location@,
            final(ctx)@.block_at(module_body(final(ctx)@, r.op) as int).ops.len() == 0,
            final(ctx)@.block_at(module_body(final(ctx)@, r.op) as int).args.len() == 0,
            has_kind(final(ctx)@, module_name()),
            kind_for(final(ctx)@, module_name()).region_arity == Some(1usize),
            kind_for(final(ctx)@, module_name()).result_arity == Some(0usize),
            final(ctx)@.allow_unregistered == old(ctx)@.allow_unregistered,
    {
        proof {
            lemma_module_name_ok();
        }
        ctx.register_kind("builtin.module", Some(0), Some(1), false);
        let ghost cvr = ctx@;
        let block = Block::new(ctx, Vec::new());
        let region = Region::new(ctx);
        let ghost blk_id = block.id;
        let ghost reg_id = region.id;
        proof {
            assert(crate::ancestry::step(ctx@.pm(), reg_id as int) == None::<int>);
            crate::ancestry::lemma_root_reaches_only_self(
                ctx@.pm(),
                reg_id as int,
                blk_id as int,
            );
        }
        let bref = region.as_ref().append_block(ctx, block);
        let builder = Builder::new("builtin.module", location);
        let built = builder.add_regions(vec![region]);
        let ghost pre = ctx@;
        proof {
            assert(crate::builder::region_ids(built.regions@) =~= seq![reg_id]);
            assert(built.regions@.len() == 1);
            assert(built.regions@[0].id == crate::builder::region_ids(built.regions@)[0]);
            assert(built.regions@[0].id == reg_id);
            assert(pre.is_region(reg_id as int));
            assert(pre.region_at(reg_id as int).parent is None);
        }
        let result = built.build(ctx);
        let operation = match result {
            Ok(o) => o,
            Err(_) => vstd::pervasive::unreached(),
        };
        proof {
            assert(build_post(pre, ctx@, built, operation.id));
            let c = final(ctx)@;
            let o = c.op_at(operation.id as int);
            assert(crate::builder::region_ids(built.regions@)[0] == reg_id);
            assert(o.regions[0] == reg_id);
            assert(c.nodes[reg_id as int] matches crate::context::NodeV::Region(rg) && rg.blocks
                == pre.region_at(reg_id as int).blocks);
            assert(pre.region_at(reg_id as int).blocks[0] == blk_id);
            assert(!crate::builder::region_ids(built.regions@).contains(blk_id)) by {
                if crate::builder::region_ids(built.regions@).contains(blk_id) {
                    let q = choose|q: int|
                        0 <= q < 1 && crate::builder::region_ids(built.regions@)[q] == blk_id;
                }
            }
            assert(c.nodes[blk_id as int] == pre.nodes[blk_id as int]);
            // The module shape, piece by piece.
            assert(c.strings[o.name as int] == "builtin.module"@);
            assert(o.regions == crate::builder::region_ids(built.regions@));
            assert(o.regions.len() == 1);
            assert(c.nodes[reg_id as int] == crate::context::NodeV::Region(
                crate::context::RegionNodeV {
                    parent: Some(operation.id),
                    ..pre.region_at(reg_id as int)
                },
            ));
            assert(c.is_region(reg_id as int));
            assert(pre.region_at(reg_id as int).blocks.len() == 1);
            assert(c.region_at(reg_id as int).blocks.len() == 1);
            assert(o.result_types == crate::builder::final_result_types(pre, built));
            assert(o.result_types.len() == 0) by {
                assert(crate::context::type_views(built.result_types@).len() == 0);
            }
            assert(o.operands.len() == 0);
            assert(o.attrs.len() == 0) by {
                assert(crate::builder::na_views(built.attributes@).len() == 0);
            }
            assert(o.successors.len() == 0);
            assert(is_module_op(c, operation.id));
            // The body block is still empty.
            assert(module_body(c, operation.id) == blk_id);
            assert(c.block_at(blk_id as int).ops.len() == 0);
            assert(c.block_at(blk_id as int).args.len() == 0) by {
                assert(crate::context::arg_views(Seq::<crate::context::BlockArg>::empty()).len()
                    == 0);
            }
            // The registered module kind survives.
            assert(has_kind(cvr, module_name()));
            let w = choose|i: int|
                0 <= i < cvr.kinds.len() && cvr.strings[(#[trigger] cvr.kinds[i]).name as int]
                    == module_name();
            assert(c.kinds == cvr.kinds);
            assert(cvr.kinds[w].name < cvr.strings.len());
            assert(c.strings[c.kinds[w].name as int] == module_name());
            assert(has_kind(c, module_name()));
            assert(kind_for(c, module_name()) == c.kinds[w]) by {
                let w2 = choose|i: int|
                    0 <= i < c.kinds.len() && c.strings[(#[trigger] c.kinds[i]).name as int]
                        == module_name();
                crate::context::lemma_kind_unique_pub(c, w, w2);
            }
            assert(kind_for(cvr, module_name()) == cvr.kinds[w]) by {
                let w2 = choose|i: int|
                    0 <= i < cvr.kinds.len() && cvr.strings[(#[trigger] cvr.kinds[i]).name as int]
                        == module_name();
                crate::context::lemma_kind_unique_pub(cvr, w, w2);
            }
        }
        Module { op: operation.id }
    }

    /// The module as an operation reference.
    pub fn as_operation(&self) -> (r: OperationRef)
        ensures
            r.id == self.op,
    {
        OperationRef { id: self.op }
    }

    /// The top-level block of the module body.
    pub fn body(&self, ctx: &Context) -> (r: BlockRef)
        requires
            ctx@.wf(),
            is_module_op(ctx@, self.op),
        ensures
            r.id == module_body(ctx@, self.op),
            ctx@.is_block(r.id as int),
    {
        proof {
            assert(ctx@.wf_node(self.op as int));
        }
        let node = ctx.op_node(self.op);
        let r0 = node.regions[0];
        proof {
            assert(ctx@.wf_node(r0 as int));
        }
        let rn = ctx.region_node(r0);
        BlockRef { id: rn.blocks[0] }
    }

    /// Wraps an operation that has the module shape; returns nothing when the
    /// operation is of another kind or shape.
    pub fn from_operation(ctx: &Context, operation: Operation) -> (r: Option<Module>)
        requires
            ctx@.wf(),
            ctx@.is_op(operation.id as int),
        ensures
            r is Some <==> is_module_op(ctx@, operation.id),
            r matches Some(m) ==> m.op == operation.id,
    {
        proof {
            assert(ctx@.wf_node(operation.id as int));
        }
        let node = ctx.op_node(operation.id);
        let want: String = "builtin.module".to_owned();
        if !(ctx.strings[node.name] == want) {
            return None;
        }
        if node.regions.len() != 1 {
            return None;
        }
        if node.result_types.len() != 0 {
            return None;
        }
        if node.operands.len() != 0 {
            return None;
        }
        if node.attrs.len() != 0 {
            return None;
        }
        if node.successors.len() != 0 {
            return None;
        }
        let r0 = node.regions[0];
        proof {
            assert(ctx@.is_region(r0 as int));
        }
        let rn = ctx.region_node(r0);
        if rn.blocks.len() != 1 {
            return None;
        }
        Some(Module { op: operation.id })
    }
}

} // verus!
