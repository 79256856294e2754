use mlir_core::block::Block;
use mlir_core::builder::Builder;
use mlir_core::context::Context;
use mlir_core::location::Location;
use mlir_core::module::Module;
use mlir_core::region::Region;
use mlir_core::types::Type;
use mlir_core::value::{Argument, ResultValue};
use mlir_core::Error;

fn simple_op(ctx: &mut Context, name: &str) -> mlir_core::operation::Operation {
    Builder::new(name, Location::unknown()).build(ctx).unwrap()
}

#[test]
fn block_new() {
    let mut ctx = Context::new();
    Block::new(&mut ctx, Vec::new());
}

#[test]
fn argument() {
    let mut ctx = Context::new();
    let ty = Type::integer(64);
    let block = Block::new(
        &mut ctx,
        vec![mlir_core::context::BlockArg { ty: ty.clone(), location: Location::unknown() }],
    );
    let arg = block.argument(&ctx, 0).unwrap();
    assert_eq!(ctx.value_type(arg.as_value()), ty);
}

#[test]
fn argument_error() {
    let mut ctx = Context::new();
    let block = Block::new(&mut ctx, Vec::new());
    assert_eq!(block.argument(&ctx, 0).unwrap_err(), Error::IndexOutOfRange);
}

#[test]
fn argument_count() {
    let mut ctx = Context::new();
    let block = Block::new(&mut ctx, Vec::new());
    assert_eq!(block.argument_count(&ctx), 0);
}

#[test]
fn parent_region() {
    let mut ctx = Context::new();
    let region = Region::new(&mut ctx);
    let b = Block::new(&mut ctx, Vec::new());
    let block = region.append_block(&mut ctx, b);
    assert_eq!(block.parent_region(&ctx), Some(region.as_ref()));
}

#[test]
fn parent_region_none() {
    let mut ctx = Context::new();
    let block = Block::new(&mut ctx, Vec::new());
    assert_eq!(block.parent_region(&ctx), None);
}

#[test]
fn parent_operation() {
    let mut ctx = Context::new();
    let module = Module::new(&mut ctx, Location::unknown());
    assert_eq!(
        module.body(&ctx).parent_operation(&ctx),
        Some(module.as_operation())
    );
}

#[test]
fn parent_operation_none() {
    let mut ctx = Context::new();
    let block = Block::new(&mut ctx, Vec::new());
    assert_eq!(block.parent_operation(&ctx), None);
}

#[test]
fn terminator() {
    let mut ctx = Context::new();
    let block = Block::new(&mut ctx, Vec::new());
    let op = simple_op(&mut ctx, "func.return");
    let opref = block.append_operation(&mut ctx, op);

    assert_eq!(block.terminator(&ctx), Some(opref));
}

#[test]
fn terminator_none() {
    let mut ctx = Context::new();
    let block = Block::new(&mut ctx, Vec::new());
    assert_eq!(block.terminator(&ctx), None);
}

#[test]
fn first_operation() {
    let mut ctx = Context::new();
    let block = Block::new(&mut ctx, Vec::new());
    let op = Builder::new("arith.constant", Location::unknown())
        .add_results(vec![Type::integer(32)])
        .add_attributes(vec![
            mlir_core::attr::NamedAttribute::new_parsed("value", "0 : i32").unwrap(),
        ])
        .build(&mut ctx)
        .unwrap();
    let opref = block.append_operation(&mut ctx, op);
    assert_eq!(block.first_operation(&ctx), Some(opref));
}

#[test]
fn first_operation_none() {
    let mut ctx = Context::new();
    let block = Block::new(&mut ctx, Vec::new());
    assert_eq!(block.first_operation(&ctx), None);
}

#[test]
fn append_operation() {
    let mut ctx = Context::new();
    let block = Block::new(&mut ctx, Vec::new());
    let op = Builder::new("arith.constant", Location::unknown())
        .add_results(vec![Type::integer(32)])
        .add_attributes(vec![
            mlir_core::attr::NamedAttribute::new_parsed("value", "0 : i32").unwrap(),
        ])
        .build(&mut ctx)
        .unwrap();
    block.append_operation(&mut ctx, op);
}

#[test]
fn insert_operation() {
    let mut ctx = Context::new();
    let block = Block::new(&mut ctx, Vec::new());
    let op = Builder::new("arith.constant", Location::unknown())
        .add_results(vec![Type::integer(32)])
        .add_attributes(vec![
            mlir_core::attr::NamedAttribute::new_parsed("value", "0 : i32").unwrap(),
        ])
        .build(&mut ctx)
        .unwrap();
    block.as_ref().insert_operation(&mut ctx, 0, op);
}

#[test]
fn insert_operation_after() {
    let mut ctx = Context::new();
    let block = Block::new(&mut ctx, Vec::new());
    let op1 = simple_op(&mut ctx, "arith.constant");
    let first = block.append_operation(&mut ctx, op1);
    let op2 = simple_op(&mut ctx, "arith.constant");
    let second = block.as_ref().insert_operation_after(&mut ctx, first, op2);
    assert_eq!(block.first_operation(&ctx), Some(first));
    assert_eq!(
        block.first_operation(&ctx).unwrap().next_in_block(&ctx),
        Some(second)
    );
}

#[test]
fn insert_operation_before() {
    let mut ctx = Context::new();
    let block = Block::new(&mut ctx, Vec::new());
    let op1 = simple_op(&mut ctx, "arith.constant");
    let second = block.append_operation(&mut ctx, op1);
    let op2 = simple_op(&mut ctx, "arith.constant");
    let first = block.as_ref().insert_operation_before(&mut ctx, second, op2);
    assert_eq!(block.first_operation(&ctx), Some(first));
    assert_eq!(
        block.first_operation(&ctx).unwrap().next_in_block(&ctx),
        Some(second)
    );
}

#[test]
fn next_in_region() {
    let mut ctx = Context::new();
    let region = Region::new(&mut ctx);
    let b1 = Block::new(&mut ctx, Vec::new());
    let first = region.append_block(&mut ctx, b1);
    let b2 = Block::new(&mut ctx, Vec::new());
    let second = region.append_block(&mut ctx, b2);
    assert_eq!(first.next_in_region(&ctx), Some(second));
}

#[test]
fn detach() {
    let mut ctx = Context::new();
    let region = Region::new(&mut ctx);
    let b = Block::new(&mut ctx, Vec::new());
    let block = region.append_block(&mut ctx, b);
    let owned = block.detach(&mut ctx).unwrap();
    assert_eq!(owned.to_text(&ctx), "<<UNLINKED BLOCK>>\n");
}

#[test]
fn detach_detached() {
    let mut ctx = Context::new();
    let block = Block::new(&mut ctx, Vec::new());
    assert!(block.detach(&mut ctx).is_none());
}

#[test]
fn block_display() {
    let mut ctx = Context::new();
    let block = Block::new(&mut ctx, Vec::new());
    assert_eq!(block.to_text(&ctx), "<<UNLINKED BLOCK>>\n");
}

#[test]
fn detach_keeps_siblings() {
    let mut ctx = Context::new();
    let region = Region::new(&mut ctx);
    let b1 = Block::new(&mut ctx, Vec::new());
    let first = region.append_block(&mut ctx, b1);
    let b2 = Block::new(&mut ctx, Vec::new());
    let second = region.append_block(&mut ctx, b2);
    let _owned = first.detach(&mut ctx).unwrap();
    assert_eq!(region.first_block(&ctx), Some(second));
    assert_eq!(second.parent_region(&ctx), Some(region.as_ref()));
}

#[test]
fn argument_number() {
    let mut ctx = Context::new();
    let block = Block::new(
        &mut ctx,
        vec![mlir_core::context::BlockArg { ty: Type::index(), location: Location::unknown() }],
    );
    assert_eq!(block.argument(&ctx, 0).unwrap().argument_number(), 0);
}

#[test]
fn argument_owner() {
    let mut ctx = Context::new();
    let block = Block::new(
        &mut ctx,
        vec![mlir_core::context::BlockArg { ty: Type::index(), location: Location::unknown() }],
    );
    assert_eq!(block.argument(&ctx, 0).unwrap().owner(), block.as_ref());
}

#[test]
fn module_new() {
    let mut ctx = Context::new();
    Module::new(&mut ctx, Location::new("foo", 42, 42));
}

#[test]
fn from_operation() {
    let mut ctx = Context::new();
    let region = Region::new(&mut ctx);
    let b = Block::new(&mut ctx, Vec::new());
    region.append_block(&mut ctx, b);
    ctx.register_kind("builtin.module", Some(0), Some(1), false);
    let op = Builder::new("builtin.module", Location::unknown())
        .add_regions(vec![region])
        .build(&mut ctx)
        .unwrap();
    let module = Module::from_operation(&ctx, op).unwrap();
    assert!(module.as_operation().verify(&ctx));
    assert_eq!(module.as_operation().to_text(&ctx), "module {\n}\n");
}

#[test]
fn from_operation_fail() {
    let mut ctx = Context::new();
    let op = simple_op(&mut ctx, "func.func");
    assert!(Module::from_operation(&ctx, op).is_none());
}

#[test]
fn operation_new() {
    let mut ctx = Context::new();
    simple_op(&mut ctx, "foo");
}

#[test]
fn name() {
    let mut ctx = Context::new();
    let op = simple_op(&mut ctx, "foo");
    let name = op.name(&ctx);
    assert_eq!(ctx.lookup(name), "foo");
    assert_eq!(name, ctx.intern("foo"));
}

#[test]
fn block() {
    let mut ctx = Context::new();
    let blk = Block::new(&mut ctx, Vec::new());
    let op = simple_op(&mut ctx, "foo");
    let opref = blk.append_operation(&mut ctx, op);
    assert_eq!(opref.block(&ctx), Some(blk.as_ref()));
}

#[test]
fn block_none() {
    let mut ctx = Context::new();
    let op = simple_op(&mut ctx, "foo");
    assert_eq!(op.block(&ctx), None);
}

#[test]
fn result_error() {
    let mut ctx = Context::new();
    let op = simple_op(&mut ctx, "foo");
    assert_eq!(op.result(&ctx, 0).unwrap_err(), Error::IndexOutOfRange);
}

#[test]
fn region_none() {
    let mut ctx = Context::new();
    let op = simple_op(&mut ctx, "foo");
    assert!(op.region(&ctx, 0).is_none());
}

#[test]
fn result_number() {
    let mut ctx = Context::new();
    let op = Builder::new("foo", Location::unknown())
        .add_results(vec![Type::index()])
        .build(&mut ctx)
        .unwrap();
    assert_eq!(op.result(&ctx, 0).unwrap().result_number(), 0);
}

#[test]
fn result_owner() {
    let mut ctx = Context::new();
    let op = Builder::new("foo", Location::unknown())
        .add_results(vec![Type::index()])
        .build(&mut ctx)
        .unwrap();
    let res = op.result(&ctx, 0).unwrap();
    assert_eq!(res.owner(), op.as_ref());
}

#[test]
fn region_new() {
    let mut ctx = Context::new();
    Region::new(&mut ctx);
}

#[test]
fn first_block() {
    let mut ctx = Context::new();
    let region = Region::new(&mut ctx);
    assert!(region.first_block(&ctx).is_none());
}

#[test]
fn append_block() {
    let mut ctx = Context::new();
    let region = Region::new(&mut ctx);
    let b = Block::new(&mut ctx, Vec::new());
    region.append_block(&mut ctx, b);
    assert!(region.first_block(&ctx).is_some());
}

#[test]
fn insert_block_after() {
    let mut ctx = Context::new();
    let region = Region::new(&mut ctx);
    let b = Block::new(&mut ctx, Vec::new());
    let block = region.append_block(&mut ctx, b);
    let b2 = Block::new(&mut ctx, Vec::new());
    region.as_ref().insert_block_after(&mut ctx, block, b2);
    assert_eq!(region.first_block(&ctx), Some(block));
}

#[test]
fn insert_block_before() {
    let mut ctx = Context::new();
    let region = Region::new(&mut ctx);
    let b = Block::new(&mut ctx, Vec::new());
    let block = region.append_block(&mut ctx, b);
    let b2 = Block::new(&mut ctx, Vec::new());
    let block = region.as_ref().insert_block_before(&mut ctx, block, b2);
    assert_eq!(region.first_block(&ctx), Some(block));
}

#[test]
fn region_equal() {
    let mut ctx = Context::new();
    let region = Region::new(&mut ctx);
    assert_eq!(region.as_ref(), region.as_ref());
}

#[test]
fn region_not_equal() {
    let mut ctx = Context::new();
    let a = Region::new(&mut ctx);
    let b = Region::new(&mut ctx);
    assert_ne!(a.as_ref(), b.as_ref());
}

#[test]
fn value_type() {
    let mut ctx = Context::new();
    let op = Builder::new("arith.constant", Location::unknown())
        .add_results(vec![Type::index()])
        .add_attributes(vec![
            mlir_core::attr::NamedAttribute::new_parsed("value", "0 : index").unwrap(),
        ])
        .build(&mut ctx)
        .unwrap();
    let res = op.result(&ctx, 0).unwrap();
    assert_eq!(ctx.value_type(res.as_value()), Type::index());
}

#[test]
fn is_operation_result() {
    let mut ctx = Context::new();
    let op = Builder::new("arith.constant", Location::unknown())
        .add_results(vec![Type::index()])
        .build(&mut ctx)
        .unwrap();
    assert!(op.result(&ctx, 0).unwrap().as_value().is_operation_result());
}

#[test]
fn is_block_argument() {
    let mut ctx = Context::new();
    let block = Block::new(
        &mut ctx,
        vec![mlir_core::context::BlockArg { ty: Type::index(), location: Location::unknown() }],
    );
    assert!(block.argument(&ctx, 0).unwrap().as_value().is_block_argument());
}

#[test]
fn value_equal() {
    let mut ctx = Context::new();
    let op = Builder::new("arith.constant", Location::unknown())
        .add_results(vec![Type::index()])
        .build(&mut ctx)
        .unwrap();
    let a = op.result(&ctx, 0).unwrap().as_value();
    let b = op.result(&ctx, 0).unwrap().as_value();
    assert_eq!(a, b);
}

#[test]
fn value_not_equal() {
    let mut ctx = Context::new();
    let op1 = Builder::new("arith.constant", Location::unknown())
        .add_results(vec![Type::index()])
        .build(&mut ctx)
        .unwrap();
    let op2 = Builder::new("arith.constant", Location::unknown())
        .add_results(vec![Type::index()])
        .build(&mut ctx)
        .unwrap();
    let a = op1.result(&ctx, 0).unwrap().as_value();
    let b = op2.result(&ctx, 0).unwrap().as_value();
    assert_ne!(a, b);
}

#[test]
fn variant_mismatch() {
    let mut ctx = Context::new();
    let op = Builder::new("foo", Location::unknown())
        .add_results(vec![Type::index()])
        .build(&mut ctx)
        .unwrap();
    let v = op.result(&ctx, 0).unwrap().as_value();
    assert_eq!(Argument::try_from(v).unwrap_err(), Error::VariantMismatch);
    assert!(ResultValue::try_from(v).is_ok());
}

#[test]
fn string_ref_equal() {
    let mut ctx = Context::new();
    assert_eq!(ctx.intern("foo"), ctx.intern("foo"));
}

#[test]
fn string_ref_not_equal() {
    let mut ctx = Context::new();
    assert_ne!(ctx.intern("foo"), ctx.intern("bar"));
}

#[test]
fn index_contract_sweep() {
    let mut ctx = Context::new();
    let two = Block::new(
        &mut ctx,
        vec![
            mlir_core::context::BlockArg { ty: Type::index(), location: Location::unknown() },
            mlir_core::context::BlockArg { ty: Type::integer(1), location: Location::unknown() },
        ],
    );
    let none = Block::new(&mut ctx, Vec::new());
    for i in 0..6usize {
        assert_eq!(two.argument(&ctx, i).is_ok(), i < two.argument_count(&ctx));
        assert!(none.argument(&ctx, i).is_err());
    }
}

#[test]
fn set_type() {
    let mut ctx = Context::new();
    let block = Block::new(
        &mut ctx,
        vec![mlir_core::context::BlockArg { ty: Type::index(), location: Location::unknown() }],
    );
    let argument = block.argument(&ctx, 0).unwrap();
    argument.set_type(&mut ctx, Type::float64());
    assert_eq!(ctx.value_type(argument.as_value()), Type::float64());
}
