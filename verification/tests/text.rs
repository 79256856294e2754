use mlir_core::block::Block;
use mlir_core::builder::Builder;
use mlir_core::context::Context;
use mlir_core::location::Location;
use mlir_core::module::Module;
use mlir_core::pass;
use mlir_core::types::Type;
use mlir_core::Error;

#[test]
fn empty_module_scenario() {
    let mut ctx = Context::new();
    let module = Module::new(&mut ctx, Location::unknown());
    assert!(module.as_operation().verify(&ctx));
    assert_eq!(module.as_operation().to_text(&ctx), "module {\n}\n");
}

#[test]
fn block_argument_scenario() {
    let mut ctx = Context::new();
    let block = Block::new(
        &mut ctx,
        vec![mlir_core::context::BlockArg {
            ty: Type::index(),
            location: Location::new("file", 1, 1),
        }],
    );
    let arg = block.argument(&ctx, 0).unwrap();
    assert_eq!(ctx.value_type(arg.as_value()), Type::index());
    assert_eq!(block.argument(&ctx, 1).unwrap_err(), Error::IndexOutOfRange);
}

#[test]
fn unknown_kind_scenario() {
    let mut ctx = Context::new();
    let op = Builder::new("foo", Location::unknown()).build(&mut ctx).unwrap();
    assert_eq!(op.to_text(&ctx), "\"foo\"() : () -> ()\n");
    assert!(!op.verify(&ctx));
    ctx.set_allow_unregistered_dialects(true);
    assert!(op.verify(&ctx));
}

#[test]
fn insertion_order_scenario() {
    let mut ctx = Context::new();
    let block = Block::new(&mut ctx, Vec::new());
    let op_a = Builder::new("a", Location::unknown()).build(&mut ctx).unwrap();
    let a = block.append_operation(&mut ctx, op_a);
    let op_b = Builder::new("b", Location::unknown()).build(&mut ctx).unwrap();
    let b = block.append_operation(&mut ctx, op_b);
    let op_c = Builder::new("c", Location::unknown()).build(&mut ctx).unwrap();
    let c = block.as_ref().insert_operation_after(&mut ctx, a, op_c);
    assert_eq!(block.first_operation(&ctx), Some(a));
    assert_eq!(a.next_in_block(&ctx), Some(c));
    assert_eq!(c.next_in_block(&ctx), Some(b));
    assert_eq!(b.next_in_block(&ctx), None);
}

#[test]
fn operation_display() {
    let mut ctx = Context::new();
    let op = Builder::new("foo", Location::unknown()).build(&mut ctx).unwrap();
    assert_eq!(op.to_text(&ctx), "\"foo\"() : () -> ()\n");
}

#[test]
fn debug_print() {
    let mut ctx = Context::new();
    let op = Builder::new("foo", Location::new("file.ext", 1, 1)).build(&mut ctx).unwrap();
    assert_eq!(
        op.debug_text(&ctx),
        "\"foo\"() : () -> () loc(#loc)\n#loc = loc(\"file.ext\":1:1)\n"
    );
}

#[test]
fn module_with_body_text() {
    let mut ctx = Context::new();
    let module = Module::new(&mut ctx, Location::unknown());
    let body = module.body(&ctx);
    let op = Builder::new("func.return", Location::unknown()).build(&mut ctx).unwrap();
    body.append_operation(&mut ctx, op);
    assert_eq!(
        module.as_operation().to_text(&ctx),
        "module {\n  \"func.return\"() : () -> ()\n}\n"
    );
}

#[test]
fn parse() {
    let mut ctx = Context::new();
    assert!(Module::parse(&mut ctx, "module {\n}\n").is_some());
}

#[test]
fn parse_none() {
    let mut ctx = Context::new();
    assert!(Module::parse(&mut ctx, "module {").is_none());
}

#[test]
fn round_trip() {
    let mut ctx = Context::new();
    let module = Module::new(&mut ctx, Location::unknown());
    let body = module.body(&ctx);
    let op1 = Builder::new("first.op", Location::unknown()).build(&mut ctx).unwrap();
    body.append_operation(&mut ctx, op1);
    let op2 = Builder::new("second.op", Location::unknown()).build(&mut ctx).unwrap();
    body.append_operation(&mut ctx, op2);
    let text = module.as_operation().to_text(&ctx);
    let mut ctx2 = Context::new();
    let rebuilt = Module::parse(&mut ctx2, text.as_str()).unwrap();
    let text2 = rebuilt.as_operation().to_text(&ctx2);
    assert_eq!(text, text2);
    let mut ctx3 = Context::new();
    let rebuilt2 = Module::parse(&mut ctx3, text2.as_str()).unwrap();
    assert_eq!(rebuilt2.as_operation().to_text(&ctx3), text);
}

#[test]
fn attribute_text() {
    let mut ctx = Context::new();
    let op = Builder::new("arith.constant", Location::unknown())
        .add_results(vec![Type::integer(32)])
        .add_attributes(vec![
            mlir_core::attr::NamedAttribute::new_parsed("value", "0 : i32").unwrap(),
        ])
        .build(&mut ctx)
        .unwrap();
    assert_eq!(
        op.to_text(&ctx),
        "%o0r0 = \"arith.constant\"() {value = 0 : i32} : () -> (i32)\n"
    );
}

#[test]
fn duplicate_attribute_overwrites() {
    let mut ctx = Context::new();
    let op = Builder::new("foo", Location::unknown())
        .add_attributes(vec![
            mlir_core::attr::NamedAttribute::new_parsed("a", "1").unwrap(),
            mlir_core::attr::NamedAttribute::new_parsed("b", "2").unwrap(),
        ])
        .add_attributes(vec![
            mlir_core::attr::NamedAttribute::new_parsed("a", "3").unwrap(),
        ])
        .build(&mut ctx)
        .unwrap();
    assert_eq!(op.to_text(&ctx), "\"foo\"() {a = 3, b = 2} : () -> ()\n");
}

#[test]
fn attribute_parse_failed() {
    assert_eq!(
        mlir_core::attr::NamedAttribute::new_parsed("bad key", "v").unwrap_err(),
        Error::ParseFailed
    );
    assert_eq!(
        mlir_core::attr::NamedAttribute::new_parsed("key", "a{b").unwrap_err(),
        Error::ParseFailed
    );
}

#[test]
fn builder_new() {
    let mut ctx = Context::new();
    Builder::new("foo", Location::unknown()).build(&mut ctx).unwrap();
}

#[test]
fn add_results() {
    let mut ctx = Context::new();
    Builder::new("foo", Location::unknown())
        .add_results(vec![Type::parse("i1").unwrap()])
        .build(&mut ctx)
        .unwrap();
}

#[test]
fn add_regions() {
    let mut ctx = Context::new();
    let region = mlir_core::region::Region::new(&mut ctx);
    Builder::new("foo", Location::unknown())
        .add_regions(vec![region])
        .build(&mut ctx)
        .unwrap();
}

#[test]
fn add_successors() {
    let mut ctx = Context::new();
    let block = Block::new(&mut ctx, Vec::new());
    Builder::new("foo", Location::unknown())
        .add_successors(vec![block.as_ref()])
        .build(&mut ctx)
        .unwrap();
}

#[test]
fn add_attributes() {
    let mut ctx = Context::new();
    Builder::new("foo", Location::unknown())
        .add_attributes(vec![
            mlir_core::attr::NamedAttribute::new_parsed("foo", "unit").unwrap(),
        ])
        .build(&mut ctx)
        .unwrap();
}

#[test]
fn enable_result_type_inference() {
    let mut ctx = Context::new();
    ctx.register_kind("arith.addi", Some(1), Some(0), true);
    let block = Block::new(
        &mut ctx,
        vec![mlir_core::context::BlockArg { ty: Type::index(), location: Location::unknown() }],
    );
    let argument = block.argument(&ctx, 0).unwrap().as_value();
    let op = Builder::new("arith.addi", Location::unknown())
        .add_operands(vec![argument, argument])
        .enable_result_type_inference()
        .build(&mut ctx)
        .unwrap();
    let res = op.result(&ctx, 0).unwrap();
    assert_eq!(ctx.value_type(res.as_value()), Type::index());
}

#[test]
fn inference_unavailable() {
    let mut ctx = Context::new();
    let err = Builder::new("mystery", Location::unknown())
        .enable_result_type_inference()
        .build(&mut ctx)
        .unwrap_err();
    assert_eq!(err, Error::TypeInferenceUnavailable);
}

#[test]
fn manager_new() {
    let ctx = Context::new();
    pass::Manager::new(&ctx);
}

#[test]
fn add_pass() {
    let ctx = Context::new();
    let mut manager = pass::Manager::new(&ctx);
    manager.add_pass(pass::convert_func_to_llvm());
}

#[test]
fn enable_verifier() {
    let ctx = Context::new();
    let mut manager = pass::Manager::new(&ctx);
    manager.enable_verifier(true);
}

#[test]
fn run() {
    let mut ctx = Context::new();
    let module = Module::new(&mut ctx, Location::unknown());
    let mut manager = pass::Manager::new(&ctx);
    manager.add_pass(pass::convert_func_to_llvm());
    manager.enable_verifier(true);
    assert_eq!(manager.run(&ctx, &module), Ok(()));
}

#[test]
fn run_rejects_invalid() {
    let mut ctx = Context::new();
    let module = Module::new(&mut ctx, Location::unknown());
    let body = module.body(&ctx);
    let op = Builder::new("foo", Location::unknown()).build(&mut ctx).unwrap();
    body.append_operation(&mut ctx, op);
    let mut manager = pass::Manager::new(&ctx);
    manager.enable_verifier(true);
    assert_eq!(manager.run(&ctx, &module), Err(Error::VerificationFailed));
}

#[test]
fn pipeline_text() {
    let ctx = Context::new();
    let mut manager = pass::Manager::new(&ctx);
    manager.add_pass(pass::convert_scf_to_cf());
    manager.add_pass(pass::convert_func_to_llvm());
    assert_eq!(
        manager.as_operation_pass_manager().to_text(),
        "builtin.module(convert-scf-to-cf, convert-func-to-llvm)"
    );
}
