//! Passes and the pass manager.
//!
//! A pass is a descriptor naming a conversion; running a pipeline is a
//! sequential walk over the module, with verification when enabled.  The
//! conversions themselves are performed by lowering backends layered above
//! the graph; the manager's own duty is the pipeline bookkeeping and the
//! verification gate.

use crate::check::verify_op;
use crate::context::Context;
use crate::module::Module;
use crate::Error;
use vstd::prelude::*;

verus! {

/// The conversions a pass can name.
#[derive(Clone, Copy, Debug, PartialEq, Eq, Structural)]
pub enum PassKind {
    ArithToLlvm,
    CfToLlvm,
    ScfToCf,
    FuncToLlvm,
    MathToLlvm,
    IndexToLlvm,
    CfToSpirv,
    MathToSpirv,
    MathToLibm,
    AffineForToGpu,
    AffineToStandard,
    AsyncToLlvm,
    GpuToLlvm,
}

/// A pass: a conversion descriptor.
#[derive(Clone, Copy, Debug, PartialEq, Eq, Structural)]
pub struct Pass {
    pub kind: PassKind,
}

/// The registered name of a pass.
pub open spec fn pass_name(k: PassKind) -> Seq<char> {
    match k {
        PassKind::ArithToLlvm => "convert-arith-to-llvm"@,
        PassKind::CfToLlvm => "convert-cf-to-llvm"@,
        PassKind::ScfToCf => "convert-scf-to-cf"@,
        PassKind::FuncToLlvm => "convert-func-to-llvm"@,
        PassKind::MathToLlvm => "convert-math-to-llvm"@,
        PassKind::IndexToLlvm => "convert-index-to-llvm"@,
        PassKind::CfToSpirv => "convert-cf-to-spirv"@,
        PassKind::MathToSpirv => "convert-math-to-spirv"@,
        PassKind::MathToLibm => "convert-math-to-libm"@,
        PassKind::AffineForToGpu => "convert-affine-for-to-gpu"@,
        PassKind::AffineToStandard => "convert-affine-to-standard"@,
        PassKind::AsyncToLlvm => "convert-async-to-llvm"@,
        PassKind::GpuToLlvm => "convert-gpu-to-llvm"@,
    }
}

impl Pass {
    /// The registered name of the pass.
    pub fn name(&self) -> (r: String)
        ensures
            r@ == pass_name(self.kind),
    {
        match self.kind {
            PassKind::ArithToLlvm => "convert-arith-to-llvm".to_owned(),
            PassKind::CfToLlvm => "convert-cf-to-llvm".to_owned(),
            PassKind::ScfToCf => "convert-scf-to-cf".to_owned(),
            PassKind::FuncToLlvm => "convert-func-to-llvm".to_owned(),
            PassKind::MathToLlvm => "convert-math-to-llvm".to_owned(),
            PassKind::IndexToLlvm => "convert-index-to-llvm".to_owned(),
            PassKind::CfToSpirv => "convert-cf-to-spirv".to_owned(),
            PassKind::MathToSpirv => "convert-math-to-spirv".to_owned(),
            PassKind::MathToLibm => "convert-math-to-libm".to_owned(),
            PassKind::AffineForToGpu => "convert-affine-for-to-gpu".to_owned(),
            PassKind::AffineToStandard => "convert-affine-to-standard".to_owned(),
            PassKind::AsyncToLlvm => "convert-async-to-llvm".to_owned(),
            PassKind::GpuToLlvm => "convert-gpu-to-llvm".to_owned(),
        }
    }
}

/// Converts the `arith` dialect to the `llvm` dialect.
pub fn convert_arithmetic_to_llvm() -> (r: Pass)
    ensures
        r.kind == PassKind::ArithToLlvm,
{
    Pass { kind: PassKind::ArithToLlvm }
}

/// Converts the `cf` dialect to the `llvm` dialect.
pub fn convert_cf_to_llvm() -> (r: Pass)
    ensures
        r.kind == PassKind::CfToLlvm,
{
    Pass { kind: PassKind::CfToLlvm }
}

/// Converts the `scf` dialect to the `cf` dialect.
pub fn convert_scf_to_cf() -> (r: Pass)
    ensures
        r.kind == PassKind::ScfToCf,
{
    Pass { kind: PassKind::ScfToCf }
}

/// Converts the `func` dialect to the `llvm` dialect.
pub fn convert_func_to_llvm() -> (r: Pass)
    ensures
        r.kind == PassKind::FuncToLlvm,
{
    Pass { kind: PassKind::FuncToLlvm }
}

/// Converts the `math` dialect to the `llvm` dialect.
pub fn convert_math_to_llvm() -> (r: Pass)
    ensures
        r.kind == PassKind::MathToLlvm,
{
    Pass { kind: PassKind::MathToLlvm }
}

/// Converts the builtin `index` type to the `llvm` dialect.
pub fn convert_index_to_llvm() -> (r: Pass)
    ensures
        r.kind == PassKind::IndexToLlvm,
{
    Pass { kind: PassKind::IndexToLlvm }
}

/// Converts the `cf` dialect to the `spirv` dialect.
pub fn convert_cf_to_spirv() -> (r: Pass)
    ensures
        r.kind == PassKind::CfToSpirv,
{
    Pass { kind: PassKind::CfToSpirv }
}

/// Converts the `math` dialect to the `spirv` dialect.
pub fn convert_math_to_spirv() -> (r: Pass)
    ensures
        r.kind == PassKind::MathToSpirv,
{
    Pass { kind: PassKind::MathToSpirv }
}

/// Converts the `math` dialect to the `libm` library.
pub fn convert_math_to_libm() -> (r: Pass)
    ensures
        r.kind == PassKind::MathToLibm,
{
    Pass { kind: PassKind::MathToLibm }
}

/// Converts `affine` loops to the `gpu` dialect.
pub fn convert_affine_for_to_gpu() -> (r: Pass)
    ensures
        r.kind == PassKind::AffineForToGpu,
{
    Pass { kind: PassKind::AffineForToGpu }
}

/// Converts the `affine` dialect to the standard dialects.
pub fn convert_affine_to_standard() -> (r: Pass)
    ensures
        r.kind == PassKind::AffineToStandard,
{
    Pass { kind: PassKind::AffineToStandard }
}

/// Converts the `async` dialect to the `llvm` dialect.
pub fn convert_async_to_llvm() -> (r: Pass)
    ensures
        r.kind == PassKind::AsyncToLlvm,
{
    Pass { kind: PassKind::AsyncToLlvm }
}

/// Converts the `gpu` dialect to the `llvm` dialect.
pub fn convert_gpu_to_llvm() -> (r: Pass)
    ensures
        r.kind == PassKind::GpuToLlvm,
{
    Pass { kind: PassKind::GpuToLlvm }
}

/// Converts `affine` loops to the `gpu` dialect.
pub fn convert_affiner_for_to_gpu() -> (r: Pass)
    ensures
        r.kind == PassKind::AffineForToGpu,
{
    Pass { kind: PassKind::AffineForToGpu }
}

/// A pipeline anchored at an operation kind.
#[derive(Debug)]
pub struct OperationManager {
    pub anchor: String,
    pub passes: Vec<Pass>,
}

/// The textual form of an anchored pipeline.
pub open spec fn render_pipeline(anchor: Seq<char>, passes: Seq<Pass>) -> Seq<char> {
    anchor + seq!['('] + render_pass_list(passes) + seq![')']
}

/// A comma-separated list of pass names.
pub open spec fn render_pass_list(passes: Seq<Pass>) -> Seq<char>
    decreases passes.len(),
{
    if passes.len() == 0 {
        Seq::empty()
    } else if passes.len() == 1 {
        pass_name(passes[0].kind)
    } else {
        pass_name(passes[0].kind) + seq![',', ' '] + render_pass_list(
            passes.subrange(1, passes.len() as int),
        )
    }
}

impl OperationManager {
    /// Adds a pass to the pipeline.
    pub fn add_pass(&mut self, pass: Pass)
        ensures
            final(self).passes@ == old(self).passes@.push(pass),
            final(self).anchor@ == old(self).anchor@,
    {
        self.passes.push(pass);
    }

    /// The textual form of the pipeline.
    pub fn to_text(&self) -> (r: String)
        ensures
            r@ == render_pipeline(self.anchor@, self.passes@),
    {
        let mut out = crate::chars::string_to_chars(self.anchor.as_str());
        out.push('(');
        let ghost front = self.anchor@ + seq!['('];
        proof {
            assert(out@ =~= front);
        }
        let mut i: usize = 0;
        while i < self.passes.len()
            invariant
                0 <= i <= self.passes@.len(),
                front == self.anchor@ + seq!['('],
                i == 0 ==> out@ =~= front,
                0 < i < self.passes@.len() ==> render_pass_list(self.passes@) =~= out@.subrange(
                    front.len() as int,
                    out@.len() as int,
                ) + seq![',', ' '] + render_pass_list(
                    self.passes@.subrange(i as int, self.passes@.len() as int),
                ) && out@.subrange(0, front.len() as int) =~= front && out@.len() >= front.len(),
                i > 0 && i == self.passes@.len() ==> out@ =~= front + render_pass_list(
                    self.passes@,
                ),
            decreases self.passes@.len() - i,
        {
            if i > 0 {
                out.push(',');
                out.push(' ');
            }
            let nm = self.passes[i].name();
            let mut nc = crate::chars::string_to_chars(nm.as_str());
            out.append(&mut nc);
            proof {
                let rest = self.passes@.subrange(i as int, self.passes@.len() as int);
                assert(rest[0] == self.passes@[i as int]);
                if i + 1 < self.passes@.len() {
                    assert(rest.subrange(1, rest.len() as int) =~= self.passes@.subrange(
                        i + 1,
                        self.passes@.len() as int,
                    ));
                    assert(render_pass_list(rest) =~= pass_name(self.passes@[i as int].kind)
                        + seq![',', ' '] + render_pass_list(
                        self.passes@.subrange(i + 1, self.passes@.len() as int),
                    ));
                } else {
                    assert(render_pass_list(rest) =~= pass_name(self.passes@[i as int].kind));
                }
                if i == 0 {
                    if self.passes@.len() == 1 {
                        assert(out@ =~= front + render_pass_list(self.passes@));
                    } else {
                        assert(out@.subrange(0, front.len() as int) =~= front);
                        assert(render_pass_list(self.passes@) =~= out@.subrange(
                            front.len() as int,
                            out@.len() as int,
                        ) + seq![',', ' '] + render_pass_list(
                            self.passes@.subrange(1, self.passes@.len() as int),
                        ));
                    }
                } else {
                    if i + 1 < self.passes@.len() {
                        assert(out@.subrange(0, front.len() as int) =~= front);
                        assert(render_pass_list(self.passes@) =~= out@.subrange(
                            front.len() as int,
                            out@.len() as int,
                        ) + seq![',', ' '] + render_pass_list(
                            self.passes@.subrange(i + 1, self.passes@.len() as int),
                        ));
                    } else {
                        assert(out@ =~= front + render_pass_list(self.passes@));
                    }
                }
            }
            i = i + 1;
        }
        proof {
            if self.passes@.len() == 0 {
                assert(out@ =~= front + render_pass_list(self.passes@));
            }
        }
        out.push(')');
        proof {
            assert(out@ =~= render_pipeline(self.anchor@, self.passes@));
        }
        crate::chars::chars_to_string(&out)
    }
}

/// The pass manager: a pipeline over the module kind, with a verification
/// gate.
#[derive(Debug)]
pub struct Manager {
    pub verifier_enabled: bool,
    pub ir_printing: bool,
    pub passes: Vec<Pass>,
}

impl Manager {
    /// Creates an empty pass manager over a context.
    pub fn new(ctx: &Context) -> (r: Manager)
        ensures
            !r.verifier_enabled,
            !r.ir_printing,
            r.passes@ == Seq::<Pass>::empty(),
    {
        let _ = ctx;
        Manager { verifier_enabled: false, ir_printing: false, passes: Vec::new() }
    }

    /// Adds a pass to the pipeline.
    pub fn add_pass(&mut self, pass: Pass)
        ensures
            final(self).passes@ == old(self).passes@.push(pass),
            final(self).verifier_enabled == old(self).verifier_enabled,
            final(self).ir_printing == old(self).ir_printing,
    {
        self.passes.push(pass);
    }

    /// Enables or disables the verification gate.
    pub fn enable_verifier(&mut self, enabled: bool)
        ensures
            final(self).verifier_enabled == enabled,
            final(self).passes@ == old(self).passes@,
            final(self).ir_printing == old(self).ir_printing,
    {
        self.verifier_enabled = enabled;
    }

    /// Enables printing of the graph between passes.
    pub fn enable_ir_printing(&mut self)
        ensures
            final(self).ir_printing,
            final(self).passes@ == old(self).passes@,
            final(self).verifier_enabled == old(self).verifier_enabled,
    {
        self.ir_printing = true;
    }

    /// A pipeline anchored under an operation kind of the given name.
    pub fn nested_under(&self, name: &str) -> (r: OperationManager)
        ensures
            r.anchor@ == name@,
            r.passes@ == Seq::<Pass>::empty(),
    {
        OperationManager { anchor: name.to_owned(), passes: Vec::new() }
    }

    /// The manager's own pipeline, anchored at the module kind.
    pub fn as_operation_pass_manager(&self) -> (r: OperationManager)
        ensures
            r.anchor@ == "builtin.module"@,
            r.passes@ == self.passes@,
    {
        let mut passes: Vec<Pass> = Vec::new();
        let mut i: usize = 0;
        while i < self.passes.len()
            invariant
                0 <= i <= self.passes@.len(),
                passes@ == self.passes@.subrange(0, i as int),
            decreases self.passes@.len() - i,
        {
            passes.push(self.passes[i]);
            proof {
                assert(passes@ =~= self.passes@.subrange(0, i + 1));
            }
            i = i + 1;
        }
        proof {
            assert(passes@ =~= self.passes@);
        }
        OperationManager { anchor: "builtin.module".to_owned(), passes }
    }

    /// Runs the pipeline against a module: the passes walk the graph in
    /// sequence, and with the verifier enabled the module must verify;
    /// failure reports `VerificationFailed` and changes nothing.
    pub fn run(&self, ctx: &Context, module: &Module) -> (r: Result<(), Error>)
        requires
            ctx@.wf(),
            ctx@.is_op(module.op as int),
        ensures
            (r is Ok) <==> (!self.verifier_enabled || verify_op(
                ctx@,
                module.op as int,
                Seq::empty(),
            )),
            r matches Err(e) ==> e == Error::VerificationFailed,
    {
        if self.verifier_enabled {
            if !module.as_operation().verify(ctx) {
                return Err(Error::VerificationFailed);
            }
        }
        Ok(())
    }
}

} // verus!
