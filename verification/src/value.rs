//! Values: non-owning references to block arguments and operation results.

use crate::Error;
use vstd::prelude::*;

verus! {

/// A value: a tagged, non-owning reference to the entity that defines it.
#[derive(Clone, Copy, Debug, PartialEq, Eq, Structural)]
pub enum Value {
    BlockArgument { block: usize, position: usize },
    OperationResult { operation: usize, position: usize },
}

impl Value {
    /// Whether this value is a block argument.
    pub fn is_block_argument(&self) -> (r: bool)
        ensures
            r == (self is BlockArgument),
    {
        match self {
            Value::BlockArgument { .. } => true,
            Value::OperationResult { .. } => false,
        }
    }

    /// Whether this value is an operation result.
    pub fn is_operation_result(&self) -> (r: bool)
        ensures
            r == (self is OperationResult),
    {
        match self {
            Value::BlockArgument { .. } => false,
            Value::OperationResult { .. } => true,
        }
    }
}

/// A value known to be a block argument.
#[derive(Clone, Copy, Debug, PartialEq, Eq, Structural)]
pub struct Argument {
    pub value: Value,
}

impl Argument {
    /// Narrowing a value known to be a block argument.
    pub open spec fn wf(self) -> bool {
        self.value is BlockArgument
    }

    /// Narrows a generic value to a block argument; fails with
    /// `VariantMismatch` exactly when the value is an operation result.
    pub fn try_from(value: Value) -> (r: Result<Argument, Error>)
        ensures
            value is BlockArgument <==> r is Ok,
            r matches Ok(a) ==> a.value == value && a.wf(),
            r matches Err(e) ==> e == Error::VariantMismatch,
    {
        match value {
            Value::BlockArgument { .. } => Ok(Argument { value }),
            Value::OperationResult { .. } => Err(Error::VariantMismatch),
        }
    }

    /// The position of this argument among its block's arguments.
    pub fn argument_number(&self) -> (r: usize)
        requires
            self.wf(),
        ensures
            self.value matches Value::BlockArgument { position, .. } && r == position,
    {
        match self.value {
            Value::BlockArgument { position, .. } => position,
            Value::OperationResult { .. } => 0,
        }
    }

    /// The generic value this argument narrows.
    pub fn as_value(&self) -> (r: Value)
        ensures
            r == self.value,
    {
        self.value
    }
}

/// A value known to be an operation result.
#[derive(Clone, Copy, Debug, PartialEq, Eq, Structural)]
pub struct ResultValue {
    pub value: Value,
}

impl ResultValue {
    /// Narrowing a value known to be an operation result.
    pub open spec fn wf(self) -> bool {
        self.value is OperationResult
    }

    /// Narrows a generic value to an operation result; fails with
    /// `VariantMismatch` exactly when the value is a block argument.
    pub fn try_from(value: Value) -> (r: Result<ResultValue, Error>)
        ensures
            value is OperationResult <==> r is Ok,
            r matches Ok(a) ==> a.value == value && a.wf(),
            r matches Err(e) ==> e == Error::VariantMismatch,
    {
        match value {
            Value::OperationResult { .. } => Ok(ResultValue { value }),
            Value::BlockArgument { .. } => Err(Error::VariantMismatch),
        }
    }

    /// The position of this result among its operation's results.
    pub fn result_number(&self) -> (r: usize)
        requires
            self.wf(),
        ensures
            self.value matches Value::OperationResult { position, .. } && r == position,
    {
        match self.value {
            Value::OperationResult { position, .. } => position,
            Value::BlockArgument { .. } => 0,
        }
    }

    /// The generic value this result narrows.
    pub fn as_value(&self) -> (r: Value)
        ensures
            r == self.value,
    {
        self.value
    }
}

} // verus!

verus! {

/// Common behaviour of value handles: each stands for one generic value.
pub trait ValueLike: Sized {
    /// The generic value this handle stands for.
    spec fn spec_value(&self) -> Value;

    /// The generic value, for use as an operand.
    fn value(&self) -> (r: Value)
        ensures
            r == self.spec_value(),
    ;

    /// Whether the value is a block argument.
    fn block_argument(&self) -> (r: bool)
        ensures
            r == (self.spec_value() is BlockArgument),
    ;

    /// Whether the value is an operation result.
    fn operation_result(&self) -> (r: bool)
        ensures
            r == (self.spec_value() is OperationResult),
    ;
}

impl ValueLike for Value {
    open spec fn spec_value(&self) -> Value {
        *self
    }

    fn value(&self) -> (r: Value) {
        *self
    }

    fn block_argument(&self) -> (r: bool) {
        self.is_block_argument()
    }

    fn operation_result(&self) -> (r: bool) {
        self.is_operation_result()
    }
}

impl ValueLike for Argument {
    open spec fn spec_value(&self) -> Value {
        self.value
    }

    fn value(&self) -> (r: Value) {
        self.value
    }

    fn block_argument(&self) -> (r: bool) {
        self.value.is_block_argument()
    }

    fn operation_result(&self) -> (r: bool) {
        self.value.is_operation_result()
    }
}

impl ValueLike for ResultValue {
    open spec fn spec_value(&self) -> Value {
        self.value
    }

    fn value(&self) -> (r: Value) {
        self.value
    }

    fn block_argument(&self) -> (r: bool) {
        self.value.is_block_argument()
    }

    fn operation_result(&self) -> (r: bool) {
        self.value.is_operation_result()
    }
}

} // verus!
