use crate::ast::Type;
use crate::vm::{val_model, SVal, Val};
use vstd::prelude::*;

verus! {

/// Everything that can go wrong in the environments, the interpreter, the type
/// checker and the code generator.
#[derive(Debug)]
pub enum Error {
    /// `pop` on the outermost (global) scope.
    PopGlobalScope,
    /// A variable is looked up that no scope binds.
    VarNotFound(String),
    /// An assignment names a variable that no scope binds.
    VarNotFoundForAssignment(String),
    /// A boolean was needed.
    NotBool(Val),
    /// An integer was needed.
    NotInt(Val),
    DivisionByZero,
    /// Integer arithmetic whose result does not fit in 32 bits.
    Overflow,
    /// A `let` for which the function's frame reserved no slot.
    UnreservedLocal(String),
    /// `==` applied to values of different kinds.
    CannotCompare(Val, Val),
    /// `&mut x` where `x` is not a mutable binding.
    MutRefToImmutable(String),
    /// `*e` where `e` is not a reference.
    DerefNonReference,
    /// A call with the wrong number of arguments: name, expected, got.
    ArgCount(String, usize, usize),
    /// An argument value whose runtime type cannot be named.
    UnknownArgType,
    /// No overload accepts the arguments.
    NoMatchingOverload(String),
    /// More than one overload accepts the arguments.
    AmbiguousCall(String),
    /// A call of something that is not a function.
    NotAFunction(Val),
    /// Assignment to a variable that is neither mutable nor uninitialized.
    AssignImmutable(String),
    /// Assignment through a reference that is not mutable.
    AssignThroughImmutableRef(String),
    /// `*x = e` where `x` holds no reference.
    NotAReference(String),
    /// `*e = ...` where `e` is not an identifier.
    AssignDerefNonIdent,
    /// Assignment to something that is neither `x` nor `*x`.
    AssignNonIdent,
    /// A program without a `main` function.
    MainNotFound,
    /// `println!` whose first argument is not a string.
    NoFormatString,
    /// `assert_eq!` on two values that differ: left, right.
    AssertEqFailed(Val, Val),
    /// The evaluation budget ran out (a loop or recursion that does not end).
    OutOfFuel,
    /// Two types that should agree do not: expected, got.
    TypeMismatch(Type, Type),
    /// `==` on operands of different types.
    IncomparableTypes(Type, Type),
    /// `*e` where `e` does not have a reference type.
    DerefNonRefType(Type),
    /// The branches of an `if` have different types.
    BranchMismatch(Type, Type),
    /// `let x;` without a type annotation.
    UninitNoType(String),
    /// A function is declared twice with the same parameter types in one scope.
    DuplicateFunction(String),
    /// A call of an undeclared function.
    FunctionNotFound(String),
    /// The code generator meets a name it has no slot for.
    UnknownIdentifier(String),
    /// The code generator meets an assignment target it cannot store to.
    UnsupportedAssign,
    /// The assembly text names a register that does not exist.
    UnknownRegister(String),
    /// An instruction line of the assembly text lacks an operand.
    MissingOperand(String),
    /// An instruction that the assembler has no encoding for (`mul`, `div`).
    UnsupportedInstruction(String),
}

/// Model of an error: strings as character sequences, values as models.
pub enum SError {
    PopGlobalScope,
    VarNotFound(Seq<char>),
    VarNotFoundForAssignment(Seq<char>),
    NotBool(SVal),
    NotInt(SVal),
    DivisionByZero,
    Overflow,
    UnreservedLocal(Seq<char>),
    CannotCompare(SVal, SVal),
    MutRefToImmutable(Seq<char>),
    DerefNonReference,
    ArgCount(Seq<char>, usize, usize),
    UnknownArgType,
    NoMatchingOverload(Seq<char>),
    AmbiguousCall(Seq<char>),
    NotAFunction(SVal),
    AssignImmutable(Seq<char>),
    AssignThroughImmutableRef(Seq<char>),
    NotAReference(Seq<char>),
    AssignDerefNonIdent,
    AssignNonIdent,
    MainNotFound,
    NoFormatString,
    AssertEqFailed(SVal, SVal),
    OutOfFuel,
    TypeMismatch(Type, Type),
    IncomparableTypes(Type, Type),
    DerefNonRefType(Type),
    BranchMismatch(Type, Type),
    UninitNoType(Seq<char>),
    DuplicateFunction(Seq<char>),
    FunctionNotFound(Seq<char>),
    UnknownIdentifier(Seq<char>),
    UnsupportedAssign,
    UnknownRegister(Seq<char>),
    MissingOperand(Seq<char>),
    UnsupportedInstruction(Seq<char>),
}

pub open spec fn error_model(e: Error) -> SError {
    match e {
        Error::PopGlobalScope => SError::PopGlobalScope,
        Error::VarNotFound(a0) => SError::VarNotFound(a0@),
        Error::VarNotFoundForAssignment(a0) => SError::VarNotFoundForAssignment(a0@),
        Error::NotBool(a0) => SError::NotBool(val_model(a0)),
        Error::NotInt(a0) => SError::NotInt(val_model(a0)),
        Error::DivisionByZero => SError::DivisionByZero,
        Error::Overflow => SError::Overflow,
        Error::UnreservedLocal(a0) => SError::UnreservedLocal(a0@),
        Error::CannotCompare(a0, a1) => SError::CannotCompare(val_model(a0), val_model(a1)),
        Error::MutRefToImmutable(a0) => SError::MutRefToImmutable(a0@),
        Error::DerefNonReference => SError::DerefNonReference,
        Error::ArgCount(a0, a1, a2) => SError::ArgCount(a0@, a1, a2),
        Error::UnknownArgType => SError::UnknownArgType,
        Error::NoMatchingOverload(a0) => SError::NoMatchingOverload(a0@),
        Error::AmbiguousCall(a0) => SError::AmbiguousCall(a0@),
        Error::NotAFunction(a0) => SError::NotAFunction(val_model(a0)),
        Error::AssignImmutable(a0) => SError::AssignImmutable(a0@),
        Error::AssignThroughImmutableRef(a0) => SError::AssignThroughImmutableRef(a0@),
        Error::NotAReference(a0) => SError::NotAReference(a0@),
        Error::AssignDerefNonIdent => SError::AssignDerefNonIdent,
        Error::AssignNonIdent => SError::AssignNonIdent,
        Error::MainNotFound => SError::MainNotFound,
        Error::NoFormatString => SError::NoFormatString,
        Error::AssertEqFailed(a0, a1) => SError::AssertEqFailed(val_model(a0), val_model(a1)),
        Error::OutOfFuel => SError::OutOfFuel,
        Error::TypeMismatch(a0, a1) => SError::TypeMismatch(a0, a1),
        Error::IncomparableTypes(a0, a1) => SError::IncomparableTypes(a0, a1),
        Error::DerefNonRefType(a0) => SError::DerefNonRefType(a0),
        Error::BranchMismatch(a0, a1) => SError::BranchMismatch(a0, a1),
        Error::UninitNoType(a0) => SError::UninitNoType(a0@),
        Error::DuplicateFunction(a0) => SError::DuplicateFunction(a0@),
        Error::FunctionNotFound(a0) => SError::FunctionNotFound(a0@),
        Error::UnknownIdentifier(a0) => SError::UnknownIdentifier(a0@),
        Error::UnsupportedAssign => SError::UnsupportedAssign,
        Error::UnknownRegister(a0) => SError::UnknownRegister(a0@),
        Error::MissingOperand(a0) => SError::MissingOperand(a0@),
        Error::UnsupportedInstruction(a0) => SError::UnsupportedInstruction(a0@),
    }
}

} // verus!
