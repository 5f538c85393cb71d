//! The ways in which the kernel turns an expression down.

use vstd::prelude::*;

verus! {

/// Why an expression, an inductive declaration or a request was rejected.
#[derive(Clone, Copy, Debug, PartialEq, Eq, Structural)]
pub enum KernelError {
    /// An argument's type is not definitionally equal to the type expected.
    TypeMismatch,
    /// The function of an application has a type that is no function type.
    NotAFunction,
    /// Where a sort was needed, the type found is none.
    NotASort,
    /// A named constant or a bound variable has no binding.
    UnboundVariable,
    /// An arity is no chain of binders that ends in a sort.
    InvalidArity,
    /// The universe level of an arity mentions the indices of the family.
    LevelDependsOnIndices,
    /// Small elimination was asked for a family that is no proposition.
    SmallElimination,
    /// An inductive family has more constructors than 16 bits can number.
    TooManyConstructors,
    /// A constructor index has no constructor.
    NoSuchConstructor,
    /// The sort of a constructor is not that of the family.
    ConstructorSort,
    /// More than one constructor in a family that may be a proposition.
    MultipleConstructors,
    /// The family occurs where it is not strictly positive.
    NotStrictlyPositive,
    /// The arguments hidden by a lone constructor forbid its elimination.
    SingletonElimination,
    /// A constructor type does not end in the family applied to indices.
    InvalidConstructor,
    /// A parameter that later types depend on mentions the family.
    DependentRecursiveParameter,
    /// A universe level has no successor within 16 bits.
    LevelOverflow,
    /// A de Bruijn index left the 16 bits it is stored in.
    IndexOverflow,
    /// The computation needed more nested steps than the budget allows.
    OutOfFuel,
    /// The environment cannot be cut below its built-in constants.
    TruncatePastConstants,
}

impl KernelError {
    /// A sentence that names the rule that failed.
    pub fn message(&self) -> (s: &'static str)
        ensures
            s@ == self.spec_message()@,
    {
        match self {
            KernelError::TypeMismatch => "type mismatch",
            KernelError::NotAFunction => "application of an expression whose type is no function type",
            KernelError::NotASort => "expression is not a sort",
            KernelError::UnboundVariable => "variable without a binding",
            KernelError::InvalidArity => "not a valid arity",
            KernelError::LevelDependsOnIndices => "universe level cannot depend on indices",
            KernelError::SmallElimination => "small elimination allowed for inductive propositions only",
            KernelError::TooManyConstructors => "too many constructors",
            KernelError::NoSuchConstructor => "no constructor with this index",
            KernelError::ConstructorSort => "constructor does not live in the sort of its family",
            KernelError::MultipleConstructors => "more than one constructor",
            KernelError::NotStrictlyPositive => "not strictly positive",
            KernelError::SingletonElimination => "hidden arguments forbid singleton elimination",
            KernelError::InvalidConstructor => "invalid constructor",
            KernelError::DependentRecursiveParameter => "depended-on parameter cannot reference type",
            KernelError::LevelOverflow => "universe level overflow",
            KernelError::IndexOverflow => "de Bruijn index overflow",
            KernelError::OutOfFuel => "budget of nested steps exhausted",
            KernelError::TruncatePastConstants => "cannot truncate past constants",
        }
    }

    /// The text of `message`.
    pub open spec fn spec_message(&self) -> &'static str {
        match self {
            KernelError::TypeMismatch => "type mismatch",
            KernelError::NotAFunction => "application of an expression whose type is no function type",
            KernelError::NotASort => "expression is not a sort",
            KernelError::UnboundVariable => "variable without a binding",
            KernelError::InvalidArity => "not a valid arity",
            KernelError::LevelDependsOnIndices => "universe level cannot depend on indices",
            KernelError::SmallElimination => "small elimination allowed for inductive propositions only",
            KernelError::TooManyConstructors => "too many constructors",
            KernelError::NoSuchConstructor => "no constructor with this index",
            KernelError::ConstructorSort => "constructor does not live in the sort of its family",
            KernelError::MultipleConstructors => "more than one constructor",
            KernelError::NotStrictlyPositive => "not strictly positive",
            KernelError::SingletonElimination => "hidden arguments forbid singleton elimination",
            KernelError::InvalidConstructor => "invalid constructor",
            KernelError::DependentRecursiveParameter => "depended-on parameter cannot reference type",
            KernelError::LevelOverflow => "universe level overflow",
            KernelError::IndexOverflow => "de Bruijn index overflow",
            KernelError::OutOfFuel => "budget of nested steps exhausted",
            KernelError::TruncatePastConstants => "cannot truncate past constants",
        }
    }
}

} // verus!
