use vstd::prelude::*;

verus! {

/// Construction of a synchronisation primitive either for use within one
/// process, or with the process-shared attribute so that it keeps working
/// when its bytes are mapped into several processes.
pub trait PthreadPrimitiveConstructor: Sized {
    fn new() -> Self;

    fn pshared() -> Self;
}

/// As `PthreadPrimitiveConstructor`, for a primitive that guards a value.
pub trait PthreadWrappingPrimitiveConstructor<T>: Sized {
    fn new(data: T) -> Self;

    fn pshared(data: T) -> Self;
}

} // verus!
