use vstd::prelude::*;

verus! {

/// The scalar type of a three-component vector: a copyable, ordered value that is
/// closed under negation, addition, subtraction, multiplication and division.
/// Every type with these operations has this trait.
pub trait Vec3Trait:
    Copy + PartialOrd + core::ops::Neg<Output = Self> + core::ops::Add<Output = Self> + core::ops::Sub<
    Output = Self,
> + core::ops::Mul<Output = Self> + core::ops::Div<Output = Self> {

}

impl<T> Vec3Trait for T where
    T: Copy + PartialOrd + core::ops::Neg<Output = T> + core::ops::Add<Output = T> + core::ops::Sub<
        Output = T,
    > + core::ops::Mul<Output = T> + core::ops::Div<Output = T>,
 {

}

} // verus!
