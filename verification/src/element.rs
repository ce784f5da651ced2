//! Element-kind identifiers. The storage core is element-type-agnostic beyond
//! requiring default-constructibility and bitwise copyability; the identifiers
//! here exist only so that display and serialization layers outside the core
//! can dispatch on the kind of element a container holds.
use vstd::prelude::*;

verus! {

/// The kind of a floating-point scalar, used to tag a complex element.
#[derive(Clone, Copy, Debug, PartialEq, Eq, Structural)]
pub enum ScalarType {
    F32,
    F64,
}

/// The kind of an element a container can hold: boolean, a fixed-width
/// integer, a floating-point scalar, or a complex number of floats.
#[derive(Clone, Copy, Debug, PartialEq, Eq, Structural)]
pub enum ElementType {
    Bool,
    U8,
    I8,
    U16,
    I16,
    U32,
    I32,
    U64,
    I64,
    U128,
    I128,
    F32,
    F64,
    Complex(ScalarType),
}

/// A type a container can be tagged with: it reports its kind and whether it
/// is numeric.
pub trait Element: Sized + Copy {
    /// The kind this type reports.
    spec fn spec_element_type() -> ElementType;

    /// Whether this type is numeric.
    spec fn spec_numeric() -> bool;

    /// Returns the kind of this element type.
    fn element_type() -> (t: ElementType)
        ensures
            t == Self::spec_element_type(),
    ;

    /// Returns whether this element type is numeric.
    fn numeric() -> (n: bool)
        ensures
            n == Self::spec_numeric(),
    ;
}

impl Element for bool {
    open spec fn spec_element_type() -> ElementType {
        ElementType::Bool
    }

    open spec fn spec_numeric() -> bool {
        false
    }

    fn element_type() -> ElementType {
        ElementType::Bool
    }

    fn numeric() -> bool {
        false
    }
}

impl Element for u8 {
    open spec fn spec_element_type() -> ElementType {
        ElementType::U8
    }

    open spec fn spec_numeric() -> bool {
        true
    }

    fn element_type() -> ElementType {
        ElementType::U8
    }

    fn numeric() -> bool {
        true
    }
}

impl Element for i8 {
    open spec fn spec_element_type() -> ElementType {
        ElementType::I8
    }

    open spec fn spec_numeric() -> bool {
        true
    }

    fn element_type() -> ElementType {
        ElementType::I8
    }

    fn numeric() -> bool {
        true
    }
}

impl Element for u16 {
    open spec fn spec_element_type() -> ElementType {
        ElementType::U16
    }

    open spec fn spec_numeric() -> bool {
        true
    }

    fn element_type() -> ElementType {
        ElementType::U16
    }

    fn numeric() -> bool {
        true
    }
}

impl Element for i16 {
    open spec fn spec_element_type() -> ElementType {
        ElementType::I16
    }

    open spec fn spec_numeric() -> bool {
        true
    }

    fn element_type() -> ElementType {
        ElementType::I16
    }

    fn numeric() -> bool {
        true
    }
}

impl Element for u32 {
    open spec fn spec_element_type() -> ElementType {
        ElementType::U32
    }

    open spec fn spec_numeric() -> bool {
        true
    }

    fn element_type() -> ElementType {
        ElementType::U32
    }

    fn numeric() -> bool {
        true
    }
}

impl Element for i32 {
    open spec fn spec_element_type() -> ElementType {
        ElementType::I32
    }

    open spec fn spec_numeric() -> bool {
        true
    }

    fn element_type() -> ElementType {
        ElementType::I32
    }

    fn numeric() -> bool {
        true
    }
}

impl Element for u64 {
    open spec fn spec_element_type() -> ElementType {
        ElementType::U64
    }

    open spec fn spec_numeric() -> bool {
        true
    }

    fn element_type() -> ElementType {
        ElementType::U64
    }

    fn numeric() -> bool {
        true
    }
}

impl Element for i64 {
    open spec fn spec_element_type() -> ElementType {
        ElementType::I64
    }

    open spec fn spec_numeric() -> bool {
        true
    }

    fn element_type() -> ElementType {
        ElementType::I64
    }

    fn numeric() -> bool {
        true
    }
}

impl Element for u128 {
    open spec fn spec_element_type() -> ElementType {
        ElementType::U128
    }

    open spec fn spec_numeric() -> bool {
        true
    }

    fn element_type() -> ElementType {
        ElementType::U128
    }

    fn numeric() -> bool {
        true
    }
}

impl Element for i128 {
    open spec fn spec_element_type() -> ElementType {
        ElementType::I128
    }

    open spec fn spec_numeric() -> bool {
        true
    }

    fn element_type() -> ElementType {
        ElementType::I128
    }

    fn numeric() -> bool {
        true
    }
}

} // verus!
