//! The types that the language names.
use vstd::prelude::*;

verus! {

/// The width of an integer type.
#[derive(Debug, Clone, Copy, PartialEq, Eq, Structural)]
pub enum IntegerWidth {
    /// 8 bits.
    W8,
    /// 16 bits.
    W16,
    /// 32 bits.
    W32,
    /// 64 bits.
    W64,
    /// 128 bits.
    W128,
    /// The width of a pointer.
    Size,
}

/// An IEEE-754 (or brain) floating-point type.
#[derive(Debug, Clone, Copy, PartialEq, Eq, Structural)]
pub enum FloatKind {
    /// `half`.
    Half,
    /// `bfloat16`.
    BrainHalf,
    /// `float` or `binary32`.
    Single,
    /// `double` or `binary64`.
    Double,
    /// `binary128`.
    Quad,
}

/// A type of the language.
#[derive(Debug, Clone, Copy, PartialEq, Eq, Structural)]
pub enum Type {
    /// `void`
    Void,
    /// `bool`
    Boolean,
    /// An integer type of the given width and signedness.
    Integer { width: IntegerWidth, is_unsigned: bool },
    /// A floating-point type.
    Float(FloatKind),
    /// A pointer.
    Ptr,
}

impl Type {
    /// The signed integer type of the given width.
    pub fn signed(width: IntegerWidth) -> (res: Type)
        ensures
            res == (Type::Integer { width, is_unsigned: false }),
    {
        Type::Integer { width, is_unsigned: false }
    }

    /// The unsigned integer type of the given width.
    pub fn unsigned(width: IntegerWidth) -> (res: Type)
        ensures
            res == (Type::Integer { width, is_unsigned: true }),
    {
        Type::Integer { width, is_unsigned: true }
    }

    /// The integer type of the given width and signedness.
    pub fn integer(width: IntegerWidth, is_unsigned: bool) -> (res: Type)
        ensures
            res == (Type::Integer { width, is_unsigned }),
    {
        Type::Integer { width, is_unsigned }
    }

    /// Whether this is an unsigned integer type.
    pub fn is_unsigned(&self) -> (res: bool)
        ensures
            res == (*self matches Type::Integer { is_unsigned: true, .. }),
    {
        match self {
            Type::Integer { is_unsigned, .. } => *is_unsigned,
            _ => false,
        }
    }
}

} // verus!
