//! Modifiers of a declaration or a block, as bit flags.
use vstd::prelude::*;

verus! {

/// A set of modifier flags.
pub type Modifiers = u8;

/// `const`
pub const MOD_CONSTANT: u8 = 0b0001;

/// `unsafe`
pub const MOD_UNSAFE: u8 = 0b0010;

/// `extern`
pub const MOD_EXTERNAL: u8 = 0b0100;

/// `private`
pub const MOD_PRIVATE: u8 = 0b1000;

/// Whether the `const` flag is set.
pub fn is_constant(input: u8) -> (res: bool)
    ensures
        res == (input & MOD_CONSTANT != 0),
{
    input & MOD_CONSTANT != 0
}

/// Whether the `unsafe` flag is set.
pub fn is_unsafe(input: u8) -> (res: bool)
    ensures
        res == (input & MOD_UNSAFE != 0),
{
    input & MOD_UNSAFE != 0
}

/// Whether the `extern` flag is set.
pub fn is_external(input: u8) -> (res: bool)
    ensures
        res == (input & MOD_EXTERNAL != 0),
{
    input & MOD_EXTERNAL != 0
}

/// Whether the `private` flag is set.
pub fn is_private(input: u8) -> (res: bool)
    ensures
        res == (input & MOD_PRIVATE != 0),
{
    input & MOD_PRIVATE != 0
}

/// `"true"` or `"false"`.
pub open spec fn bool_text(b: bool) -> Seq<char> {
    if b {
        "true"@
    } else {
        "false"@
    }
}

fn append_bool(s: &mut String, b: bool)
    ensures
        final(s)@ == old(s)@ + bool_text(b),
{
    if b {
        s.append("true");
    } else {
        s.append("false");
    }
}

/// The text of the modifier flags of `val`, in the layout of a derived `Debug`.
pub fn fmt_modifiers(val: u8) -> (res: String)
    ensures
        res@ == "Modifiers { is_constant: "@ + bool_text(val & MOD_CONSTANT != 0)
            + ", is_unsafe: "@ + bool_text(val & MOD_UNSAFE != 0) + ", is_external: "@
            + bool_text(val & MOD_EXTERNAL != 0) + ", is_private: "@ + bool_text(
            val & MOD_PRIVATE != 0,
        ) + " }"@,
{
    let mut s = String::from_str("Modifiers { is_constant: ");
    append_bool(&mut s, is_constant(val));
    s.append(", is_unsafe: ");
    append_bool(&mut s, is_unsafe(val));
    s.append(", is_external: ");
    append_bool(&mut s, is_external(val));
    s.append(", is_private: ");
    append_bool(&mut s, is_private(val));
    s.append(" }");
    s
}

} // verus!
