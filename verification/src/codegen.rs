//! Lowering function declarations to LLVM through inkwell.
//!
//! The decisions (the linkage, the LLVM type of each language type, the
//! function attributes) are verified functions on plain values; each call into
//! inkwell stands behind a small trusted wrapper.
use vstd::prelude::*;

use inkwell::attributes::{Attribute as LlvmAttribute, AttributeLoc};
use inkwell::builder::Builder;
use inkwell::context::Context;
use inkwell::module::{Linkage, Module};
use inkwell::types::{BasicMetadataTypeEnum, BasicType, BasicTypeEnum, FunctionType, VoidType};
use inkwell::values::FunctionValue;
use inkwell::AddressSpace;

use crate::errors::{ErrorSource, ICE, Phase};
use crate::parser::fn_attrs::{
    Attributes, ATTR_COLD, ATTR_FORCE_INLINE, ATTR_HOT, ATTR_STRICTFP, ATTR_TRY_INLINE,
};
use crate::parser::function::{FunctionDeclaration, SpecFunctionDeclaration};
use crate::parser::spec::float_bits;
use crate::parser::modifiers::{is_external, is_private, Modifiers, MOD_EXTERNAL, MOD_PRIVATE};
use crate::types::{FloatKind, IntegerWidth, Type};

verus! {

// ---------------------------------------------------------------------------
// The decisions
// ---------------------------------------------------------------------------

/// The linkage that a declaration's modifiers ask for.
#[derive(Debug, Clone, Copy, PartialEq, Eq, Structural)]
pub enum LinkageKind {
    /// Visible to other modules.
    External,
    /// Visible in its module alone.
    Private,
}

/// `extern` gives external linkage; otherwise `private` gives private
/// linkage; otherwise LLVM's default applies.
pub open spec fn spec_linkage(modifiers: u8) -> Option<LinkageKind> {
    if modifiers & MOD_EXTERNAL != 0 {
        Some(LinkageKind::External)
    } else if modifiers & MOD_PRIVATE != 0 {
        Some(LinkageKind::Private)
    } else {
        None
    }
}

/// The linkage of a function with the given modifiers.
pub fn function_linkage(modifiers: Modifiers) -> (res: Option<LinkageKind>)
    ensures
        res == spec_linkage(modifiers),
{
    if is_external(modifiers) {
        Some(LinkageKind::External)
    } else if is_private(modifiers) {
        Some(LinkageKind::Private)
    } else {
        None
    }
}

/// `name` where the flag `flag` is set in `state`, nothing otherwise.
pub open spec fn name_if(state: u8, flag: u8, name: Seq<char>) -> Seq<Seq<char>> {
    if state & flag != 0 {
        seq![name]
    } else {
        Seq::empty()
    }
}

/// The LLVM string attributes of a function whose attribute flags are
/// `state`, in this order: `cold`, `hot`, `strictfp`, `inlinehint` (for
/// `try_inline`) and `alwaysinline` (for `force_inline`).
pub open spec fn spec_attribute_names(state: u8) -> Seq<Seq<char>> {
    name_if(state, ATTR_COLD, "cold"@) + name_if(state, ATTR_HOT, "hot"@) + name_if(
        state,
        ATTR_STRICTFP,
        "strictfp"@,
    ) + name_if(state, ATTR_TRY_INLINE, "inlinehint"@) + name_if(
        state,
        ATTR_FORCE_INLINE,
        "alwaysinline"@,
    )
}

/// The texts of a sequence of string slices.
pub open spec fn str_texts(names: Seq<&str>) -> Seq<Seq<char>> {
    names.map_values(|s: &str| s@)
}

fn push_name_if(names: &mut Vec<&'static str>, set: bool, name: &'static str)
    ensures
        str_texts(final(names)@) == str_texts(old(names)@) + (if set {
            seq![name@]
        } else {
            Seq::empty()
        }),
{
    let ghost before = names@;
    if set {
        names.push(name);
        assert(str_texts(names@) =~= str_texts(before) + seq![name@]);
    } else {
        assert(str_texts(names@) =~= str_texts(before) + Seq::<Seq<char>>::empty());
    }
}

/// The names of the LLVM string attributes that the function attributes
/// `attributes` give.
pub fn function_attribute_names(attributes: &Attributes) -> (res: Vec<&'static str>)
    ensures
        str_texts(res@) == spec_attribute_names(attributes@.state),
{
    let mut names: Vec<&'static str> = Vec::new();
    assert(str_texts(names@) =~= Seq::<Seq<char>>::empty());
    push_name_if(&mut names, attributes.is_cold(), "cold");
    push_name_if(&mut names, attributes.is_hot(), "hot");
    push_name_if(&mut names, attributes.is_strictfp(), "strictfp");
    push_name_if(&mut names, attributes.is_try_inline(), "inlinehint");
    push_name_if(&mut names, attributes.is_force_inline(), "alwaysinline");
    assert(str_texts(names@) =~= spec_attribute_names(attributes@.state));
    names
}

/// The width in bits of an integer type, where it does not depend on the
/// target (a pointer-sized integer does).
pub open spec fn spec_integer_bits(width: IntegerWidth) -> Option<u32> {
    match width {
        IntegerWidth::W8 => Some(8),
        IntegerWidth::W16 => Some(16),
        IntegerWidth::W32 => Some(32),
        IntegerWidth::W64 => Some(64),
        IntegerWidth::W128 => Some(128),
        IntegerWidth::Size => None,
    }
}

/// The width in bits of an integer type of the given width.
pub fn integer_bits(width: IntegerWidth) -> (res: Option<u32>)
    ensures
        res == spec_integer_bits(width),
{
    match width {
        IntegerWidth::W8 => Some(8),
        IntegerWidth::W16 => Some(16),
        IntegerWidth::W32 => Some(32),
        IntegerWidth::W64 => Some(64),
        IntegerWidth::W128 => Some(128),
        IntegerWidth::Size => None,
    }
}

/// Whether the code generator has an LLVM type for `ty`: every type but a
/// pointer-sized integer (whose width needs the target's data layout) and
/// `bfloat16` (for which the LLVM binding has no constructor).
pub open spec fn is_lowerable(ty: Type) -> bool {
    match ty {
        Type::Integer { width, .. } => spec_integer_bits(width) is Some,
        Type::Float(kind) => kind != FloatKind::BrainHalf,
        _ => true,
    }
}

/// Whether every type of the declaration `d` has an LLVM type.
pub open spec fn declaration_is_lowerable(d: SpecFunctionDeclaration) -> bool {
    &&& is_lowerable(d.return_type)
    &&& forall|i: int| 0 <= i < d.parameters.len() ==> is_lowerable(#[trigger] d.parameters[i].1)
}

/// Whether a parameter of `d` has the type `void`, which no parameter can
/// have in LLVM.
pub open spec fn spec_has_void_parameter(d: SpecFunctionDeclaration) -> bool {
    exists|i: int| 0 <= i < d.parameters.len() && #[trigger] d.parameters[i].1 == Type::Void
}

/// Whether a parameter of `parsed` has the type `void`.
pub fn has_void_parameter(parsed: &FunctionDeclaration) -> (res: bool)
    ensures
        res == spec_has_void_parameter(parsed@),
{
    let parameters = parsed.parameters();
    let n = parameters.len();
    for i in 0..n
        invariant
            n == parameters@.len(),
            parameters@.len() == parsed@.parameters.len(),
            forall|j: int| 0 <= j < parameters@.len() ==> #[trigger] parameters@[j].1 == parsed@.parameters[j].1,
            forall|j: int| 0 <= j < i ==> parsed@.parameters[j].1 != Type::Void,
    {
        if parameters[i].1 == Type::Void {
            assert(parsed@.parameters[i as int].1 == Type::Void);
            return true;
        }
    }
    false
}

/// The map from each of `names` to the empty value.
pub open spec fn empty_valued(names: Seq<Seq<char>>) -> Map<Seq<char>, Seq<char>>
    decreases names.len(),
{
    if names.len() == 0 {
        Map::empty()
    } else {
        empty_valued(names.drop_last()).insert(names.last(), Seq::empty())
    }
}

/// The internal error of a declaration that the code generator cannot lower.
pub open spec fn is_codegen_ice(e: ICE) -> bool {
    e.0.input_file_name@ == "[unimplemented: name of input file]"@ && e.0.phase == Phase::CodeGen
}

fn codegen_ice() -> (res: ICE)
    ensures
        is_codegen_ice(res),
{
    ICE::new(ErrorSource::new("[unimplemented: name of input file]", Phase::CodeGen))
}

/// An LLVM type, as far as the code generator makes them.
pub enum SpecLlvmType {
    /// `void`
    Void,
    /// An integer of the given number of bits.
    Int(u32),
    /// The integer as wide as a pointer of the target.
    PointerSizedInt,
    /// IEEE half precision.
    Half,
    /// bfloat16.
    BFloat,
    /// IEEE single precision.
    Float,
    /// IEEE double precision.
    Double,
    /// IEEE quadruple precision.
    Fp128,
    /// A pointer, in the default address space, to the given type.
    Pointer(Box<SpecLlvmType>),
}

/// An LLVM function type: what it returns, what it takes, and whether it
/// takes more arguments after those.
pub struct SpecFunctionType {
    pub return_type: SpecLlvmType,
    pub parameters: Seq<SpecLlvmType>,
    pub variadic: bool,
}

/// The LLVM type of a language type: `bool` is the 1-bit integer, an integer
/// has its width, the floating-point types are those of their names, and a
/// pointer points to a byte.  The code generator makes all of them but those
/// that [`is_lowerable`] leaves out.
pub open spec fn spec_llvm_type(ty: Type) -> SpecLlvmType {
    match ty {
        Type::Void => SpecLlvmType::Void,
        Type::Boolean => SpecLlvmType::Int(1),
        Type::Integer { width, .. } => match spec_integer_bits(width) {
            Some(bits) => SpecLlvmType::Int(bits),
            None => SpecLlvmType::PointerSizedInt,
        },
        Type::Float(FloatKind::Half) => SpecLlvmType::Half,
        Type::Float(FloatKind::BrainHalf) => SpecLlvmType::BFloat,
        Type::Float(FloatKind::Single) => SpecLlvmType::Float,
        Type::Float(FloatKind::Double) => SpecLlvmType::Double,
        Type::Float(FloatKind::Quad) => SpecLlvmType::Fp128,
        Type::Ptr => SpecLlvmType::Pointer(Box::new(SpecLlvmType::Int(8))),
    }
}

/// The LLVM types of the parameters of `d`, in order.
pub open spec fn spec_parameter_llvm_types(d: SpecFunctionDeclaration) -> Seq<SpecLlvmType> {
    d.parameters.map_values(|p: (Seq<char>, Type)| spec_llvm_type(p.1))
}

/// The LLVM function type of the declaration `d`: its return type and its
/// parameter types, in order, and no more arguments.
pub open spec fn spec_function_type(d: SpecFunctionDeclaration) -> SpecFunctionType {
    SpecFunctionType {
        return_type: spec_llvm_type(d.return_type),
        parameters: spec_parameter_llvm_types(d),
        variadic: false,
    }
}

// ---------------------------------------------------------------------------
// inkwell
// ---------------------------------------------------------------------------

/// inkwell's `Context`, opaque to Verus: it is only handed on.
#[verifier::external_type_specification]
#[verifier::external_body]
pub struct ExContext(inkwell::context::Context);

/// inkwell's `Module`, opaque to Verus: it is only handed on.
#[verifier::external_type_specification]
#[verifier::external_body]
pub struct ExModule<'ctx>(inkwell::module::Module<'ctx>);

/// inkwell's `Builder`, opaque to Verus: it is only held.
#[verifier::external_type_specification]
#[verifier::external_body]
pub struct ExBuilder<'ctx>(inkwell::builder::Builder<'ctx>);

/// inkwell's `VoidType`, opaque to Verus: it is only handed on.
#[verifier::external_type_specification]
#[verifier::external_body]
pub struct ExVoidType<'ctx>(inkwell::types::VoidType<'ctx>);

/// inkwell's `BasicTypeEnum`, opaque to Verus: it is only handed on.
#[verifier::external_type_specification]
#[verifier::external_body]
pub struct ExBasicTypeEnum<'ctx>(inkwell::types::BasicTypeEnum<'ctx>);

/// inkwell's `BasicMetadataTypeEnum`, opaque to Verus: it is only handed on.
#[verifier::external_type_specification]
#[verifier::external_body]
pub struct ExBasicMetadataTypeEnum<'ctx>(inkwell::types::BasicMetadataTypeEnum<'ctx>);

/// inkwell's `FunctionType`, opaque to Verus: it is only handed on.
#[verifier::external_type_specification]
#[verifier::external_body]
pub struct ExFunctionType<'ctx>(inkwell::types::FunctionType<'ctx>);

/// inkwell's `FunctionValue`, opaque to Verus: it is only handed on.
#[verifier::external_type_specification]
#[verifier::external_body]
pub struct ExFunctionValue<'ctx>(inkwell::values::FunctionValue<'ctx>);

/// inkwell's `Attribute`, opaque to Verus: it is only handed on.
#[verifier::external_type_specification]
#[verifier::external_body]
pub struct ExLlvmAttribute(LlvmAttribute);

/// A function of a module: the name it was added under (LLVM gives a fresh
/// name where that one is taken), its type, the linkage asked for (`None`
/// leaves LLVM's default), and its string attributes at function position,
/// from key to value.
pub struct SpecFunction {
    pub requested_name: Seq<char>,
    pub function_type: SpecFunctionType,
    pub linkage: Option<LinkageKind>,
    pub attributes: Map<Seq<char>, Seq<char>>,
}

/// The text that a C string made from `s` holds: `s` up to its first NUL.
pub open spec fn c_string_text(s: Seq<char>) -> Seq<char> {
    if exists|i: int| 0 <= i < s.len() && s[i] == '\0' {
        s.take(
            choose|i: int|
                0 <= i < s.len() && s[i] == '\0' && forall|j: int| 0 <= j < i ==> s[j] != '\0',
        )
    } else {
        s
    }
}

/// The functions that a module holds, in the order they were added.
pub uninterp spec fn module_functions(module: Module) -> Seq<SpecFunction>;

/// The identifier of a module.
pub uninterp spec fn module_name(module: Module) -> Seq<char>;

/// Whether `function` is the function added to `module` last.
pub uninterp spec fn is_last_function(module: Module, function: FunctionValue) -> bool;

/// The key and the value of a string attribute; `None` for another kind.
pub uninterp spec fn string_attribute(attribute: LlvmAttribute) -> Option<(Seq<char>, Seq<char>)>;

/// The LLVM type that a basic type handle stands for.
pub uninterp spec fn basic_type_kind(ty: BasicTypeEnum) -> SpecLlvmType;

/// The LLVM type that a parameter type handle stands for.
pub uninterp spec fn parameter_type_kind(ty: BasicMetadataTypeEnum) -> SpecLlvmType;

/// The LLVM function type that a function type handle stands for.
pub uninterp spec fn function_type_kind(ty: FunctionType) -> SpecFunctionType;

/// The LLVM types that parameter type handles stand for, in order.
pub open spec fn parameter_type_kinds(parameters: Seq<BasicMetadataTypeEnum>) -> Seq<SpecLlvmType> {
    parameters.map_values(|p: BasicMetadataTypeEnum| parameter_type_kind(p))
}

/// Calls `Context::create_module`, which makes a new module holding no
/// function, whose identifier is the C string made from `name`.
#[verifier::external_body]
fn create_module<'ctx>(context: &'ctx Context, name: &str) -> (res: Module<'ctx>)
    ensures
        module_functions(res) == Seq::<SpecFunction>::empty(),
        module_name(res) == c_string_text(name@),
{
    context.create_module(name)
}

/// Calls `Context::create_builder`, which makes a new instruction builder.
/// Nothing is stated of the result, an opaque LLVM handle.
#[verifier::external_body]
fn create_builder<'ctx>(context: &'ctx Context) -> Builder<'ctx> {
    context.create_builder()
}

/// Calls `Context::void_type`; a function type made from it returns nothing
/// (see [`void_fn_type`]).
#[verifier::external_body]
fn void_type<'ctx>(context: &'ctx Context) -> VoidType<'ctx> {
    context.void_type()
}

/// Calls `Context::bool_type`, the 1-bit integer type.
#[verifier::external_body]
fn bool_type<'ctx>(context: &'ctx Context) -> (res: BasicTypeEnum<'ctx>)
    ensures
        basic_type_kind(res) == SpecLlvmType::Int(1),
{
    context.bool_type().into()
}

/// Calls `Context::custom_width_int_type`, the integer type of `bits` bits.
/// Its one demand is a width that LLVM accepts; the widths asked for here are
/// those of the language, 1 to 128 bits.
#[verifier::external_body]
fn int_type<'ctx>(context: &'ctx Context, bits: u32) -> (res: BasicTypeEnum<'ctx>)
    requires
        1 <= bits <= 128,
    ensures
        basic_type_kind(res) == SpecLlvmType::Int(bits),
{
    context.custom_width_int_type(bits).into()
}

/// Calls `Context::f16_type`, IEEE half precision.
#[verifier::external_body]
fn f16_type<'ctx>(context: &'ctx Context) -> (res: BasicTypeEnum<'ctx>)
    ensures
        basic_type_kind(res) == SpecLlvmType::Half,
{
    context.f16_type().into()
}

/// Calls `Context::f32_type`, IEEE single precision.
#[verifier::external_body]
fn f32_type<'ctx>(context: &'ctx Context) -> (res: BasicTypeEnum<'ctx>)
    ensures
        basic_type_kind(res) == SpecLlvmType::Float,
{
    context.f32_type().into()
}

/// Calls `Context::f64_type`, IEEE double precision.
#[verifier::external_body]
fn f64_type<'ctx>(context: &'ctx Context) -> (res: BasicTypeEnum<'ctx>)
    ensures
        basic_type_kind(res) == SpecLlvmType::Double,
{
    context.f64_type().into()
}

/// Calls `Context::f128_type`, IEEE quadruple precision.
#[verifier::external_body]
fn f128_type<'ctx>(context: &'ctx Context) -> (res: BasicTypeEnum<'ctx>)
    ensures
        basic_type_kind(res) == SpecLlvmType::Fp128,
{
    context.f128_type().into()
}

/// Calls `BasicType::ptr_type` (the typed pointers of this LLVM release): a
/// pointer to `pointee` in the default address space.
#[verifier::external_body]
fn pointer_to<'ctx>(pointee: BasicTypeEnum<'ctx>) -> (res: BasicTypeEnum<'ctx>)
    ensures
        basic_type_kind(res) == SpecLlvmType::Pointer(Box::new(basic_type_kind(pointee))),
{
    pointee.ptr_type(AddressSpace::default()).into()
}

/// Converts a basic type into a parameter type with inkwell's `From`, which
/// keeps the LLVM type.
#[verifier::external_body]
fn as_parameter_type<'ctx>(ty: BasicTypeEnum<'ctx>) -> (res: BasicMetadataTypeEnum<'ctx>)
    ensures
        parameter_type_kind(res) == basic_type_kind(ty),
{
    ty.into()
}

/// Calls `VoidType::fn_type`: the function type that returns nothing and
/// takes `parameters`, in order, not variadic.
#[verifier::external_body]
fn void_fn_type<'ctx>(
    return_type: VoidType<'ctx>,
    parameters: &Vec<BasicMetadataTypeEnum<'ctx>>,
) -> (res: FunctionType<'ctx>)
    ensures
        function_type_kind(res) == (SpecFunctionType {
            return_type: SpecLlvmType::Void,
            parameters: parameter_type_kinds(parameters@),
            variadic: false,
        }),
{
    return_type.fn_type(parameters.as_slice(), false)
}

/// Calls `BasicType::fn_type`: the function type that returns `return_type`
/// and takes `parameters`, in order, not variadic.
#[verifier::external_body]
fn basic_fn_type<'ctx>(
    return_type: BasicTypeEnum<'ctx>,
    parameters: &Vec<BasicMetadataTypeEnum<'ctx>>,
) -> (res: FunctionType<'ctx>)
    ensures
        function_type_kind(res) == (SpecFunctionType {
            return_type: basic_type_kind(return_type),
            parameters: parameter_type_kinds(parameters@),
            variadic: false,
        }),
{
    return_type.fn_type(parameters.as_slice(), false)
}

/// Calls `Module::add_function`, which appends to the module a new function
/// named by the C string made from `name`, of type `ty`, and sets the given
/// linkage where there is one (each kind of the library's maps to the
/// inkwell linkage of that name).  The new function has no attribute yet and
/// is the one added last; the module keeps its identifier.
#[verifier::external_body]
fn add_function<'ctx>(
    module: &mut Module<'ctx>,
    name: &str,
    ty: FunctionType<'ctx>,
    linkage: Option<LinkageKind>,
) -> (res: FunctionValue<'ctx>)
    ensures
        module_functions(*final(module)) == module_functions(*old(module)).push(
            SpecFunction {
                requested_name: c_string_text(name@),
                function_type: function_type_kind(ty),
                linkage,
                attributes: Map::empty(),
            },
        ),
        module_name(*final(module)) == module_name(*old(module)),
        is_last_function(*final(module), res),
{
    let linkage = match linkage {
        Some(LinkageKind::External) => Some(Linkage::External),
        Some(LinkageKind::Private) => Some(Linkage::Private),
        None => None,
    };
    module.add_function(name, ty, linkage)
}

/// Calls `Context::create_string_attribute`: the string attribute `key` with
/// the value `value`.
#[verifier::external_body]
fn create_string_attribute(context: &Context, key: &str, value: &str) -> (res: LlvmAttribute)
    ensures
        string_attribute(res) == Some((key@, value@)),
{
    context.create_string_attribute(key, value)
}

/// Calls `FunctionValue::add_attribute` at the function itself.  Where
/// `function` is the function of `module` added last and `attribute` is a
/// string attribute, that function then has the attribute's key with its
/// value, in place of any value it had for that key; the module holds the
/// same functions otherwise, keeps its identifier, and `function` stays the
/// one added last.
#[verifier::external_body]
fn add_function_attribute<'ctx>(
    module: &mut Module<'ctx>,
    function: FunctionValue<'ctx>,
    attribute: LlvmAttribute,
)
    ensures
        module_name(*final(module)) == module_name(*old(module)),
        is_last_function(*final(module), function) == is_last_function(*old(module), function),
        is_last_function(*old(module), function) ==> (string_attribute(attribute) matches Some(
            (key, value),
        ) ==> ({
            let before = module_functions(*old(module));
            let last = before.last();
            module_functions(*final(module)) == before.update(
                before.len() - 1,
                SpecFunction { attributes: last.attributes.insert(key, value), ..last },
            )
        })),
{
    function.add_attribute(AttributeLoc::Function, attribute)
}

// ---------------------------------------------------------------------------
// The code generator
// ---------------------------------------------------------------------------

/// The LLVM type of a language type other than `void`, where the code
/// generator has one.
fn basic_type<'ctx>(context: &'ctx Context, ty: Type) -> (res: Option<BasicTypeEnum<'ctx>>)
    requires
        ty != Type::Void,
    ensures
        res is Some <==> is_lowerable(ty),
        res matches Some(t) ==> basic_type_kind(t) == spec_llvm_type(ty),
{
    match ty {
        Type::Void => None,
        Type::Boolean => Some(bool_type(context)),
        Type::Integer { width, .. } => match integer_bits(width) {
            Some(bits) => Some(int_type(context, bits)),
            None => None,
        },
        Type::Float(FloatKind::Half) => Some(f16_type(context)),
        Type::Float(FloatKind::BrainHalf) => None,
        Type::Float(FloatKind::Single) => Some(f32_type(context)),
        Type::Float(FloatKind::Double) => Some(f64_type(context)),
        Type::Float(FloatKind::Quad) => Some(f128_type(context)),
        Type::Ptr => Some(pointer_to(int_type(context, 8))),
    }
}

/// An LLVM module of its own, with a builder, in a context that outlives it.
pub struct CodeGen<'ctx> {
    context: &'ctx Context,
    module: Module<'ctx>,
    builder: Builder<'ctx>,
}

impl<'ctx> CodeGen<'ctx> {
    /// The context that the code generator works in.
    pub closed spec fn spec_context(&self) -> &'ctx Context {
        self.context
    }

    /// The module that the generated code goes to.
    pub closed spec fn spec_module(&self) -> Module<'ctx> {
        self.module
    }

    /// The instruction builder.
    pub closed spec fn spec_builder(&self) -> Builder<'ctx> {
        self.builder
    }

    /// A code generator with a new module named `name` in `context`.
    #[must_use]
    pub fn new(context: &'ctx Context, name: &str) -> (res: Self)
        ensures
            res.spec_context() == context,
            module_functions(res.spec_module()) == Seq::<SpecFunction>::empty(),
            module_name(res.spec_module()) == c_string_text(name@),
    {
        let module = create_module(context, name);
        let builder = create_builder(context);
        CodeGen { context, module, builder }
    }

    /// The module that the generated code goes to.
    pub fn module(&self) -> (res: &Module<'ctx>)
        ensures
            *res == self.spec_module(),
    {
        &self.module
    }

    /// The instruction builder.
    pub fn builder(&self) -> (res: &Builder<'ctx>)
        ensures
            *res == self.spec_builder(),
    {
        &self.builder
    }

    /// Adds the function that `parsed` declares to the module: with the
    /// linkage of its modifiers, the LLVM types of its return type and
    /// parameters, and the string attributes of its attributes.  Fails with
    /// an internal error where one of its types has no LLVM type here.  A
    /// `void` parameter is left out (see [`has_void_parameter`]).
    pub fn create_function(&mut self, parsed: &FunctionDeclaration) -> (res: Result<(), ICE>)
        requires
            !spec_has_void_parameter(parsed@),
        ensures
            res is Ok <==> declaration_is_lowerable(parsed@),
            res matches Err(e) ==> is_codegen_ice(e),
            final(self).spec_context() == old(self).spec_context(),
            final(self).spec_builder() == old(self).spec_builder(),
            module_name(final(self).spec_module()) == module_name(old(self).spec_module()),
            res is Err ==> final(self).spec_module() == old(self).spec_module(),
            res is Ok ==> module_functions(final(self).spec_module()) == module_functions(
                old(self).spec_module(),
            ).push(
                SpecFunction {
                    requested_name: c_string_text(parsed@.identifier),
                    function_type: spec_function_type(parsed@),
                    linkage: spec_linkage(parsed@.modifiers),
                    attributes: empty_valued(spec_attribute_names(parsed@.attributes.state)),
                },
            ),
    {
        let linkage = function_linkage(parsed.modifiers());
        let return_type = parsed.return_type();
        let basic_return = if return_type == Type::Void {
            None
        } else {
            match basic_type(self.context, return_type) {
                Some(t) => Some(t),
                None => return Err(codegen_ice()),
            }
        };
        let parameters = parsed.parameters();
        let n = parameters.len();
        let mut parameter_types: Vec<BasicMetadataTypeEnum<'ctx>> = Vec::new();
        for i in 0..n
            invariant
                n == parameters@.len(),
                parameters@.len() == parsed@.parameters.len(),
                forall|j: int| 0 <= j < parameters@.len() ==> #[trigger] parameters@[j].1 == parsed@.parameters[j].1,
                !spec_has_void_parameter(parsed@),
                forall|j: int| 0 <= j < i ==> is_lowerable(#[trigger] parsed@.parameters[j].1),
                parameter_type_kinds(parameter_types@) == spec_parameter_llvm_types(parsed@).take(i as int),
        {
            assert(parsed@.parameters[i as int].1 != Type::Void);
            let ghost kinds_before = parameter_type_kinds(parameter_types@);
            match basic_type(self.context, parameters[i].1) {
                Some(t) => {
                    let p = as_parameter_type(t);
                    parameter_types.push(p);
                    proof {
                        let all = spec_parameter_llvm_types(parsed@);
                        assert(all[i as int] == spec_llvm_type(parsed@.parameters[i as int].1));
                        assert(all.take(i + 1) =~= all.take(i as int).push(all[i as int]));
                        assert(parameter_type_kinds(parameter_types@) =~= kinds_before.push(
                            parameter_type_kind(p),
                        ));
                    }
                },
                None => {
                    assert(!is_lowerable(parsed@.parameters[i as int].1));
                    return Err(codegen_ice());
                },
            }
        }
        proof {
            assert(spec_parameter_llvm_types(parsed@).take(n as int) =~= spec_parameter_llvm_types(
                parsed@,
            ));
        }
        let function_type = match basic_return {
            Some(t) => basic_fn_type(t, &parameter_types),
            None => void_fn_type(void_type(self.context), &parameter_types),
        };
        assert(function_type_kind(function_type) == spec_function_type(parsed@));
        let ghost before = module_functions(self.module);
        let ghost name0 = module_name(self.module);
        let function = add_function(&mut self.module, parsed.identifier(), function_type, linkage);
        let names = function_attribute_names(parsed.attributes());
        let ghost added = SpecFunction {
            requested_name: c_string_text(parsed@.identifier),
            function_type: spec_function_type(parsed@),
            linkage: spec_linkage(parsed@.modifiers),
            attributes: Map::empty(),
        };
        let m = names.len();
        for i in 0..m
            invariant
                m == names@.len(),
                str_texts(names@) == spec_attribute_names(parsed@.attributes.state),
                is_last_function(self.module, function),
                module_name(self.module) == name0,
                self.context == old(self).context,
                self.builder == old(self).builder,
                module_functions(self.module) == before.push(
                    SpecFunction { attributes: empty_valued(str_texts(names@).take(i as int)), ..added },
                ),
        {
            let attribute = create_string_attribute(self.context, names[i], "");
            let ghost prev = self.module;
            add_function_attribute(&mut self.module, function, attribute);
            proof {
                reveal_strlit("");
                let current = SpecFunction {
                    attributes: empty_valued(str_texts(names@).take(i as int)),
                    ..added
                };
                assert(""@ =~= Seq::<char>::empty());
                assert(string_attribute(attribute) == Some((names@[i as int]@, Seq::<char>::empty())));
                assert(module_functions(prev).last() == current);
                assert(module_functions(prev).len() - 1 == before.len());
                let t = str_texts(names@);
                assert(t.take(i + 1).drop_last() =~= t.take(i as int));
                assert(t.take(i + 1).last() == names@[i as int]@);
                assert(empty_valued(t.take(i + 1)) == empty_valued(t.take(i as int)).insert(
                    names@[i as int]@,
                    Seq::empty(),
                ));
                assert(before.push(SpecFunction { attributes: empty_valued(t.take(i as int)), ..added }).update(
                    before.len() as int,
                    SpecFunction { attributes: empty_valued(t.take(i + 1)), ..added },
                ) =~= before.push(SpecFunction { attributes: empty_valued(t.take(i + 1)), ..added }));
            }
        }
        proof {
            assert(str_texts(names@).take(m as int) =~= str_texts(names@));
        }
        Ok(())
    }
}

/// Pointers, and only pointers, lower to LLVM pointers: a language type has a
/// pointer type in LLVM exactly when it is a pointer type.
pub proof fn law_only_pointers_lower_to_pointers(ty: Type)
    ensures
        spec_llvm_type(ty) is Pointer <==> ty == Type::Ptr,
{
}

/// An integer of a fixed width lowers to the LLVM integer of that many bits,
/// `bool` to the 1-bit integer, and `void` to LLVM's `void`; no other type
/// lowers to an integer or to `void`.
pub proof fn law_integers_keep_their_width(ty: Type)
    ensures
        ty matches Type::Integer { width, .. } ==> (spec_integer_bits(width) matches Some(bits) ==> spec_llvm_type(ty)
            == SpecLlvmType::Int(bits)),
        ty == Type::Boolean ==> spec_llvm_type(ty) == SpecLlvmType::Int(1),
        spec_llvm_type(ty) is Int ==> ty is Integer || ty == Type::Boolean,
        spec_llvm_type(ty) is Void <==> ty == Type::Void,
{
}

/// Each parameter of a lowered declaration keeps its place: the LLVM function
/// type has as many parameters as the declaration, the `i`-th being the LLVM
/// type of the `i`-th parameter's type, so a pointer parameter is a pointer.
pub proof fn law_parameters_keep_their_places(d: SpecFunctionDeclaration, i: int)
    requires
        0 <= i < d.parameters.len(),
    ensures
        spec_function_type(d).parameters.len() == d.parameters.len(),
        spec_function_type(d).parameters[i] == spec_llvm_type(d.parameters[i].1),
        spec_function_type(d).parameters[i] is Pointer <==> d.parameters[i].1 == Type::Ptr,
        !spec_function_type(d).variadic,
{
    law_only_pointers_lower_to_pointers(d.parameters[i].1);
}

/// The number of bits of an LLVM floating-point type; `None` for another type.
pub open spec fn llvm_float_bits(t: SpecLlvmType) -> Option<nat> {
    match t {
        SpecLlvmType::Half => Some(16),
        SpecLlvmType::BFloat => Some(16),
        SpecLlvmType::Float => Some(32),
        SpecLlvmType::Double => Some(64),
        SpecLlvmType::Fp128 => Some(128),
        _ => None,
    }
}

/// A floating-point type lowers to the LLVM floating-point type of as many
/// bits, bfloat16 to LLVM's bfloat and the IEEE kinds to IEEE types, and only
/// floating-point types lower to floating-point types.
pub proof fn law_floats_keep_their_width(ty: Type)
    ensures
        ty matches Type::Float(kind) ==> llvm_float_bits(spec_llvm_type(ty)) == Some(float_bits(kind)),
        ty matches Type::Float(kind) ==> (spec_llvm_type(ty) is BFloat <==> kind == FloatKind::BrainHalf),
        llvm_float_bits(spec_llvm_type(ty)) is Some ==> ty is Float,
{
}

} // verus!
