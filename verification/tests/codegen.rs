use inkwell::attributes::AttributeLoc;
use inkwell::context::Context;
use inkwell::module::Linkage;

use rename_me::codegen::{function_attribute_names, function_linkage, has_void_parameter, integer_bits, CodeGen, LinkageKind};
use rename_me::errors::Phase;
use rename_me::parser::fn_attrs::{Attribute, Attributes};
use rename_me::parser::function::FunctionDeclaration;
use rename_me::parser::modifiers::{MOD_CONSTANT, MOD_EXTERNAL, MOD_PRIVATE, MOD_UNSAFE};
use rename_me::parser::{Parser, TopLevel};
use rename_me::types::{FloatKind, IntegerWidth, Type};

fn declaration(text: &[u8]) -> FunctionDeclaration {
    let mut parser = Parser::from(text.to_vec());
    let TopLevel::Function(function) = parser.parse().expect("a declaration");
    function
}

#[test]
fn linkage_follows_the_modifiers() {
    assert_eq!(function_linkage(MOD_EXTERNAL), Some(LinkageKind::External));
    assert_eq!(function_linkage(MOD_EXTERNAL | MOD_PRIVATE), Some(LinkageKind::External));
    assert_eq!(function_linkage(MOD_PRIVATE | MOD_CONSTANT), Some(LinkageKind::Private));
    assert_eq!(function_linkage(MOD_UNSAFE), None);
    assert_eq!(function_linkage(0), None);
}

#[test]
fn attribute_names_in_order() {
    let attributes = Attributes::default()
        .with_attr(Attribute::ForceInline)
        .with_attr(Attribute::Cold)
        .with_attr(Attribute::TryInline)
        .with_attr(Attribute::Hot)
        .with_attr(Attribute::Strictfp)
        .with_attr(Attribute::Purity(true));
    assert_eq!(
        function_attribute_names(&attributes),
        vec!["cold", "hot", "strictfp", "inlinehint", "alwaysinline"]
    );
    assert!(function_attribute_names(&Attributes::default()).is_empty());
}

#[test]
fn integer_widths() {
    assert_eq!(integer_bits(IntegerWidth::W8), Some(8));
    assert_eq!(integer_bits(IntegerWidth::W16), Some(16));
    assert_eq!(integer_bits(IntegerWidth::W32), Some(32));
    assert_eq!(integer_bits(IntegerWidth::W64), Some(64));
    assert_eq!(integer_bits(IntegerWidth::W128), Some(128));
    assert_eq!(integer_bits(IntegerWidth::Size), None);
}

#[test]
fn void_parameters_are_found() {
    assert!(has_void_parameter(&declaration(b"funct f(a: i32, b: void);")));
    assert!(!has_void_parameter(&declaration(b"funct f(a: i32): void;")));
}

#[test]
fn creates_an_external_function_with_attributes() {
    let context = Context::create();
    let mut codegen = CodeGen::new(&context, "test");
    let parsed = declaration(b"#(hot, strictfp, force_inline) unsafe extern funct main(argc: i32, argv: *const u8): i64;");
    assert!(codegen.create_function(&parsed).is_ok());
    let function = codegen.module().get_function("main").expect("the function");
    assert_eq!(function.get_linkage(), Linkage::External);
    assert_eq!(function.count_params(), 2);
    assert_eq!(function.count_attributes(AttributeLoc::Function), 3);
    assert!(function.get_string_attribute(AttributeLoc::Function, "hot").is_some());
    assert!(function.get_string_attribute(AttributeLoc::Function, "strictfp").is_some());
    assert!(function.get_string_attribute(AttributeLoc::Function, "alwaysinline").is_some());
    assert!(function.get_string_attribute(AttributeLoc::Function, "cold").is_none());
    let ty = function.get_type();
    assert_eq!(ty.get_return_type(), Some(context.i64_type().into()));
    assert_eq!(ty.get_param_types()[0], context.i32_type().into());
    assert_eq!(codegen.module().get_name().to_str().unwrap(), "test");
}

#[test]
fn creates_a_private_void_function() {
    let context = Context::create();
    let mut codegen = CodeGen::new(&context, "module");
    let parsed = declaration(b"private funct helper(x: bool, y: f32, z: f128, w: u128, v: f16);");
    assert!(codegen.create_function(&parsed).is_ok());
    let function = codegen.module().get_function("helper").expect("the function");
    assert_eq!(function.get_linkage(), Linkage::Private);
    assert_eq!(function.get_type().get_return_type(), None);
    let parameters = function.get_type().get_param_types();
    assert_eq!(parameters.len(), 5);
    assert_eq!(parameters[0], context.bool_type().into());
    assert_eq!(parameters[1], context.f32_type().into());
    assert_eq!(parameters[2], context.f128_type().into());
    assert_eq!(parameters[3], context.i128_type().into());
    assert_eq!(parameters[4], context.f16_type().into());
    assert_eq!(function.count_attributes(AttributeLoc::Function), 0);
}

#[test]
fn types_without_an_llvm_type_are_internal_errors() {
    let context = Context::create();
    let mut codegen = CodeGen::new(&context, "module");
    let error = codegen.create_function(&declaration(b"funct f(n: usize);")).unwrap_err();
    assert_eq!(error.0.phase, Phase::CodeGen);
    assert_eq!(error.0.input_file_name, "[unimplemented: name of input file]");
    assert!(codegen.create_function(&declaration(b"funct g(): b16;")).is_err());
    assert!(codegen.module().get_function("f").is_none());
    let _ = codegen.builder();
    let double = Type::Float(FloatKind::Double);
    assert!(codegen
        .create_function(&FunctionDeclaration::new(0, Attributes::default(), String::from("h"), vec![(String::from("d"), double)], double))
        .is_ok());
    let h = codegen.module().get_function("h").expect("the function");
    assert_eq!(h.get_type().get_return_type(), Some(context.f64_type().into()));
    assert_eq!(h.get_type().get_param_types(), vec![context.f64_type().into()]);
    assert!(!h.get_type().is_var_arg());
}
