use rename_me::errors::{CompileError, ErrorSource, Phase, UnexpectedTokenError, ICE};
use rename_me::lexer::Token;
use rename_me::parser::fn_attrs::{
    fmt_attributes, from_token, Attribute, Attributes, ATTR_COLD, ATTR_FORCE_INLINE, ATTR_HOT, ATTR_METHOD,
    ATTR_PURITY, ATTR_STRICTFP, ATTR_TRY_INLINE,
};
use rename_me::parser::modifiers::{
    fmt_modifiers, is_constant, is_external, is_private, is_unsafe, MOD_CONSTANT, MOD_EXTERNAL, MOD_PRIVATE,
    MOD_UNSAFE,
};
use rename_me::text::{parse_unsigned_numeral, str_equals, string_from_chars};
use rename_me::types::{IntegerWidth, Type};

#[test]
fn added_attributes_are_contained() {
    let attributes = Attributes::default().with_attr(Attribute::Hot);
    assert!(attributes.contains(&Attribute::Hot));
    assert!(!attributes.contains(&Attribute::Cold));
    let attributes = attributes.with_attr(Attribute::Cold);
    assert!(attributes.contains(&Attribute::Hot));
    assert!(attributes.contains(&Attribute::Cold));
}

#[test]
fn the_first_purity_wins() {
    let attributes = Attributes::default().with_attr(Attribute::Purity(false));
    assert_eq!(attributes.purity(), Some(false));
    let attributes = attributes.with_attr(Attribute::Purity(true));
    assert_eq!(attributes.purity(), Some(false));
    assert_eq!(Attributes::default().purity(), None);
}

#[test]
fn merging_attributes() {
    let mut left = Attributes::default().with_attr(Attribute::Cold).with_attr(Attribute::Method(String::from("A")));
    let right = Attributes::default()
        .with_attr(Attribute::Method(String::from("A")))
        .with_attr(Attribute::Purity(true))
        .with_attr(Attribute::TryInline);
    left.bitor_assign_attributes(right);
    assert!(left.is_cold());
    assert!(left.is_try_inline());
    assert!(left.is_method());
    assert_eq!(left.purity(), Some(true));
    let expected = Attributes::default()
        .with_attr(Attribute::Cold)
        .with_attr(Attribute::Method(String::from("A")))
        .with_attr(Attribute::Purity(true))
        .with_attr(Attribute::TryInline);
    assert!(left.same_as(&expected));
    let mut unchanged = Attributes::default().with_attr(Attribute::Hot);
    unchanged.bitor_assign_attributes(Attributes::default());
    assert!(unchanged.same_as(&Attributes::default().with_attr(Attribute::Hot)));
    let mut single = Attributes::default();
    single.bitor_assign(Attribute::ForceInline);
    assert!(single.is_force_inline());
    assert!(!single.is_strictfp());
}

#[test]
fn attribute_flags_and_data() {
    assert_eq!(Attribute::Cold.discriminant(), ATTR_COLD);
    assert_eq!(Attribute::Hot.discriminant(), ATTR_HOT);
    assert_eq!(Attribute::Strictfp.discriminant(), ATTR_STRICTFP);
    assert_eq!(Attribute::TryInline.discriminant(), ATTR_TRY_INLINE);
    assert_eq!(Attribute::ForceInline.discriminant(), ATTR_FORCE_INLINE);
    assert_eq!(Attribute::Method(String::new()).discriminant(), ATTR_METHOD);
    assert_eq!(Attribute::Purity(true).discriminant(), ATTR_PURITY);
    assert!(Attribute::Method(String::new()).carries_data());
    assert!(Attribute::Purity(false).carries_data());
    assert!(!Attribute::Cold.carries_data());
    assert!(Attribute::Method(String::from("a")).same_as(&Attribute::Method(String::from("a"))));
    assert!(!Attribute::Method(String::from("a")).same_as(&Attribute::Method(String::from("b"))));
}

#[test]
fn attribute_keyword_tokens() {
    assert_eq!(from_token(&Token::Cold), Some(ATTR_COLD));
    assert_eq!(from_token(&Token::Hot), Some(ATTR_HOT));
    assert_eq!(from_token(&Token::StrictFloatingPoint), Some(ATTR_STRICTFP));
    assert_eq!(from_token(&Token::TryInline), Some(ATTR_TRY_INLINE));
    assert_eq!(from_token(&Token::ForceInline), Some(ATTR_FORCE_INLINE));
    assert_eq!(from_token(&Token::Semicolon), None);
}

#[test]
fn formats_flags() {
    assert_eq!(
        fmt_attributes(ATTR_HOT | ATTR_FORCE_INLINE),
        "Attributes { is_cold: false, is_hot: true, is_strictfp: false, is_try_inline: false, is_force_inline: true }"
    );
    assert_eq!(
        fmt_modifiers(MOD_CONSTANT | MOD_PRIVATE),
        "Modifiers { is_constant: true, is_unsafe: false, is_external: false, is_private: true }"
    );
}

#[test]
fn modifier_flags() {
    let all = MOD_CONSTANT | MOD_UNSAFE | MOD_EXTERNAL | MOD_PRIVATE;
    assert!(is_constant(all) && is_unsafe(all) && is_external(all) && is_private(all));
    assert!(!is_constant(MOD_UNSAFE));
    assert!(!is_unsafe(MOD_EXTERNAL));
    assert!(!is_external(MOD_PRIVATE));
    assert!(!is_private(MOD_CONSTANT));
}

#[test]
fn types() {
    assert_eq!(Type::signed(IntegerWidth::W8), Type::Integer { width: IntegerWidth::W8, is_unsigned: false });
    assert_eq!(Type::unsigned(IntegerWidth::W8), Type::integer(IntegerWidth::W8, true));
    assert!(Type::unsigned(IntegerWidth::W64).is_unsigned());
    assert!(!Type::signed(IntegerWidth::W64).is_unsigned());
    assert!(!Type::Boolean.is_unsigned());
}

#[test]
fn error_values() {
    let source = ErrorSource::new("main.rnm", Phase::Lexing);
    assert_eq!(source.input_file_name, "main.rnm");
    assert_eq!(source.phase, Phase::Lexing);
    assert_eq!(ICE::new(source).0.phase, Phase::Lexing);
    assert_eq!(CompileError::new(ErrorSource::new("a", Phase::Parsing)).0.input_file_name, "a");
    assert_eq!(UnexpectedTokenError::new(Token::Comma).unexpected, Token::Comma);
}

#[test]
fn text_helpers() {
    assert_eq!(string_from_chars(&vec!['a', 'é', 'z']), "aéz");
    assert!(str_equals("abc", "abc"));
    assert!(!str_equals("abc", "abd"));
    assert_eq!(parse_unsigned_numeral("+42", 255), Some(42));
    assert_eq!(parse_unsigned_numeral("256", 255), None);
    assert_eq!(parse_unsigned_numeral("", 255), None);
    assert_eq!(parse_unsigned_numeral("-1", 255), None);
    assert_eq!(parse_unsigned_numeral("340282366920938463463374607431768211455", u128::MAX), Some(u128::MAX));
    assert_eq!(parse_unsigned_numeral("340282366920938463463374607431768211456", u128::MAX), None);
}

#[test]
fn debug_text_of_attributes() {
    let attributes = Attributes::default().with_attr(Attribute::Hot).with_attr(Attribute::Purity(false));
    assert_eq!(
        attributes.debug_text(),
        "Attributes { is_cold: false, is_hot: true, is_strictfp: false, is_try_inline: false, is_force_inline: false, is_method: false, explicit_purity: Some(false) }"
    );
    assert_eq!(
        Attributes::default().with_attr(Attribute::Method(String::from("T"))).debug_text(),
        "Attributes { is_cold: false, is_hot: false, is_strictfp: false, is_try_inline: false, is_force_inline: false, is_method: true, explicit_purity: None }"
    );
}

#[test]
fn merging_keeps_the_first_purity() {
    let mut left = Attributes::default().with_attr(Attribute::Purity(false));
    left.bitor_assign_attributes(Attributes::default().with_attr(Attribute::Purity(true)).with_attr(Attribute::Hot));
    assert_eq!(left.purity(), Some(false));
    assert!(left.is_hot());
    let mut plain = Attributes::default().with_attr(Attribute::Cold);
    plain.bitor_assign_attributes(Attributes::default().with_attr(Attribute::Purity(true)));
    assert_eq!(plain.purity(), Some(true));
    assert!(plain.is_cold());
}

#[test]
fn merging_with_itself_changes_nothing() {
    let build = || {
        Attributes::default()
            .with_attr(Attribute::Cold)
            .with_attr(Attribute::Method(String::from("A")))
            .with_attr(Attribute::Purity(false))
    };
    let mut merged = build();
    merged.bitor_assign_attributes(build());
    assert!(merged.same_as(&build()));
    assert_eq!(merged, build());
}
