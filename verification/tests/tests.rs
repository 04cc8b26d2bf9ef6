use literal_enum::convert::{parse, project};
use literal_enum::emit::generate;
use literal_enum::resolve::{resolve, Diag, Resolved};
use literal_enum::schema::{Attr, IntSuffix, IntWidth, Lit, LiteralType, MalformedKind, Schema, Variant};
use literal_enum::value::{value_eq, Value};

fn unit(ident: &str, attr: Attr) -> Variant {
    Variant { ident: String::from(ident), is_unit: true, attr }
}

fn schema(ident: &str, variants: Vec<Variant>) -> Schema {
    Schema { ident: String::from(ident), has_generics: false, variants }
}

fn resolved(s: &Schema) -> Resolved {
    resolve(s).unwrap().unwrap()
}

fn str_value(s: &str) -> Value {
    Value::Str(String::from(s))
}

#[test]
fn test_str_default() {
    let s = schema(
        "StrDefault",
        vec![unit("Hello", Attr::Absent), unit("World", Attr::Absent)],
    );
    let r = resolved(&s);

    assert!(value_eq(project(&r, 0), &str_value("Hello")));

    assert!(value_eq(project(&r, 1), &str_value("World")));
}

#[test]
fn test_str_explicit() {
    let s = schema(
        "StrExplicit",
        vec![
            unit("Hello", Attr::Lit(Lit::Str(String::from("Hello")))),
            unit("World", Attr::Absent),
        ],
    );
    let r = resolved(&s);

    assert!(value_eq(project(&r, 0), &str_value("Hello")));

    assert!(value_eq(project(&r, 1), &str_value("World")));
}

#[test]
fn test_byte_str() {
    let s = schema(
        "ByteStr",
        vec![
            unit("Hello", Attr::Lit(Lit::ByteStr(b"Hello".to_vec()))),
            unit("World", Attr::Absent),
        ],
    );
    let r = resolved(&s);

    assert!(value_eq(project(&r, 0), &Value::Bytes(b"Hello".to_vec())));

    assert!(value_eq(project(&r, 1), &Value::Bytes(b"World".to_vec())));
}

#[test]
fn test_c_str() {
    let s = schema(
        "CStr",
        vec![
            unit("Hello", Attr::Lit(Lit::CStr(b"Hello".to_vec()))),
            unit("World", Attr::Absent),
        ],
    );
    let r = resolved(&s);

    assert!(value_eq(project(&r, 0), &Value::CBytes(b"Hello".to_vec())));

    assert!(value_eq(project(&r, 1), &Value::CBytes(b"World".to_vec())));
}

#[test]
fn test_byte() {
    let s = schema(
        "Byte",
        vec![
            unit("Hello", Attr::Lit(Lit::Byte(b'h'))),
            unit("World", Attr::Lit(Lit::Byte(b'w'))),
            unit("X", Attr::Absent),
        ],
    );
    let r = resolved(&s);

    assert!(value_eq(project(&r, 0), &Value::Byte(b'h')));

    assert!(value_eq(project(&r, 1), &Value::Byte(b'w')));

    assert!(value_eq(project(&r, 2), &Value::Byte(b'X')));
}

#[test]
fn test_char() {
    let s = schema(
        "Char",
        vec![
            unit("Hello", Attr::Lit(Lit::Char('h'))),
            unit("World", Attr::Lit(Lit::Char('w'))),
            unit("X", Attr::Absent),
        ],
    );
    let r = resolved(&s);

    assert!(value_eq(project(&r, 0), &Value::Char('h')));

    assert!(value_eq(project(&r, 1), &Value::Char('w')));

    assert!(value_eq(project(&r, 2), &Value::Char('X')));
}

#[test]
fn test_u32() {
    let s = schema(
        "U32",
        vec![
            unit("One", Attr::Lit(Lit::Int { value: 1, suffix: None })),
            unit("Two", Attr::Lit(Lit::Int { value: 2, suffix: None })),
        ],
    );
    let r = resolved(&s);
    assert_eq!(r.ty, LiteralType::Int { width: IntWidth::W32, signed: false });

    assert!(value_eq(project(&r, 0), &Value::Int(1)));

    assert!(value_eq(project(&r, 1), &Value::Int(2)));
}

#[test]
fn test_bool() {
    let s = schema(
        "Bool",
        vec![
            unit("True", Attr::Lit(Lit::Bool(true))),
            unit("False", Attr::Lit(Lit::Bool(false))),
        ],
    );
    let r = resolved(&s);

    assert!(value_eq(project(&r, 0), &Value::Bool(true)));

    assert!(value_eq(project(&r, 1), &Value::Bool(false)));
}

#[test]
fn parse_str_default() {
    let s = schema(
        "StrDefault",
        vec![unit("Hello", Attr::Absent), unit("World", Attr::Absent)],
    );
    let r = resolved(&s);
    assert_eq!(parse(&r, &str_value("Hello")), Some(0));
    assert_eq!(parse(&r, &str_value("World")), Some(1));
    assert_eq!(parse(&r, &str_value("Nope")), None);
}

#[test]
fn parse_u32_unmatched() {
    let s = schema(
        "U32",
        vec![
            unit("One", Attr::Lit(Lit::Int { value: 1, suffix: None })),
            unit("Two", Attr::Lit(Lit::Int { value: 2, suffix: None })),
        ],
    );
    let r = resolved(&s);
    assert_eq!(parse(&r, &Value::Int(1)), Some(0));
    assert_eq!(parse(&r, &Value::Int(3)), None);
}

#[test]
fn round_trip_all_variants() {
    let s = schema(
        "Byte",
        vec![
            unit("Hello", Attr::Lit(Lit::Byte(b'h'))),
            unit("World", Attr::Lit(Lit::Byte(b'w'))),
            unit("X", Attr::Absent),
        ],
    );
    let r = resolved(&s);
    for i in 0..3 {
        let v = project(&r, i);
        assert_eq!(parse(&r, v), Some(i));
    }
}

#[test]
fn byte_str_implicit_chaining() {
    let s = schema(
        "E",
        vec![
            unit("A", Attr::Lit(Lit::ByteStr(b"Hi".to_vec()))),
            unit("B", Attr::Absent),
        ],
    );
    let r = resolved(&s);
    assert!(value_eq(project(&r, 1), &Value::Bytes(b"B".to_vec())));
}

#[test]
fn duplicate_literal_cites_both() {
    let s = schema(
        "E",
        vec![
            unit("A", Attr::Lit(Lit::Str(String::from("Hello")))),
            unit("B", Attr::Lit(Lit::Str(String::from("Hello")))),
        ],
    );
    assert_eq!(resolve(&s).unwrap_err(), Diag::DuplicateLiteral { variant: 1, first: 0 });
}

#[test]
fn duplicate_inferred_literal() {
    let s = schema(
        "E",
        vec![
            unit("A", Attr::Lit(Lit::Str(String::from("B")))),
            unit("B", Attr::Absent),
        ],
    );
    assert_eq!(resolve(&s).unwrap_err(), Diag::DuplicateLiteral { variant: 1, first: 0 });
}

#[test]
fn duplicate_int_ignores_suffix_spelling() {
    let s = schema(
        "E",
        vec![
            unit("A", Attr::Lit(Lit::Int { value: 1, suffix: None })),
            unit(
                "B",
                Attr::Lit(Lit::Int {
                    value: 1,
                    suffix: Some(IntSuffix { width: IntWidth::W32, signed: false }),
                }),
            ),
        ],
    );
    assert_eq!(resolve(&s).unwrap_err(), Diag::DuplicateLiteral { variant: 1, first: 0 });
}

#[test]
fn type_mismatch_cites_first() {
    let s = schema(
        "E",
        vec![
            unit("A", Attr::Lit(Lit::Str(String::from("Hello")))),
            unit("B", Attr::Lit(Lit::Int { value: 1, suffix: None })),
        ],
    );
    assert_eq!(resolve(&s).unwrap_err(), Diag::TypeMismatch { variant: 1, first: 0 });
}

#[test]
fn suffix_fixes_int_type() {
    let s = schema(
        "E",
        vec![unit(
            "Seven",
            Attr::Lit(Lit::Int {
                value: 7,
                suffix: Some(IntSuffix { width: IntWidth::W64, signed: true }),
            }),
        )],
    );
    let r = resolved(&s);
    assert_eq!(r.ty, LiteralType::Int { width: IntWidth::W64, signed: true });
}

#[test]
fn suffix_mismatch_is_type_mismatch() {
    let s = schema(
        "E",
        vec![
            unit("A", Attr::Lit(Lit::Int { value: 1, suffix: None })),
            unit(
                "B",
                Attr::Lit(Lit::Int {
                    value: 2,
                    suffix: Some(IntSuffix { width: IntWidth::W8, signed: false }),
                }),
            ),
        ],
    );
    assert_eq!(resolve(&s).unwrap_err(), Diag::TypeMismatch { variant: 1, first: 0 });
}

#[test]
fn char_multi_character_identifier_fails() {
    let s = schema(
        "E",
        vec![unit("H", Attr::Lit(Lit::Char('h'))), unit("World", Attr::Absent)],
    );
    assert_eq!(resolve(&s).unwrap_err(), Diag::BadImplicitLiteral { variant: 1 });
}

#[test]
fn byte_multi_character_identifier_fails() {
    let s = schema(
        "E",
        vec![unit("H", Attr::Lit(Lit::Byte(b'h'))), unit("Wo", Attr::Absent)],
    );
    assert_eq!(resolve(&s).unwrap_err(), Diag::BadImplicitLiteral { variant: 1 });
}

#[test]
fn int_inference_fails() {
    let s = schema(
        "E",
        vec![
            unit("One", Attr::Lit(Lit::Int { value: 1, suffix: None })),
            unit("Two", Attr::Absent),
        ],
    );
    assert_eq!(resolve(&s).unwrap_err(), Diag::CannotInferLiteral { variant: 1 });
}

#[test]
fn bool_inference_fails() {
    let s = schema(
        "E",
        vec![unit("T", Attr::Lit(Lit::Bool(true))), unit("F", Attr::Absent)],
    );
    assert_eq!(resolve(&s).unwrap_err(), Diag::CannotInferLiteral { variant: 1 });
}

#[test]
fn generics_forbidden() {
    let s = Schema {
        ident: String::from("E"),
        has_generics: true,
        variants: vec![unit("A", Attr::Absent)],
    };
    assert_eq!(resolve(&s).unwrap_err(), Diag::GenericsForbidden);
}

#[test]
fn non_unit_variant_fails() {
    let s = schema(
        "E",
        vec![Variant { ident: String::from("A"), is_unit: false, attr: Attr::Absent }],
    );
    assert_eq!(resolve(&s).unwrap_err(), Diag::NonUnitVariant { variant: 0 });
}

#[test]
fn malformed_attr_fails() {
    for (kind, n) in [
        (MalformedKind::MissingValue, 0),
        (MalformedKind::NotLiteral, 1),
        (MalformedKind::Repeated, 2),
    ] {
        let mut variants = vec![unit("A", Attr::Absent)];
        variants.insert(n.min(1), unit("B", Attr::Malformed(kind)));
        let s = schema("E", variants);
        let at = if n == 0 { 0 } else { 1 };
        assert_eq!(resolve(&s).unwrap_err(), Diag::MalformedAttr { variant: at, kind });
    }
}

#[test]
fn unsupported_literal_fails() {
    let s = schema("E", vec![unit("A", Attr::Lit(Lit::Unsupported))]);
    assert_eq!(resolve(&s).unwrap_err(), Diag::UnsupportedLiteral { variant: 0 });
}

#[test]
fn empty_schema_generates_nothing() {
    let s = schema("Empty", vec![]);
    assert!(resolve(&s).unwrap().is_none());
    assert_eq!(generate(&s).unwrap(), "");
}

#[test]
fn generate_passes_diagnostic_through() {
    let s = schema(
        "E",
        vec![
            unit("A", Attr::Lit(Lit::Str(String::from("Hello")))),
            unit("B", Attr::Lit(Lit::Str(String::from("Hello")))),
        ],
    );
    assert_eq!(generate(&s).unwrap_err(), Diag::DuplicateLiteral { variant: 1, first: 0 });
}

#[test]
fn emit_str_schema_text() {
    let s = schema(
        "StrDefault",
        vec![unit("Hello", Attr::Absent), unit("World", Attr::Absent)],
    );
    let expected = "impl<'a> TryFrom<&'a str> for StrDefault {\n    type Error = &'a str;\n    fn try_from(value: &'a str) -> Result<Self, Self::Error> {\n        if \"Hello\" == value {\n            return Ok(Self::Hello);\n        }\n        if \"World\" == value {\n            return Ok(Self::World);\n        }\n        Err(value)\n    }\n}\nimpl<'a> Into<&'a str> for StrDefault {\n    fn into(self) -> &'a str {\n        match self {\n            Self::Hello => \"Hello\",\n            Self::World => \"World\",\n        }\n    }\n}\n";
    assert_eq!(generate(&s).unwrap(), expected);
}

#[test]
fn emit_u32_schema_text() {
    let s = schema(
        "U32",
        vec![
            unit("One", Attr::Lit(Lit::Int { value: 1, suffix: None })),
            unit("Many", Attr::Lit(Lit::Int { value: 1234, suffix: None })),
        ],
    );
    let expected = "impl TryFrom<u32> for U32 {\n    type Error = u32;\n    fn try_from(value: u32) -> Result<Self, Self::Error> {\n        match value {\n            1 => Ok(Self::One),\n            1234 => Ok(Self::Many),\n            _ => Err(value),\n        }\n    }\n}\nimpl Into<u32> for U32 {\n    fn into(self) -> u32 {\n        match self {\n            Self::One => 1,\n            Self::Many => 1234,\n        }\n    }\n}\n";
    assert_eq!(generate(&s).unwrap(), expected);
}

#[test]
fn emit_escapes_text_literals() {
    let s = schema(
        "Esc",
        vec![unit("A", Attr::Lit(Lit::Str(String::from("a\"b\\c\nd"))))],
    );
    let out = generate(&s).unwrap();
    assert!(out.contains("if \"a\\\"b\\\\c\\nd\" == value {"));
}

#[test]
fn emit_escapes_byte_literals() {
    let s = schema(
        "Esc",
        vec![unit("A", Attr::Lit(Lit::ByteStr(vec![0u8, 255u8, b'A'])))],
    );
    let out = generate(&s).unwrap();
    assert!(out.contains("if b\"\\0\\xffA\" == value {"));
}

#[test]
fn emit_byte_schema_uses_match() {
    let s = schema(
        "Byte",
        vec![
            unit("Hello", Attr::Lit(Lit::Byte(b'h'))),
            unit("X", Attr::Absent),
        ],
    );
    let out = generate(&s).unwrap();
    assert!(out.contains("match value {"));
    assert!(out.contains("            b'h' => Ok(Self::Hello),\n"));
    assert!(out.contains("            b'X' => Ok(Self::X),\n"));
    assert!(out.contains("impl TryFrom<u8> for Byte {"));
}

#[test]
fn emit_c_str_schema_text() {
    let s = schema(
        "C",
        vec![unit("Hello", Attr::Lit(Lit::CStr(b"Hello".to_vec())))],
    );
    let out = generate(&s).unwrap();
    assert!(out.contains("impl<'a> TryFrom<&'a core::ffi::CStr> for C {"));
    assert!(out.contains("if c\"Hello\" == value {"));
}

#[test]
fn emit_bool_and_char_text() {
    let s = schema(
        "B",
        vec![
            unit("T", Attr::Lit(Lit::Bool(true))),
            unit("F", Attr::Lit(Lit::Bool(false))),
        ],
    );
    let out = generate(&s).unwrap();
    assert!(out.contains("            true => Ok(Self::T),\n"));
    assert!(out.contains("            Self::F => false,\n"));

    let s2 = schema(
        "Ch",
        vec![unit("Quote", Attr::Lit(Lit::Char('\'')))],
    );
    let out2 = generate(&s2).unwrap();
    assert!(out2.contains("            '\\'' => Ok(Self::Quote),\n"));
}

#[test]
fn first_match_wins_in_declaration_order() {
    let s = schema(
        "E",
        vec![
            unit("A", Attr::Lit(Lit::Str(String::from("x")))),
            unit("B", Attr::Lit(Lit::Str(String::from("y")))),
            unit("C", Attr::Lit(Lit::Str(String::from("z")))),
        ],
    );
    let r = resolved(&s);
    assert_eq!(parse(&r, &str_value("y")), Some(1));
    assert_eq!(parse(&r, &str_value("z")), Some(2));
}
