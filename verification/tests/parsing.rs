use bitfld::base::{BaseType, BaseTypeDef, INVALID_BASE_TYPE};
use bitfld::bitfield::{
    BIT_REPR, Bitfield, DUPLICATE_UNSHIFTED, HIGH_THEN_LOW, INVALID_BITFIELD_DECL_FORM,
    NO_ATTRIBUTES, NUMBER_TOO_LARGE, REPR_UNSHIFTED, RESERVED_DOC, RESERVED_REPR,
    RESERVED_UNSHIFTED,
};
use bitfld::error::Error;
use bitfld::layout::{
    Bitfields, EXPECTED_BRACES, Layout, MISSING_BRACES, UNEXPECTED_INSIDE, UNEXPECTED_TOKEN,
    sort_fields,
};
use bitfld::typedef::{NO_BASE_TYPE, NO_GENERICS, NO_TUPLE_STRUCT, TOO_MANY_FIELDS, TypeDef};

type F = Bitfield<String, Vec<String>>;

fn field(text: &str) -> F {
    match Bitfield::parse(text) {
        Ok((f, rest, late)) => {
            assert_eq!(rest, "");
            assert_eq!(late, None);
            f
        }
        Err(e) => panic!("{e:?}"),
    }
}

fn field_error(text: &str) -> (String, String) {
    match Bitfield::parse(text) {
        Ok(_) => panic!("accepted: {text}"),
        Err(Error::Layout { message, at }) => (message, at),
        Err(e) => panic!("{e:?}"),
    }
}

fn type_error(text: &str) -> (String, String) {
    match TypeDef::parse(text) {
        Ok(_) => panic!("accepted: {text}"),
        Err(Error::Layout { message, at }) => (message, at),
        Err(e) => panic!("{e:?}"),
    }
}

fn layout_error(text: &str) -> Error<String> {
    match Layout::parse(text) {
        Ok(_) => panic!("accepted: {text}"),
        Err(e) => e,
    }
}

fn names(fields: &Vec<F>) -> Vec<String> {
    fields.iter().map(|f| f.display_name()).collect()
}

#[test]
fn base_types_and_their_high_bits() {
    for (name, ty, high) in [
        ("u8", BaseType::U8, 7),
        ("u16", BaseType::U16, 15),
        ("u32", BaseType::U32, 31),
        ("u64", BaseType::U64, 63),
        ("u128", BaseType::U128, 127),
    ] {
        let base = BaseTypeDef::try_from(name).unwrap();
        assert_eq!(base.ty, ty);
        assert_eq!(base.def, name);
        assert_eq!(base.ty.high_bit(), high);
        assert_eq!(base.ty.name(), name);
        assert_eq!(BaseType::from_name(name), Some(ty));
    }
    assert_eq!(BaseType::from_name("i8"), None);
}

#[test]
fn other_base_types_are_rejected() {
    for text in ["i32", "usize", "core::primitive::u8", "(u8, u8)", "[u8; 4]", "r#u8", "u8 u8", "::u8", "<T>::u8", "u8(u8)"] {
        match BaseTypeDef::try_from(text) {
            Ok(_) => panic!("accepted: {text}"),
            Err(e) => assert_eq!(e.message(), INVALID_BASE_TYPE),
        }
    }
    match BaseTypeDef::try_from("let") {
        Ok(_) => panic!("accepted"),
        Err(e) => assert!(matches!(e, Error::Syntax(_))),
    }
}

#[test]
fn range_declaration() {
    let f = field("let a @ 15..3: Custom = Custom::X;");
    assert_eq!(f.name, Some("a".to_string()));
    assert_eq!((f.high_bit, f.low_bit), (15, 3));
    assert_eq!(f.repr, Some("Custom".to_string()));
    assert_eq!(f.default, Some("Custom :: X".to_string()));
    assert!(!f.unshifted);
    assert!(f.doc_attrs.is_empty());
    assert!(!f.is_reserved());
    assert_eq!(f.bit_width(), 13);
    assert_eq!(f.display_kind(), "field");
    assert_eq!(f.display_range(), "[15:3]");
    assert_eq!(f.display_name(), "`a`");
}

#[test]
fn bit_declaration() {
    let f = field("/// Docs.\n#[unshifted] let ready @ 0x8 = 1;");
    assert_eq!((f.high_bit, f.low_bit), (8, 8));
    assert!(f.unshifted);
    assert_eq!(f.doc_attrs.len(), 1);
    assert_eq!(f.display_kind(), "bit");
    assert_eq!(f.display_range(), "8");
    assert_eq!(f.default, Some("1".to_string()));
}

#[test]
fn reserved_declaration() {
    let f = field("let __ @ 3..2 = 1;");
    assert!(f.is_reserved());
    assert_eq!(f.display_name(), "reserved");
    assert_eq!(f.default, Some("1".to_string()));
    assert!(field("let __ @ 4;").is_reserved());
    assert!(field("let _: Bits<3, 2> = 1;").is_reserved());
    assert!(field("let _: Bit<3>;").is_reserved());
    assert_eq!(field("let __: Bit<3>;").name, Some("__".to_string()));
}

#[test]
fn both_spellings_declare_the_same_field() {
    for (a, b) in [
        ("let x @ 7..4;", "let x: Bits<7, 4>;"),
        ("let x @ 7..4: R = R::A;", "let x: Bits<7, 4, R> = R::A;"),
        ("let x @ 5 = 1;", "let x: Bit<5> = 1;"),
        ("let __ @ 7..4 = 0xf;", "let _: Bits<7, 4> = 0xf;"),
        ("#[unshifted] let x @ 5;", "#[unshifted] let x: Bit<5>;"),
    ] {
        let (a, b) = (field(a), field(b));
        assert_eq!(a.name, b.name);
        assert_eq!((a.high_bit, a.low_bit), (b.high_bit, b.low_bit));
        assert_eq!(a.repr, b.repr);
        assert_eq!(a.default, b.default);
        assert_eq!(a.unshifted, b.unshifted);
    }
}

#[test]
fn representations_may_be_any_path() {
    assert_eq!(field("let x @ 7..4: ::a::R;").repr, Some(":: a :: R".to_string()));
    assert_eq!(field("let x: Bits<7, 4, a::R<u8>::S>;").repr, Some("a :: R < u8 > :: S".to_string()));
    assert_eq!(field("let x: Bit::<3>;").high_bit, 3);
}

#[test]
fn bits_of_one_bit_is_a_bit() {
    let f = field("let x @ 5..5;");
    assert_eq!(f.bit_width(), 1);
    assert_eq!(f.display_range(), "5");
}

#[test]
fn malformed_declarations() {
    for text in [
        "fn f() {}",
        "x;",
        "let x;",
        "let x = 1;",
        "let (a, b) @ 3;",
        "let (a, b): Bit<3>;",
        "let ref x: Bit<3>;",
        "let mut x: Bit<3>;",
        "let x: Bit;",
        "let x: Bit<>;",
        "let x: Bit<1, 2, 3>;",
        "let x: Bit<'a>;",
        "let x: Bits<3>;",
        "let x: Bits<3, 2, 1>;",
        "let x: Bits<3, 2, R, R>;",
        "let x: Bits<N, 2>;",
        "let x: Bits<\"3\", 2>;",
        "let x: Other<3>;",
        "let x: <T as U>::Bit;",
        "let x: <T>::Bit<3>;",
        "let x: Bit<3>::Foo;",
        "let x: ::Bit<3>;",
        "let x: Bits<7, 4>::X = 1;",
        "let x: crate::Bit<3>;",
        "let _: Bit<0>::Y;",
        "let _: ::Bits<7, 4> = 1;",
        "let x: Bit::<3>::Foo;",
        "let x: &Bit<3>;",
        "let x @ y;",
        "let x @ ..3;",
        "let x @ 3..;",
        "let x @ 7..=4;",
        "let x @ 'a';",
        "let mut x @ 3;",
        "let x @ 3 = 1 else { return; };",
        "let x: Bit<3> = 1 else { return; };",
    ] {
        match Bitfield::parse(text) {
            Ok(_) => panic!("accepted: {text}"),
            Err(Error::Layout { message, .. }) => {
                assert_eq!(message, INVALID_BITFIELD_DECL_FORM, "{text}")
            }
            Err(Error::Syntax(_)) => assert!(text.contains("(a, b) @"), "{text}"),
            Err(e) => panic!("{e:?}"),
        }
    }
}

#[test]
fn swapped_bounds() {
    assert_eq!(field_error("let x @ 3..7;"), (HIGH_THEN_LOW.to_string(), "3 .. 7".to_string()));
    assert_eq!(field_error("let x: Bits<3, 7>;").0, HIGH_THEN_LOW);
}

#[test]
fn positions_beyond_the_machine() {
    for text in [
        "let x @ 99999999999999999999999999;",
        "let x: Bit<99999999999999999999999999>;",
        "let x: Bits<99999999999999999999999999, 0>;",
    ] {
        match Bitfield::parse(text) {
            Ok(_) => panic!("accepted: {text}"),
            Err(e) => assert_eq!(e.message(), NUMBER_TOO_LARGE),
        }
    }
}

#[test]
fn attributes_of_fields() {
    assert_eq!(
        field_error("#[unshifted] #[unshifted] let x @ 3;"),
        (DUPLICATE_UNSHIFTED.to_string(), "# [unshifted]".to_string())
    );
    assert_eq!(
        field_error("#[inline] let x @ 3;"),
        (NO_ATTRIBUTES.to_string(), "# [inline]".to_string())
    );
    assert_eq!(field_error("/// Docs.\nlet __ @ 3;").0, RESERVED_DOC);
    assert_eq!(
        field_error("#[unshifted] let __ @ 3;"),
        (RESERVED_UNSHIFTED.to_string(), "__ @ 3".to_string())
    );
}

#[test]
fn representations() {
    assert_eq!(
        field_error("let __ @ 3..2: R;"),
        (RESERVED_REPR.to_string(), "R".to_string())
    );
    assert_eq!(field_error("let x @ 3: R;").0, BIT_REPR);
    assert_eq!(field_error("let x: Bit<3, R>;").0, BIT_REPR);
    assert_eq!(field_error("let x: Bits<3, 3, R>;").0, BIT_REPR);
    assert_eq!(field_error("#[unshifted] let x @ 3..2: R;").0, REPR_UNSHIFTED);
}

#[test]
fn narrowest_types() {
    for (high, ty) in [
        (1, BaseType::U8),
        (7, BaseType::U8),
        (8, BaseType::U16),
        (15, BaseType::U16),
        (16, BaseType::U32),
        (31, BaseType::U32),
        (32, BaseType::U64),
        (63, BaseType::U64),
        (64, BaseType::U128),
        (127, BaseType::U128),
    ] {
        let f = field(&format!("let x @ {high}..0;"));
        assert_eq!(f.minimum_width_integral_type(), ty);
    }
}

#[test]
fn sequences_of_fields() {
    let fields = match Bitfields::parse("let a @ 3; let b @ 2..1; let __ @ 0;") {
        Ok((fields, _)) => fields.0,
        Err(e) => panic!("{e:?}"),
    };
    assert_eq!(names(&fields), ["`a`", "`b`", "reserved"]);
    assert!(matches!(Bitfields::parse(""), Ok((fields, None)) if fields.0.is_empty()));
    assert!(matches!(
        Bitfields::parse("let a @ 3; let b; let c;"),
        Err(Error::Layout { at, .. }) if at == "let b ;"
    ));
    assert!(matches!(Bitfields::parse("let a @ 3"), Err(Error::Syntax(_))));
}

#[test]
fn sorting_by_the_low_bit_is_stable() {
    let text = "let a @ 5..4; let b @ 1; let c @ 4; let d @ 0; let e @ 7..4; let f @ 3..2;";
    let fields = match Bitfields::parse(text) {
        Ok((fields, _)) => fields.0,
        Err(e) => panic!("{e:?}"),
    };
    let sorted = sort_fields(fields);
    assert_eq!(names(&sorted), ["`d`", "`b`", "`f`", "`a`", "`c`", "`e`"]);
}

#[test]
fn structs() {
    let (ty, rest, late) = match TypeDef::parse("/// Docs.\n#[derive(Hash)] pub(crate) struct S(pub u16); {}") {
        Ok(parts) => parts,
        Err(e) => panic!("{e:?}"),
    };
    assert_eq!(ty.ident, "S");
    assert_eq!(ty.vis, "pub (crate)");
    assert_eq!(ty.body, "pub (crate) struct S (pub u16) ;");
    assert_eq!(ty.attrs.len(), 2);
    assert_eq!(ty.attrs[1], "# [derive (Hash)]");
    assert!(!ty.repr);
    assert_eq!(ty.base.ty, BaseType::U16);
    assert_eq!(rest, "{ }");
    assert_eq!(late, None);
    let (ty, _, _) = TypeDef::parse("#[repr(C)] struct S(u8);").unwrap();
    assert!(ty.repr);
}

#[test]
fn redundant_derives() {
    for name in ["Copy", "Clone", "Debug", "Default", "Eq", "PartialEq"] {
        assert_eq!(
            type_error(&format!("#[derive(Hash, {name})] struct S(u8);")),
            (format!("layout! already derives {name}"), name.to_string())
        );
    }
    assert!(TypeDef::parse("#[derive(Hash, ::core::clone::Clone)] struct S(u8);").is_ok());
    assert!(matches!(
        TypeDef::parse("#[derive(Hash Ord)] struct S(u8);"),
        Err(Error::Syntax(_))
    ));
}

#[test]
fn malformed_structs() {
    assert_eq!(type_error("struct S();").0, NO_BASE_TYPE);
    assert_eq!(type_error("struct S(u8, u8);").0, TOO_MANY_FIELDS);
    assert_eq!(type_error("struct S;").0, NO_TUPLE_STRUCT);
    assert_eq!(type_error("struct S { a: u8 }").0, NO_TUPLE_STRUCT);
    assert_eq!(type_error("struct S<T>(u8);"), (NO_GENERICS.to_string(), "< T >".to_string()));
    assert_eq!(
        type_error("struct S(u8) where u8: Copy;"),
        (NO_GENERICS.to_string(), "where u8 : Copy".to_string())
    );
    assert_eq!(type_error("struct S(u8) where;").0, NO_GENERICS);
    assert_eq!(type_error("struct S(i8);"), (INVALID_BASE_TYPE.to_string(), "i8".to_string()));
    assert!(matches!(TypeDef::parse("enum E {}"), Err(Error::Syntax(_))));
}

#[test]
fn braces() {
    assert_eq!(layout_error(""), Error::Syntax(MISSING_BRACES.to_string()));
    assert_eq!(layout_error("struct S(u8); {}"), Error::Syntax(EXPECTED_BRACES.to_string()));
    assert_eq!(layout_error("(struct S(u8); {})"), Error::Syntax(EXPECTED_BRACES.to_string()));
    assert_eq!(layout_error("{ struct S(u8); }"), Error::Syntax(MISSING_BRACES.to_string()));
    assert_eq!(layout_error("{ struct S(u8); () }"), Error::Syntax(EXPECTED_BRACES.to_string()));
    assert_eq!(
        layout_error("{ struct S(u8); {} {} }"),
        Error::Syntax(UNEXPECTED_INSIDE.to_string())
    );
    assert_eq!(layout_error("{ struct S(u8); {} } x"), Error::Syntax(UNEXPECTED_TOKEN.to_string()));
    assert!(matches!(layout_error("{"), Error::Syntax(_)));
}

#[test]
fn leftovers_in_groups_come_last() {
    let in_brackets = Error::Syntax("unexpected token, expected `]`".to_string());
    let in_parens = Error::Syntax("unexpected token, expected `)`".to_string());
    assert_eq!(
        layout_error("{ struct S(u8); { let a: Bit<0> = [1; 2 3]; let b: Bit<9>; } }").message(),
        "high bit 9 exceeds the highest possible value of 7"
    );
    assert_eq!(
        layout_error("{ struct S(u8); { let a @ 0 = [1; 2 3]; let b; } }").message(),
        INVALID_BITFIELD_DECL_FORM
    );
    assert_eq!(
        layout_error("{ struct S([u8; 3 4]); {} }").message(),
        INVALID_BASE_TYPE
    );
    assert_eq!(layout_error("{ struct S(u8); { let a @ 0 = [1; 2 3]; } }"), in_brackets);
    assert_eq!(layout_error("{ struct S(u8); { let a @ 0 = [1; 2 3]; } x } y"), in_brackets);
    assert_eq!(
        layout_error("{ pub(in a b) struct S(u8); { let a @ 0 = [1; 2 3]; } }"),
        in_parens
    );
    assert_eq!(layout_error("{ #[a b] struct S(u8); { let a @ 0; } }"), in_brackets);
    assert_eq!(layout_error("{ struct S(u8); { #[doc a b] let a @ 0; } }"), in_brackets);
    assert_eq!(
        layout_error("{ struct S(u8); { let a @ 3..0: [u8; 1 2]; let b @ 5; } }"),
        in_brackets
    );
    assert_eq!(
        layout_error("{ struct S(u8); { let a @ 0 = { fn f(x: [u8; 1 2]); 1 }; let b @ 9; } }")
            .message(),
        "high bit 9 exceeds the highest possible value of 7"
    );
    assert_eq!(
        layout_error("{ struct S(u8); { let const { [1; 2 3] }: Bit<3>; } }").message(),
        INVALID_BITFIELD_DECL_FORM
    );
    assert_eq!(
        layout_error("{ struct S(u8); { let a: Bits<3, 0, dyn* F<[u8; 1 2]>>; let b @ 9; } }")
            .message(),
        "high bit 9 exceeds the highest possible value of 7"
    );
    assert_eq!(
        layout_error(
            "{ #[a = { fn f(x: [u8; 1 2]); 1 }] struct S(u8); {
                #[doc = { fn f(x: [u8; 1 2]); 1 }] let b @ 9;
            } }"
        )
        .message(),
        "high bit 9 exceeds the highest possible value of 7"
    );
    match Bitfield::parse("let a @ 0 = f[1 2]; rest") {
        Ok((f, rest, late)) => {
            assert_eq!(f.default, Some("f [1]".to_string()));
            assert_eq!(rest, "rest");
            assert_eq!(late, Some("unexpected token, expected `]`".to_string()));
        }
        Err(e) => panic!("{e:?}"),
    }
}

#[test]
fn overlaps() {
    assert_eq!(
        layout_error("{ struct S(u8); { let a @ 7..4; let b @ 3..0; let c @ 5; } }"),
        Error::Layout {
            message: "`c` (bit 5) overlaps with `a` (field [7:4])".to_string(),
            at: "let c @ 5 ;".to_string(),
        }
    );
    assert_eq!(
        layout_error("{ struct S(u8); { let a @ 3..0; let __ @ 2..1; } }").message(),
        "reserved (field [2:1]) overlaps with `a` (field [3:0])"
    );
    assert_eq!(
        layout_error("{ struct S(u8); { let a @ 4; let b @ 4; } }").message(),
        "`b` (bit 4) overlaps with `a` (bit 4)"
    );
}

#[test]
fn fields_beyond_the_base_type() {
    assert_eq!(
        layout_error("{ struct S(u8); { let a @ 8; } }"),
        Error::Layout {
            message: "high bit 8 exceeds the highest possible value of 7".to_string(),
            at: "let a @ 8 ;".to_string(),
        }
    );
    assert_eq!(
        layout_error("{ struct S(u128); { let b @ 128..1; let a @ 0; } }").message(),
        "high bit 128 exceeds the highest possible value of 127"
    );
}

#[test]
fn named_and_reserved_fields_descend() {
    let layout = Layout::parse(
        "{ struct S(u16); {
            let __ @ 1..0; let a @ 3..2; let __ @ 15..14 = 1; let b @ 13; let __ @ 4 = 0;
        } }",
    )
    .unwrap();
    assert_eq!(names(&layout.named), ["`b`", "`a`"]);
    assert_eq!(layout.reserved.len(), 2);
    assert_eq!((layout.reserved[0].high_bit, layout.reserved[1].high_bit), (15, 4));
}

#[test]
fn fields_in_any_order() {
    let a = parse_named("let a @ 7..4; let b @ 3; let __ @ 2..1 = 1; let c @ 0;");
    let b = parse_named("let c @ 0; let __ @ 2..1 = 1; let a @ 7..4; let b @ 3;");
    assert_eq!(a, ["`a`", "`b`", "`c`"]);
    assert_eq!(a, b);
}

fn parse_named(fields: &str) -> Vec<String> {
    names(&Layout::parse(&format!("{{ struct S(u8); {{ {fields} }} }}")).unwrap().named)
}

#[test]
fn neighbours_may_touch() {
    assert_eq!(parse_named("let a @ 7..4; let b @ 3..0;").len(), 2);
    assert_eq!(parse_named("let a @ 7; let b @ 6..6; let c @ 0;").len(), 3);
}

#[test]
fn small_layouts() {
    for (text, named) in [
        ("{ struct EmptyU8(u8); {} }", 0),
        ("{ struct OneFieldU16(u16); { let a @ 15..0; } }", 1),
        ("{ struct TwoFieldsU32(u32); { let a @ 31..16; let b @ 15..0; } }", 2),
        ("{ struct ThreeFieldsU64(u64); { let a @ 63..32; let b @ 31..16; let c @ 15..0; } }", 3),
        (
            "{ struct FourFieldsU128(u128); {
                let a @ 127..96; let b @ 95..64; let c @ 63..32; let d @ 31..0;
            } }",
            4,
        ),
    ] {
        assert_eq!(Layout::parse(text).unwrap().named.len(), named);
    }
}
