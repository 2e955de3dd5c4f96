use bitfld::bitfield::Bitfield;
use bitfld::error::Error;
use bitfld::layout::Layout;
use bitfld::typedef::TypeDef;
use proc_macro2::TokenStream;
use std::str::FromStr;

/// The tokens of a text, printed with uniform spaces.
fn tokens(text: &str) -> String {
    match TokenStream::from_str(text) {
        Ok(stream) => stream.to_string(),
        Err(e) => panic!("{e}: {text}"),
    }
}

fn accessors(field: &str, ty: &str) -> String {
    let (field, _, _) = Bitfield::parse(field).unwrap();
    let (ty, _, _) = TypeDef::parse(ty).unwrap();
    tokens(&field.getter_and_setter(&ty))
}

fn parse(text: &str) -> Layout {
    Layout::parse(text).unwrap()
}

#[test]
fn accessors_of_a_bit() {
    assert_eq!(
        accessors("/// Is it ready?\nlet ready @ 8;", "struct Status(u32);"),
        tokens(
            "/// Is it ready?
            #[doc = \"The value of `Status8`.\"]
            #[inline]
            pub const fn ready(&self) -> bool {
                ::bitfld::get_bit!(self.0, 8usize)
            }

            /// Is it ready?
            #[doc = \"Sets the value of `Status8`.\"]
            #[inline]
            pub const fn set_ready(&mut self, value: bool) -> &mut Self {
                ::bitfld::set_bit!(self.0, 8usize, value);
                self
            }"
        )
    );
}

#[test]
fn accessors_of_a_field() {
    assert_eq!(
        accessors("/// How many?\nlet count @ 12..3;", "struct Status(u32);"),
        tokens(
            "/// How many?
            #[doc = \"The value of `Status[12:3]`.\"]
            #[inline]
            pub const fn count(&self) -> u16 {
                ::bitfld::get_field!(u32, u16, 12usize, 3usize, true, self.0)
            }

            #[doc = \"Sets the value of `Status[12:3]`.\"]
            #[inline]
            pub const fn set_count(&mut self, value: u16) -> &mut Self {
                let value = value as u32;
                ::bitfld::set_field!(u32, 12usize, 3usize, true, self.0, value);
                self
            }"
        )
    );
}

#[test]
fn accessors_of_an_unshifted_bit() {
    assert_eq!(
        accessors("#[unshifted] let high @ 63;", "struct Word(u64);"),
        tokens(
            "#[doc = \"The unshifted value of `Word63`.\"]
            #[inline]
            pub const fn high(&self) -> u64 {
                ::bitfld::get_field!(u64, u64, 63usize, 63usize, false, self.0)
            }

            #[doc = \"Sets the unshifted value of `Word63`.\"]
            #[inline]
            pub const fn set_high(&mut self, value: u64) -> &mut Self {
                let value = value as u64;
                ::bitfld::set_field!(u64, 63usize, 63usize, false, self.0, value);
                self
            }"
        )
    );
}

#[test]
fn accessors_of_a_field_with_a_representation() {
    assert_eq!(
        accessors("let kind @ 5..2: a::Kind;", "struct Word(u64);"),
        tokens(
            "#[doc = \"The value of `Word[5:2]`.\"]
            #[inline]
            pub fn kind(&self) -> ::core::result::Result<a::Kind, ::bitfld::InvalidBits<u8>>
            where
                a::Kind: ::zerocopy::TryFromBytes,
            {
                use ::zerocopy::IntoBytes;
                use ::zerocopy::TryFromBytes;
                let value = ::bitfld::get_field!(u64, u8, 5usize, 2usize, true, self.0);
                a::Kind::try_read_from_bytes(value.as_bytes())
                    .map_err(|_| ::bitfld::InvalidBits(value))
            }

            #[doc = \"Sets the value of `Word[5:2]`.\"]
            #[inline]
            pub fn set_kind(&mut self, value: a::Kind) -> &mut Self
            where
                a::Kind: ::zerocopy::IntoBytes + ::zerocopy::Immutable
            {
                use ::zerocopy::IntoBytes;
                use ::zerocopy::FromBytes;
                const {
                    assert!(::core::mem::size_of::<a::Kind>() == ::core::mem::size_of::<u8>())
                }
                let value = u8::read_from_bytes(value.as_bytes()).unwrap() as u64;
                ::bitfld::set_field!(u64, 5usize, 2usize, true, self.0, value);
                self
            }"
        )
    );
}

#[test]
fn a_raw_name_has_a_plain_setter() {
    let text = accessors("let r#type @ 1;", "struct Word(u64);");
    assert!(text.contains("pub const fn r#type (& self) -> bool"));
    assert!(text.contains("pub const fn set_type (& mut self"));
}

const SMALL: &str = "{
    /// Docs.
    pub struct Small(u8);
    {
        let flag @ 7 = 1;
        let __ @ 6..5 = 0b10;
        let kind @ 4..3: Kind;
        #[unshifted]
        let raw @ 2..1;
        let __ @ 0;
    }
}";

#[test]
fn constants_of_a_layout() {
    assert_eq!(
        tokens(&parse(SMALL).constants()),
        tokens(
            "/// Mask of all reserved-as-1 bits.
            pub const RSVD1_MASK: u8 = {
                let mut v: u8 = 0;
                { v |= Self::RSVD_6_5; }
                v
            };
            /// Mask of all reserved-as-0 bits.
            pub const RSVD0_MASK: u8 = {
                let mut v: u8 = 0;
                { v |= !Self::RSVD_6_5 & (::bitfld::shifted_mask!(u8, 6usize, 5) << 5); }
                v
            };
            /// The default value of the layout, combining all field
            /// defaults and reserved-as values.
            pub const DEFAULT: u8 = {
                let mut v: u8 = Self::RSVD1_MASK;
                { v |= Self::FLAG_DEFAULT; }
                v
            };

            #[doc = \"Unshifted bitmask of `flag`.\"]
            pub const FLAG_MASK: u8 = (::bitfld::shifted_mask!(u8, 7usize, 7) << 7);
            #[doc = \"Bit shift (i.e., the low bit) of `flag`.\"]
            pub const FLAG_SHIFT: usize = 7;
            #[doc = \"Pre-shifted default value of the `flag` field.\"]
            pub const FLAG_DEFAULT: u8 = ((1) as u8) << 7;
            #[doc = \"Unshifted bitmask of `kind`.\"]
            pub const KIND_MASK: u8 = (::bitfld::shifted_mask!(u8, 4usize, 3) << 3);
            #[doc = \"Bit shift (i.e., the low bit) of `kind`.\"]
            pub const KIND_SHIFT: usize = 3;
            #[doc = \"Unshifted bitmask of `raw`.\"]
            pub const RAW_MASK: u8 = (::bitfld::shifted_mask!(u8, 2usize, 1) << 1);
            #[doc = \"Bit shift (i.e., the low bit) of `raw`.\"]
            pub const RAW_SHIFT: usize = 1;
            const RSVD_6_5: u8 = (0b10 as u8) << 5;
            #[doc(hidden)]
            const NUM_FIELDS: usize = 3usize;
            /// Metadata of all named fields in the layout.
            pub const FIELDS: [::bitfld::FieldMetadata::<u8>; 3usize] = [
                ::bitfld::FieldMetadata::<u8>{
                    name: \"flag\",
                    high_bit: 7,
                    low_bit: 7,
                    default: 1 as u8,
                },
                ::bitfld::FieldMetadata::<u8>{
                    name: \"kind\",
                    high_bit: 4,
                    low_bit: 3,
                    default: 0 as u8,
                },
                ::bitfld::FieldMetadata::<u8>{
                    name: \"raw\",
                    high_bit: 2,
                    low_bit: 1,
                    default: 0 as u8,
                },
            ];

            #[forbid(overflowing_literals)]
            const fn check_defaults() -> () {
                const {
                    assert!(
                        ((1) as u8) << 7 & !(::bitfld::shifted_mask!(u8, 7usize, 7) << 7) == 0
                    )
                }
                const {
                    assert!(
                        (0b10 as u8) << 5 & !(::bitfld::shifted_mask!(u8, 6usize, 5) << 5) == 0
                    )
                }
            }"
        )
    );
}

#[test]
fn nothing_to_check_without_defaults() {
    let text = parse("{ struct S(u8); { let a @ 7..4; let __ @ 3..0; } }").constants();
    assert!(!text.contains("check_defaults"));
    let text = parse("{ struct S(u8); { let a @ 7..4 = 1; } }").constants();
    assert!(text.contains("check_defaults"));
    let text = parse("{ struct S(u8); { let __ @ 7..4 = 1; } }").constants();
    assert!(text.contains("check_defaults"));
}

#[test]
fn constants_are_named_in_upper_case() {
    let text = parse("{ struct S(u8); { let straße_2 @ 7..4; } }").constants();
    assert!(text.contains("STRASSE_2_MASK"));
    assert!(text.contains("STRASSE_2_SHIFT"));
}

#[test]
fn formatting_function() {
    assert_eq!(
        tokens(&parse(SMALL).fmt_fn(":#o")),
        tokens(
            "fn fmt(&self, f: &mut ::core::fmt::Formatter<'_>) -> ::core::fmt::Result
            where
                Kind: ::core::fmt::Debug,
            {
                let (sep, indent) = if f.alternate() {
                    ('\\n', \"    \")
                } else {
                    (' ', \"\")
                };
                write!(f, \"{} {{{sep}\", \"Small\")?;
                { write!(f, \"{indent}flag: {},{sep}\", self.flag())?; }
                {
                    match self.kind() {
                        Ok(value) => write!(f, \"{indent}kind: {:#?},{sep}\", value),
                        Err(invalid) =>
                            write!(f, \"{indent}kind: InvalidBits({:#o}),{sep}\", invalid.0),
                    }?;
                }
                { write!(f, \"{indent}raw: {:#o},{sep}\", self.raw())?; }
                write!(f, \"}}\")
            }"
        )
    );
}

#[test]
fn formatting_without_representations_has_no_bounds() {
    assert_eq!(
        tokens(&parse("{ struct S(u8); { let a @ 7..4; } }").fmt_fn(":#x")),
        tokens(
            "fn fmt(&self, f: &mut ::core::fmt::Formatter<'_>) -> ::core::fmt::Result {
                let (sep, indent) = if f.alternate() {
                    ('\\n', \"    \")
                } else {
                    (' ', \"\")
                };
                write!(f, \"{} {{{sep}\", \"S\")?;
                { write!(f, \"{indent}a: {:#x},{sep}\", self.a())?; }
                write!(f, \"}}\")
            }"
        )
    );
}

#[test]
fn formatting_traits() {
    let layout = parse("{ struct S(u8); { let a @ 7..4; } }");
    let expected = format!(
        "impl ::core::fmt::Debug for S {{
            fn fmt(&self, f: &mut ::core::fmt::Formatter<'_>) -> ::core::fmt::Result {{
                ::core::fmt::LowerHex::fmt(self, f)
            }}
        }}
        impl ::core::fmt::Binary for S {{ {} }}
        impl ::core::fmt::LowerHex for S {{ {} }}
        impl ::core::fmt::UpperHex for S {{ {} }}
        impl ::core::fmt::Octal for S {{ {} }}",
        layout.fmt_fn(":#b"),
        layout.fmt_fn(":#x"),
        layout.fmt_fn(":#X"),
        layout.fmt_fn(":#o"),
    );
    assert_eq!(tokens(&layout.fmt_impls()), tokens(&expected));
}

#[test]
fn iterators() {
    let next = "let metadata = &r#type::FIELDS[self.1];
        let shifted_mask = u16::MAX
            >> (u16::BITS as usize - 1 - (metadata.high_bit - metadata.low_bit));
        let value = (self.0 >> metadata.low_bit) & shifted_mask;
        self.1 += 1;
        Some((metadata, value))";
    let next_back = "self.2 -= 1;
        let metadata = &r#type::FIELDS[self.2];
        let shifted_mask = u16::MAX
            >> (u16::BITS as usize - 1 - (metadata.high_bit - metadata.low_bit));
        let value = (self.0 >> metadata.low_bit) & shifted_mask;
        Some((metadata, value))";
    let item = "type Item = (&'static ::bitfld::FieldMetadata<u16>, u16);";
    let expected = format!(
        "#[doc(hidden)]
        pub struct typeIter(u16, usize, usize);

        impl ::core::iter::Iterator for typeIter {{
            {item}
            fn next(&mut self) -> Option<Self::Item> {{
                if self.1 >= self.2 {{
                    return None;
                }}
                {next}
            }}
        }}

        impl ::core::iter::DoubleEndedIterator for typeIter {{
            fn next_back(&mut self) -> Option<Self::Item> {{
                if self.1 >= self.2 {{
                    return None;
                }}
                {next_back}
            }}
        }}

        impl r#type {{
            /// Returns an iterator over
            /// ([metadata][`bitfld::FieldMetadata`], value) pairs for each
            /// field.
            pub fn iter(&self) -> typeIter {{
                typeIter(self.0, 0, Self::NUM_FIELDS)
            }}
        }}

        impl ::core::iter::IntoIterator for r#type {{
            {item}
            type IntoIter = typeIter;
            fn into_iter(self) -> Self::IntoIter {{ typeIter(self.0, 0, Self::NUM_FIELDS) }}
        }}

        impl<'a> ::core::iter::IntoIterator for &'a r#type {{
            {item}
            type IntoIter = typeIter;
            fn into_iter(self) -> Self::IntoIter {{ typeIter(self.0, 0, r#type::NUM_FIELDS) }}
        }}"
    );
    let layout = parse("{ pub struct r#type(u16); { let a @ 15..0; } }");
    assert_eq!(tokens(&layout.iter_impl()), tokens(&expected));
}

#[test]
fn whole_layout() {
    let layout = parse(SMALL);
    let expected = format!(
        "#[derive(Copy, Clone, Eq, PartialEq)]
        /// Docs.
        #[repr(transparent)]
        pub struct Small(u8);

        impl Small {{
            {}

            /// Creates a new instance with reserved-as-1 bits set and
            /// all other bits zeroed (i.e., with a value of
            /// [`Self::RSVD1_MASK`]).
            pub const fn new() -> Self {{
                Self(Self::RSVD1_MASK)
            }}

            {}
        }}

        impl ::core::default::Default for Small {{
            /// Returns an instance with the default bits set (i.e,. with a
            /// value of [`Self::DEFAULT`].
            fn default() -> Self {{
                Self(Self::DEFAULT)
            }}
        }}

        impl ::core::convert::From<u8> for Small {{
            #[allow(clippy::bad_bit_mask)]
            fn from(value: u8) -> Self {{
                debug_assert!(
                    value & Self::RSVD1_MASK == Self::RSVD1_MASK,
                    \"from(): Invalid base value ({{value:#x}}) has reserved-as-1 bits ({{:#x}}) unset\",
                    Self::RSVD1_MASK,
                );
                debug_assert!(
                    !value & Self::RSVD0_MASK == Self::RSVD0_MASK,
                    \"from(): Invalid base value ({{value:#x}}) has reserved-as-0 bits ({{:#x}}) set\",
                    Self::RSVD0_MASK,
                );
                Self(value)
            }}
        }}

        impl ::core::ops::Deref for Small {{
            type Target = u8;

            fn deref(&self) -> &Self::Target {{
                &self.0
            }}
        }}

        impl ::core::ops::DerefMut for Small {{
            fn deref_mut(&mut self) -> &mut Self::Target {{
                &mut self.0
            }}
        }}

        {}
        {}",
        layout.constants(),
        layout.getters_and_setters(),
        layout.iter_impl(),
        layout.fmt_impls(),
    );
    assert_eq!(tokens(&bitfld::layout(SMALL).unwrap()), tokens(&expected));
}

#[test]
fn accessors_come_from_the_highest_field_down() {
    let layout = parse(SMALL);
    let expected = format!(
        "{}{}{}",
        layout.named[0].getter_and_setter(&layout.ty),
        layout.named[1].getter_and_setter(&layout.ty),
        layout.named[2].getter_and_setter(&layout.ty),
    );
    assert_eq!(layout.getters_and_setters(), expected);
    assert_eq!(layout.named[2].display_name(), "`raw`");
}

#[test]
fn a_repr_of_its_own_is_kept() {
    let text = bitfld::layout("{ #[repr(C)] struct S(u8); {} }").unwrap();
    assert!(tokens(&text).contains("# [repr (C)] struct S (u8) ;"));
    assert!(!text.contains("transparent"));
}

#[test]
fn appending_keeps_what_was_there() {
    let mut text = "// before\n".to_string();
    let layout = parse("{ struct S(u8); {} }");
    layout.to_tokens(&mut text);
    assert!(text.starts_with("// before\n"));
    assert_eq!(text["// before\n".len()..], bitfld::layout("{ struct S(u8); {} }").unwrap());
}

#[test]
fn expansions_are_items() {
    for text in [
        SMALL,
        "{ struct EmptyU8(u8); {} }",
        "{ pub(crate) struct OneFieldU16(u16); { let a @ 15..0; } }",
        "{ struct Typed(u128); {
            let a: Bits<127, 64> = 1 << 3; let b: Bit<63>; let _: Bits<62, 0> = 5;
        } }",
        "{ struct Custom(u32); { let a @ 31..24: some::path::Kind = some::path::Kind::A; } }",
    ] {
        let expansion = bitfld::layout(text).unwrap();
        assert!(syn::parse_file(&expansion).is_ok(), "{expansion}");
    }
}

#[test]
fn raw_names_have_no_constants() {
    let text = "{ struct S(u8); { let a @ 2; let r#type @ 1; let r#fn @ 0; } }";
    let e = bitfld::layout(text).unwrap_err();
    assert_eq!(e, Error::RawName("R#TYPE".to_string()));
    assert_eq!(e.message(), "\"R#TYPE_MASK\" is not a valid Ident");
}

#[test]
fn layouts_that_do_not_parse_have_no_expansion() {
    assert_eq!(
        bitfld::layout("{ struct S(u8); { let a @ 8; } }").unwrap_err().message(),
        "high bit 8 exceeds the highest possible value of 7"
    );
}

#[test]
fn representation_attribute() {
    assert_eq!(
        tokens(&bitfld::bitfield_repr("u8", "pub enum E { A = 0xa, B = 0xf }")),
        tokens(
            "#[repr(u8)]
            #[derive(
                Debug,
                Eq,
                PartialEq,
                ::zerocopy::Immutable,
                ::zerocopy::IntoBytes,
                ::zerocopy::TryFromBytes,
            )]
            pub enum E { A = 0xa, B = 0xf }"
        )
    );
}
