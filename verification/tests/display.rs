use bitfld::display::Notation;
use bitfld::instance::Instance;
use bitfld::layout::Layout;
use bitfld::radix::{Radix, literal};
use bitfld::register::Register;

fn register(text: &str, defaults: Vec<u128>, values: Vec<u128>) -> Register {
    let layout = Layout::parse(text).unwrap();
    match Register::from_layout(&layout, &defaults, &values) {
        Ok(register) => register,
        Err(e) => panic!("{e:?}"),
    }
}

fn example() -> Register {
    register(
        "{
            pub struct Example(u32);
            {
                let foo @ 21..14;
                let custom @ 13..10: CustomFieldRepr;
                let bar @ 9..8 = 0b11;
                let baz @ 7;
                let frob @ 6..4;
                let __ @ 3..2 = 1;
                let __ @ 1..0;
            }
        }",
        vec![0, 0, 0b11, 0, 0],
        vec![1],
    )
}

fn show(x: &Instance, notation: Notation, alternate: bool, custom: Option<&str>) -> String {
    let mut customs = Vec::new();
    for f in &x.register.fields {
        customs.push(if f.has_repr { custom.map(|c| c.to_string()) } else { None });
    }
    x.fmt(notation, alternate, &customs)
}

#[test]
fn names_and_values_from_the_highest_down() {
    let r = example();
    let mut x = Instance::default(&r);
    x.set(0, 0x1a);
    x.set(1, 0xf);
    x.set(4, 7);
    assert_eq!(
        show(&x, Notation::Debug, false, Some("Option2")),
        "Example { foo: 0x1a, custom: Option2, bar: 0x3, baz: false, frob: 0x7, }"
    );
    assert_eq!(
        show(&x, Notation::UpperHex, false, Some("Option2")),
        "Example { foo: 0x1A, custom: Option2, bar: 0x3, baz: false, frob: 0x7, }"
    );
    assert_eq!(
        show(&x, Notation::Binary, false, None),
        "Example { foo: 0b11010, custom: InvalidBits(0b1111), bar: 0b11, baz: false, frob: 0b111, }"
    );
    x.set_bit(3, true);
    assert_eq!(
        show(&x, Notation::Octal, true, None),
        "Example {\n    foo: 0o32,\n    custom: InvalidBits(0o17),\n    bar: 0o3,\n    baz: true,\n    frob: 0o7,\n}"
    );
}

#[test]
fn debug_looks_like_lower_hex() {
    let r = example();
    let mut x = Instance::new(&r);
    x.set(0, 0xab);
    for alternate in [false, true] {
        assert_eq!(
            show(&x, Notation::Debug, alternate, None),
            show(&x, Notation::LowerHex, alternate, None)
        );
    }
}

#[test]
fn no_fields_no_values() {
    let r = register("{ struct Empty(u8); { let __ @ 7..0 = 5; } }", vec![], vec![5]);
    let x = Instance::new(&r);
    assert_eq!(show(&x, Notation::Debug, false, None), "Empty { }");
    assert_eq!(show(&x, Notation::Debug, true, None), "Empty {\n}");
}

#[test]
fn unshifted_fields_in_text() {
    let r = register(
        "{ struct S(u16); { #[unshifted] let a @ 15..12; #[unshifted] let b @ 8; let c @ 0; } }",
        vec![0, 0, 0],
        vec![],
    );
    let x = Instance::from(&r, 0xa101);
    assert_eq!(show(&x, Notation::LowerHex, false, None), "S { a: 0xa000, b: 256, c: true, }");
    assert_eq!(
        show(&x, Notation::Binary, false, None),
        "S { a: 0b1010000000000000, b: 256, c: true, }"
    );
}

#[test]
fn reserved_bits_do_not_show() {
    let r = example();
    let x = Instance::new(&r);
    let mut y = Instance::new(&r);
    y.bits = 0b11;
    assert_eq!(show(&x, Notation::Debug, false, None), show(&y, Notation::Debug, false, None));
}

#[test]
fn literals() {
    for n in [0, 1, 9, 10, 15, 16, 255, 0xdead_beef, u128::MAX] {
        assert_eq!(literal(n, Radix::Binary), format!("{n:#b}"));
        assert_eq!(literal(n, Radix::Octal), format!("{n:#o}"));
        assert_eq!(literal(n, Radix::Decimal), format!("{n}"));
        assert_eq!(literal(n, Radix::LowerHex), format!("{n:#x}"));
        assert_eq!(literal(n, Radix::UpperHex), format!("{n:#X}"));
    }
}

#[test]
fn conversions() {
    let r = example();
    for debug_assertions in [false, true] {
        for value in [0b0100, 0xffff_fff7, r.default_word()] {
            match Instance::convert(&r, value, debug_assertions) {
                Ok(x) => assert_eq!(x.bits, value),
                Err(e) => panic!("{e}"),
            }
        }
    }
    match Instance::convert(&r, 0xf0, true) {
        Ok(_) => panic!("accepted"),
        Err(e) => assert_eq!(
            e,
            "from(): Invalid base value (0xf0) has reserved-as-1 bits (0x4) unset"
        ),
    }
    match Instance::convert(&r, 0xfc, true) {
        Ok(_) => panic!("accepted"),
        Err(e) => assert_eq!(
            e,
            "from(): Invalid base value (0xfc) has reserved-as-0 bits (0x8) set"
        ),
    }
    for value in [0, 0xf0, 0xfc, 0xffff_ffff] {
        match Instance::convert(&r, value, false) {
            Ok(x) => assert_eq!(x.bits, value),
            Err(e) => panic!("{e}"),
        }
    }
}
