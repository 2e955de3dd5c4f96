use bitfld::instance::{Instance, InvalidBits};
use bitfld::layout::Layout;
use bitfld::register::Register;

#[derive(Clone, Copy, Debug, PartialEq, Eq)]
enum CustomFieldRepr {
    Option1,
    Option2,
}

impl CustomFieldRepr {
    fn bits(self) -> u128 {
        match self {
            CustomFieldRepr::Option1 => 0xa,
            CustomFieldRepr::Option2 => 0xf,
        }
    }
}

fn read_custom(value: u128) -> Option<CustomFieldRepr> {
    match value {
        0xa => Some(CustomFieldRepr::Option1),
        0xf => Some(CustomFieldRepr::Option2),
        _ => None,
    }
}

const EXAMPLE: &str = "{
    pub struct Example(u64);
    {
        let u32_repr @ 44..27;
        let custom @ 26..23: CustomFieldRepr;
        let custom_with_default @ 22..19: CustomFieldRepr =
            CustomFieldRepr::Option1;
        let __ @ 18..11 = 0xef;
        let with_default @ 10..9 = 0b11;
        let bit @ 8;
        let u8_repr @ 7..4;
        let __ @ 3..2 = 1;
        let __ @ 1..0;
    }
}";

const UNSHIFTED: &str = "{
    struct Unshifted(u32);
    {
        let field @ 19..16;
        #[unshifted]
        let unshifted_field @ 15..12;
        let __ @ 11..9;
        #[unshifted]
        let unshifted_bit @ 8;
        let normal_bit @ 7;
        let __ @ 6..0;
    }
}";

fn example_register() -> Register {
    let layout = Layout::parse(EXAMPLE).unwrap();
    let defaults = vec![0, 0, CustomFieldRepr::Option1.bits(), 0b11, 0, 0];
    let values = vec![0xef, 1];
    match Register::from_layout(&layout, &defaults, &values) {
        Ok(register) => register,
        Err(e) => panic!("{e:?}"),
    }
}

fn unshifted_register() -> Register {
    let layout = Layout::parse(UNSHIFTED).unwrap();
    match Register::from_layout(&layout, &vec![0, 0, 0, 0], &vec![]) {
        Ok(register) => register,
        Err(e) => panic!("{e:?}"),
    }
}

fn get_custom(x: &Instance, name: &str) -> Result<CustomFieldRepr, InvalidBits> {
    let i = x.register.index_of(name).unwrap();
    x.get_repr(i, read_custom(x.get(i)))
}

fn get(x: &Instance, name: &str) -> u128 {
    x.get(x.register.index_of(name).unwrap())
}

fn get_flag(x: &Instance, name: &str) -> bool {
    x.get_bit(x.register.index_of(name).unwrap())
}

fn set(x: &mut Instance, name: &str, value: u128) {
    let i = x.register.index_of(name).unwrap();
    x.set(i, value);
}

fn set_flag(x: &mut Instance, name: &str, value: bool) {
    let i = x.register.index_of(name).unwrap();
    x.set_bit(i, value);
}

#[test]
fn constants() {
    let r = example_register();
    assert_eq!(r.rsvd1_mask(), (0xef << 11) | (0b01 << 2));
    assert_eq!(r.rsvd0_mask(), (0x10 << 11) | (0b10 << 2));

    assert_eq!(
        r.default_word(),
        (0xef << 11)
            | (0b01 << 2)
            | (CustomFieldRepr::Option1.bits() << 19)
            | (0b11 << 9)
    );

    let u32_repr = r.index_of("u32_repr").unwrap();
    assert_eq!(r.mask(u32_repr), 0x1ffff8000000);
    assert_eq!(r.shift(u32_repr), 27usize);

    let custom = r.index_of("custom").unwrap();
    assert_eq!(r.mask(custom), 0x7800000);
    assert_eq!(r.shift(custom), 23usize);

    let custom_with_default = r.index_of("custom_with_default").unwrap();
    assert_eq!(r.mask(custom_with_default), 0x780000);
    assert_eq!(r.shift(custom_with_default), 19usize);

    assert_eq!(r.reserved_bits(18, 11), Some(0xef << 11));

    let with_default = r.index_of("with_default").unwrap();
    assert_eq!(r.mask(with_default), 0x600);
    assert_eq!(r.shift(with_default), 9usize);

    assert_eq!(r.shift(r.index_of("bit").unwrap()), 8usize);

    let u8_repr = r.index_of("u8_repr").unwrap();
    assert_eq!(r.mask(u8_repr), 0xf0);
    assert_eq!(r.shift(u8_repr), 4usize);

    assert_eq!(r.reserved_bits(3, 2), Some(1 << 2));
}

// A new word has only reserved-as values set.
#[test]
fn new() {
    let r = example_register();
    assert_eq!(Instance::new(&r).bits, r.rsvd1_mask());
}

// A default word has only defaults and reserved-as values set.
#[test]
fn default() {
    let r = example_register();
    assert_eq!(Instance::default(&r).bits, r.default_word());
}

#[test]
fn from() {
    let r = example_register();
    assert_eq!(Instance::from(&r, 0 | r.rsvd1_mask()).bits, 0 | r.rsvd1_mask());
    assert_eq!(Instance::from(&r, 1 | r.rsvd1_mask()).bits, 1 | r.rsvd1_mask());
    assert_eq!(
        Instance::from(&r, 0xffff_0000_0000_0000 | r.rsvd1_mask()).bits,
        0xffff_0000_0000_0000 | r.rsvd1_mask()
    );
}

#[test]
fn derefmut_does_not_respect_reserved() {
    let r = example_register();
    let mut example = Instance::from(&r, r.rsvd1_mask());
    example.bits &= !r.rsvd1_mask();
    assert_eq!(example.bits, 0);
}

#[test]
fn from_then_get() {
    let r = example_register();
    let example = Instance::from(
        &r,
        0xabcd << 27
            | CustomFieldRepr::Option1.bits() << 23
            | CustomFieldRepr::Option2.bits() << 19
            | 0b10 << 9
            | 1 << 8
            | 0xc << 4
            | r.rsvd1_mask(),
    );
    assert_eq!(get(&example, "u32_repr"), 0xabcd);
    assert_eq!(get_custom(&example, "custom").unwrap(), CustomFieldRepr::Option1);
    assert_eq!(get_custom(&example, "custom_with_default").unwrap(), CustomFieldRepr::Option2);
    assert_eq!(get(&example, "with_default"), 0b10);
    assert!(get_flag(&example, "bit"));
    assert_eq!(get(&example, "u8_repr"), 0xc);
}

fn filled_example(r: &Register) -> Instance<'_> {
    let mut example = Instance::new(r);
    set(&mut example, "u32_repr", 0xabcd);
    set(&mut example, "custom", CustomFieldRepr::Option1.bits());
    set(&mut example, "custom_with_default", CustomFieldRepr::Option2.bits());
    set(&mut example, "with_default", 0b10);
    set_flag(&mut example, "bit", true);
    set(&mut example, "u8_repr", 0xc);
    example
}

#[test]
fn set_then_get() {
    let r = example_register();
    let example = filled_example(&r);
    assert_eq!(get(&example, "u32_repr"), 0xabcd);
    assert_eq!(get_custom(&example, "custom").unwrap(), CustomFieldRepr::Option1);
    assert_eq!(get_custom(&example, "custom_with_default").unwrap(), CustomFieldRepr::Option2);
    assert_eq!(get(&example, "with_default"), 0b10);
    assert!(get_flag(&example, "bit"));
    assert_eq!(get(&example, "u8_repr"), 0xc);
}

#[test]
fn iter() {
    let r = example_register();
    let example = filled_example(&r);

    let expected: [(u128, &str, usize, usize, u128); 6] = [
        (0xabcd, "u32_repr", 44, 27, 0),
        (0xa, "custom", 26, 23, 0),
        (0xf, "custom_with_default", 22, 19, 0xa),
        (0b10, "with_default", 10, 9, 0b11),
        (0b1, "bit", 8, 8, 0),
        (0xc, "u8_repr", 7, 4, 0),
    ];

    let mut actual = Vec::new();
    let mut forward = example.iter();
    while let Some(entry) = forward.next() {
        actual.push(entry);
    }
    let mut rev_actual = Vec::new();
    let mut backward = example.iter();
    while let Some(entry) = backward.next_back() {
        rev_actual.push(entry);
    }

    assert_eq!(actual.len(), expected.len());
    assert_eq!(rev_actual.len(), expected.len());
    for i in 0..expected.len() {
        let (value, name, high_bit, low_bit, default) = expected[i];
        for (label, (metadata, actual_value)) in [
            ("fwd", &actual[i]),
            ("rev", &rev_actual[expected.len() - 1 - i]),
        ] {
            assert_eq!(*actual_value, value, "{label}:{i}");
            assert_eq!(metadata.name, name, "{label}:{i}");
            assert_eq!(metadata.high_bit, high_bit, "{label}:{i}");
            assert_eq!(metadata.low_bit, low_bit, "{label}:{i}");
            assert_eq!(metadata.default, default, "{label}:{i}");
        }
    }
}

#[test]
fn unshifted_multi_bit_getter() {
    let r = unshifted_register();
    let val = Instance::from(&r, 0x5 << 12);
    assert_eq!(get(&val, "unshifted_field"), 0x5000);
}

#[test]
fn unshifted_multi_bit_setter() {
    let r = unshifted_register();
    let mut val = Instance::new(&r);
    set(&mut val, "unshifted_field", 0xa000);
    assert_eq!(get(&val, "unshifted_field"), 0xa000);
    assert_eq!(val.bits & (0xf << 12), 0xa000);
}

#[test]
fn unshifted_single_bit_getter() {
    let r = unshifted_register();
    let val = Instance::from(&r, 1 << 8);
    assert_eq!(get(&val, "unshifted_bit"), 1 << 8);

    let val = Instance::from(&r, 0);
    assert_eq!(get(&val, "unshifted_bit"), 0);
}

#[test]
fn unshifted_single_bit_setter() {
    let r = unshifted_register();
    let mut val = Instance::new(&r);
    set(&mut val, "unshifted_bit", 1 << 8);
    assert_eq!(get(&val, "unshifted_bit"), 1 << 8);

    set(&mut val, "unshifted_bit", 0);
    assert_eq!(get(&val, "unshifted_bit"), 0);
}

#[test]
fn unshifted_round_trip() {
    let r = unshifted_register();
    let mut val = Instance::new(&r);
    set(&mut val, "unshifted_field", 0x7000);
    set(&mut val, "unshifted_bit", 1 << 8);
    set(&mut val, "field", 0xa);
    set_flag(&mut val, "normal_bit", true);
    assert_eq!(get(&val, "unshifted_field"), 0x7000);
    assert_eq!(get(&val, "unshifted_bit"), 1 << 8);
    assert_eq!(get(&val, "field"), 0xa);
    assert!(get_flag(&val, "normal_bit"));
}

#[test]
fn unshifted_ignores_other_bits() {
    let r = unshifted_register();
    let val = Instance::from(&r, 0xffff_ffff);
    assert_eq!(get(&val, "unshifted_field"), 0xf000);
    assert_eq!(get(&val, "unshifted_bit"), 1 << 8);
}
