use bitfld::base::BaseType;
use bitfld::instance::{Instance, InvalidBits};
use bitfld::layout::Layout;
use bitfld::register::{DefaultError, Register};
use bitfld::text::{concat_all, decimal, fill, is_number, quoted, read_decimal, same, suffixed};
use bitfld::word::{get_bit, get_field, set_bit, set_field, shifted_mask};

fn register(text: &str, defaults: Vec<u128>, values: Vec<u128>) -> Register {
    let layout = Layout::parse(text).unwrap();
    match Register::from_layout(&layout, &defaults, &values) {
        Ok(register) => register,
        Err(e) => panic!("{e:?}"),
    }
}

fn misfit(text: &str, defaults: Vec<u128>, values: Vec<u128>) -> DefaultError {
    let layout = Layout::parse(text).unwrap();
    match Register::from_layout(&layout, &defaults, &values) {
        Ok(_) => panic!("accepted: {text}"),
        Err(e) => e,
    }
}

const MIXED: &str = "{
    struct Mixed(u16);
    {
        let a @ 15..12 = 5;
        let __ @ 11..10 = 0b01;
        #[unshifted] let b @ 9..6;
        let c @ 5;
        let __ @ 4..2 = 0b101;
        let d @ 1..0 = 3;
    }
}";

fn mixed() -> Register {
    register(MIXED, vec![5, 0, 0, 3], vec![0b01, 0b101])
}

#[test]
fn reserved_masks() {
    let r = mixed();
    assert_eq!(r.base, BaseType::U16);
    assert_eq!(r.rsvd1_mask(), 0b0000_0100_0001_0100);
    assert_eq!(r.rsvd0_mask(), 0b0000_1000_0000_1000);
    assert_eq!(r.rsvd1_mask() & r.rsvd0_mask(), 0);
    for i in 0..4 {
        assert_eq!(r.mask(i) & (r.rsvd1_mask() | r.rsvd0_mask()), 0);
        for j in 0..i {
            assert_eq!(r.mask(i) & r.mask(j), 0);
        }
    }
    assert_eq!(r.reserved_bits(11, 10), Some(0b01 << 10));
    assert_eq!(r.reserved_bits(11, 9), None);
    assert_eq!(r.reserved_bits(5, 5), None);
}

#[test]
fn respecting_reserved_bits() {
    let r = mixed();
    assert!(r.respects(r.rsvd1_mask()));
    assert!(r.respects(r.default_word()));
    assert!(r.respects(!r.rsvd0_mask()));
    assert!(!r.respects(0));
    assert!(!r.respects(r.rsvd1_mask() | 0b1000));
    assert!(!r.respects(r.rsvd1_mask() & !0b100));
}

#[test]
fn defaults_of_fields() {
    let r = mixed();
    assert_eq!(r.field_default(0), Some(5 << 12));
    assert_eq!(r.field_default(1), None);
    assert_eq!(r.field_default(3), Some(3));
    let x = Instance::default(&r);
    assert_eq!(x.bits, (5 << 12) | 3 | r.rsvd1_mask());
    assert_eq!(x.get(0), 5);
    assert_eq!(x.get(1), 0);
    assert_eq!(x.get(3), 3);
    assert!(!x.get_bit(2));
}

#[test]
fn new_words_read_zero() {
    let r = mixed();
    let x = Instance::new(&r);
    for i in 0..4 {
        assert_eq!(x.get(i), 0);
    }
    assert!(r.respects(x.bits));
}

#[test]
fn writes_are_read_back_and_leave_the_rest() {
    let r = mixed();
    let mut x = Instance::default(&r);
    x.set(1, 0b1010 << 6);
    assert_eq!(x.get(1), 0b1010 << 6);
    assert_eq!((x.get(0), x.get(3)), (5, 3));
    x.set_bit(2, true);
    assert!(x.get_bit(2));
    assert_eq!(x.get(2), 1);
    x.set(0, 0xc);
    assert_eq!((x.get(0), x.get(1), x.get(2), x.get(3)), (0xc, 0b1010 << 6, 1, 3));
    assert!(r.respects(x.bits));
    x.set_bit(2, false);
    assert!(!x.get_bit(2));
}

#[test]
fn writing_back_changes_nothing() {
    let r = mixed();
    let mut x = Instance::from(&r, 0xb7d7 & !r.rsvd0_mask() | r.rsvd1_mask());
    let before = x.bits;
    for i in 0..4 {
        let value = x.get(i);
        x.set(i, value);
        assert_eq!(x.bits, before);
    }
}

#[test]
fn writes_commute_and_the_last_counts() {
    let r = mixed();
    let mut x = Instance::new(&r);
    x.set(0, 9);
    x.set(3, 2);
    let mut y = Instance::new(&r);
    y.set(3, 2);
    y.set(0, 1);
    y.set(0, 9);
    assert_eq!(x.bits, y.bits);
}

#[test]
fn only_the_bits_of_the_field_are_written() {
    let r = mixed();
    let mut x = Instance::new(&r);
    x.set(0, 0xf5);
    assert_eq!(x.get(0), 5);
    assert_eq!(x.bits, (5 << 12) | r.rsvd1_mask());
    x.set(1, 0xffff);
    assert_eq!(x.get(1), 0xf << 6);
    assert_eq!(x.get(0), 5);
}

#[test]
fn unshifted_values_stand_in_place() {
    let r = mixed();
    let mut x = Instance::new(&r);
    x.set(1, 0b0110 << 6);
    let mut entries = x.iter();
    entries.next();
    let (metadata, value) = entries.next().unwrap();
    assert_eq!(metadata.name, "b");
    assert_eq!(value, 0b0110);
    assert_eq!(x.get(1), value << metadata.low_bit);
}

#[test]
fn iteration_from_both_ends() {
    let r = mixed();
    let x = Instance::default(&r);
    let mut entries = x.iter();
    assert_eq!(entries.next().unwrap().0.name, "a");
    assert_eq!(entries.next_back().unwrap().0.name, "d");
    assert_eq!(entries.next_back().unwrap().0.name, "c");
    assert_eq!(entries.next().unwrap().0.name, "b");
    assert!(entries.next().is_none());
    assert!(entries.next_back().is_none());
}

#[test]
fn fields_of_full_width() {
    let r = register("{ struct W(u8); { let a @ 7..0; } }", vec![0], vec![]);
    let mut x = Instance::new(&r);
    x.set(0, 0xa5);
    assert_eq!(x.get(0), 0xa5);
    assert_eq!(x.iter().next().unwrap().1, 0xa5);

    let r = register("{ struct W(u128); { let a @ 127..0 = 1; } }", vec![u128::MAX - 1], vec![]);
    let x = Instance::default(&r);
    assert_eq!(x.get(0), u128::MAX - 1);
    assert_eq!(x.iter().next_back().unwrap().1, u128::MAX - 1);
    assert_eq!(r.mask(0), u128::MAX);
}

#[test]
fn representations_of_invalid_bits() {
    let r = register("{ struct S(u8); { let a @ 5..2: Kind; } }", vec![0], vec![]);
    let x = Instance::from(&r, 0b0010_1100);
    assert_eq!(x.get_repr(0, Some('k')), Ok('k'));
    assert_eq!(x.get_repr::<char>(0, None), Err(InvalidBits(0b1011)));
}

#[test]
fn defaults_that_do_not_fit() {
    let text = "{ struct S(u8); { let a @ 7..6 = 0; let b @ 5..4 = 0; let __ @ 3..2 = 0; } }";
    assert_eq!(misfit(text, vec![0, 4], vec![0]), DefaultError::Named(1));
    assert_eq!(misfit(text, vec![0, 3], vec![4]), DefaultError::Reserved(0));
    assert_eq!(misfit(text, vec![0, 7], vec![7]), DefaultError::Named(1));
    // What the shift moves out of the base type is not looked at.
    let r = register(text, vec![0b101, 3], vec![3]);
    assert_eq!(r.default_word(), 0b0111_1100);
    assert_eq!(Instance::default(&r).get(0), 1);
}

#[test]
fn values_of_missing_defaults_are_not_looked_at() {
    let r = register("{ struct S(u8); { let a @ 3..2; } }", vec![0xff], vec![]);
    assert_eq!(r.default_word(), 0);
    assert_eq!(r.fields[0].metadata.default, 0);
}

#[test]
fn fields_are_found_by_name() {
    let r = mixed();
    assert_eq!(r.index_of("c"), Some(2));
    assert_eq!(r.index_of("e"), None);
    assert_eq!(r.shift(2), 5);
}

#[test]
fn words() {
    assert_eq!(shifted_mask(7, 4), 0xf);
    assert_eq!(shifted_mask(127, 0), u128::MAX);
    assert!(get_bit(0x100, 8));
    assert!(!get_bit(0x100, 7));
    assert_eq!(get_field(0xabcd, 11, 4, true), 0xbc);
    assert_eq!(get_field(0xabcd, 11, 4, false), 0xbc0);
    let mut v = 0xabcd;
    set_field(&mut v, 11, 4, true, 0x12);
    assert_eq!(v, 0xa12d);
    set_field(&mut v, 11, 4, false, 0xffff);
    assert_eq!(v, 0xaffd);
    set_bit(&mut v, 0, false);
    assert_eq!(v, 0xaffc);
    set_bit(&mut v, 127, true);
    assert_eq!(v, (1 << 127) | 0xaffc);
}

#[test]
fn texts() {
    assert!(same("ab", "ab"));
    assert!(!same("ab", "abc"));
    assert_eq!(decimal(0), "0");
    assert_eq!(decimal(9070), "9070");
    assert_eq!(suffixed(12), "12usize");
    assert_eq!(quoted("a b"), "\"a b\"");
    assert_eq!(concat_all(&vec!["a".to_string(), "".to_string(), "bc".to_string()]), "abc");
    assert_eq!(read_decimal("0042"), Some(42));
    assert_eq!(read_decimal("4x"), None);
    assert_eq!(read_decimal("99999999999999999999999999"), None);
    assert!(is_number("99999999999999999999999999"));
    assert!(!is_number("-1"));
    assert_eq!(fill("$0-$1$0 $2 $", &vec!["a", "$0"]), "a-$0a $2 $");
}
