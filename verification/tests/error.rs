use raycaster::text::decimal_string;
use raycaster::{Error, Ray, Vec2};

#[test]
fn kinds_are_named() {
    assert_eq!(Error::IO(String::from("disk")).kind(), "I/O");
    assert_eq!(Error::OutOfBounds { value: 3, range: 0..2 }.kind(), "OutOfBounds");
    assert_eq!(
        Error::OutOfBounds2D { point: (1, 2), range: (0..1, 0..1) }.kind(),
        "OutOfBounds2D"
    );
}

#[test]
fn messages_spell_out_the_values() {
    assert_eq!(Error::IO(String::from("disk")).message(), Some(String::from("disk")));
    assert_eq!(
        Error::OutOfBounds { value: 0, range: 1..-1 }.message(),
        Some(String::from("value 0 out of bounds (1..-1)"))
    );
    assert_eq!(
        Error::OutOfBounds { value: -17, range: -4..250 }.message(),
        Some(String::from("value -17 out of bounds (-4..250)"))
    );
    assert_eq!(
        Error::OutOfBounds2D { point: (4, 0), range: (0..4, 0..3) }.message(),
        Some(String::from("point (4, 0) is out of bounds (0..4, 0..3)"))
    );
}

#[test]
fn to_string_joins_kind_and_message() {
    assert_eq!(Error::IO(String::from("disk")).to_string(), "I/O: disk");
    assert_eq!(Error::IO(String::new()).to_string(), "I/O: ");
    assert_eq!(
        Error::OutOfBounds { value: 0, range: 1..-1 }.to_string(),
        "OutOfBounds: value 0 out of bounds (1..-1)"
    );
    assert_eq!(
        Error::OutOfBounds2D { point: (120, 7), range: (0..100, 0..5) }.to_string(),
        "OutOfBounds2D: point (120, 7) is out of bounds (0..100, 0..5)"
    );
}

#[test]
fn decimal_string_writes_whole_numbers() {
    assert_eq!(decimal_string(0), "0");
    assert_eq!(decimal_string(9), "9");
    assert_eq!(decimal_string(10), "10");
    assert_eq!(decimal_string(-1), "-1");
    assert_eq!(decimal_string(1234567890), "1234567890");
    assert_eq!(decimal_string(i32::MIN as i128), "-2147483648");
    assert_eq!(decimal_string(u64::MAX as i128), "18446744073709551615");
    assert_eq!(decimal_string(i128::MAX), "170141183460469231731687303715884105727");
    assert_eq!(decimal_string(i128::MIN), "-170141183460469231731687303715884105728");
}

#[test]
fn ray_without_samples_is_out_of_bounds() {
    match Ray::new(Vec2::new(0i32, 0), Vec2::new(1, 0), 0, 1) {
        Err(Error::OutOfBounds { value, range }) => {
            assert_eq!(value, 0);
            assert_eq!(range, 1..-1);
        }
        _ => panic!("a ray of no samples must be refused"),
    }
    match Ray::new(Vec2::new(0u8, 0), Vec2::new(1, 0), 0, 1) {
        Err(e) => assert_eq!(e.to_string(), "OutOfBounds: value 0 out of bounds (1..-1)"),
        Ok(_) => panic!("a ray of no samples must be refused"),
    }
}
