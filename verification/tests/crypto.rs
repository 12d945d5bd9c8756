use mhrise_save_converter::crypto::util::{
    bytes_to_int, int_to_bytes_le, point_add, scalar_mult, EccInteger, Integer,
};

fn integer(value: u64) -> Integer {
    Integer::from_u64(value)
}

fn point(x: u64, y: u64) -> (Integer, Integer) {
    (integer(x), integer(y))
}

fn coords(p: &Option<(Integer, Integer)>) -> Option<(u64, u64)> {
    p.as_ref().map(|(x, y)| {
        (u64::from_le_bytes(x.to_u64_le_bytes()), u64::from_le_bytes(y.to_u64_le_bytes()))
    })
}

#[test]
fn bytes_round_trip_through_an_integer() {
    let value = bytes_to_int(&[0x78, 0x56, 0x34, 0x12]);
    assert_eq!(int_to_bytes_le::<6>(&value), [0x78, 0x56, 0x34, 0x12, 0, 0]);
    assert_eq!(int_to_bytes_le::<2>(&value), [0x78, 0x56]);
    assert_eq!(value.to_u64_le_bytes(), 0x1234_5678u64.to_le_bytes());
}

#[test]
fn modular_operations_reduce_into_range() {
    let m = integer(97);
    assert_eq!(integer(90).add_mod(&integer(10), &m).to_u64_le_bytes(), 3u64.to_le_bytes());
    assert_eq!(integer(3).sub_mod(&integer(10), &m).to_u64_le_bytes(), 90u64.to_le_bytes());
    assert_eq!(integer(50).mul_mod(&integer(2), &m).to_u64_le_bytes(), 3u64.to_le_bytes());
    assert_eq!(integer(3).mod_exp(&integer(4), &m).to_u64_le_bytes(), 81u64.to_le_bytes());
    assert!(integer(7).is_odd());
    assert!(!integer(8).is_odd());
    assert_eq!(integer(9).div_2().to_u64_le_bytes(), 4u64.to_le_bytes());
}

#[test]
fn doubles_and_adds_points_on_a_small_curve() {
    let a = integer(2);
    let m = integer(97);
    let doubled = point_add(Some(point(3, 6)), Some(point(3, 6)), &a, &m);
    assert_eq!(coords(&doubled), Some((80, 10)));
    let opposite = point_add(Some(point(3, 6)), Some(point(3, 91)), &a, &m);
    assert_eq!(coords(&opposite), None);
    let identity = point_add(None, Some(point(3, 6)), &a, &m);
    assert_eq!(coords(&identity), Some((3, 6)));
}

#[test]
fn multiplies_points_by_doubling_and_adding() {
    let a = integer(2);
    let m = integer(97);
    assert_eq!(coords(&scalar_mult(&integer(2), point(3, 6), &a, &m)), Some((80, 10)));
    assert_eq!(coords(&scalar_mult(&integer(3), point(3, 6), &a, &m)), Some((80, 87)));
    assert_eq!(coords(&scalar_mult(&integer(4), point(3, 6), &a, &m)), Some((3, 91)));
    assert_eq!(coords(&scalar_mult(&integer(5), point(3, 6), &a, &m)), None);
    assert_eq!(coords(&scalar_mult(&integer(6), point(3, 6), &a, &m)), Some((3, 6)));
    assert_eq!(coords(&scalar_mult(&integer(0), point(3, 6), &a, &m)), None);
}

#[test]
fn a_negative_modulus_rounds_like_floored_division() {
    let minus_three = Integer { negative: true, magnitude: vec![3] };
    let minus_one = Integer { negative: true, magnitude: vec![1] };
    let rest = integer(8).add_mod(&integer(0), &minus_three);
    assert_eq!(rest.compare(&minus_one), 0);
    assert_eq!(integer(9).sub_mod(&integer(0), &minus_three).compare(&integer(0)), 0);
    assert_eq!(minus_one.compare(&integer(0)), -1);
    assert_eq!(minus_one.div_2().compare(&minus_one), 0);
    assert!(minus_one.is_odd());
}

#[test]
fn a_modulus_of_minus_one_reduces_every_step_to_zero() {
    let a = integer(2);
    let minus_one = Integer { negative: true, magnitude: vec![1] };
    let sum = point_add(Some(point(3, 6)), Some(point(5, 7)), &a, &minus_one);
    assert_eq!(coords(&sum), Some((0, 0)));
}

#[test]
fn a_modulus_below_minus_two_adds_without_slopes() {
    let a = integer(2);
    let m = Integer { negative: true, magnitude: vec![97] };
    assert_eq!(coords(&point_add(Some(point(3, 6)), Some(point(3, 91)), &a, &m)), None);
    assert_eq!(coords(&point_add(Some(point(3, 0)), Some(point(3, 0)), &a, &m)), None);
    assert_eq!(coords(&point_add(None, Some(point(3, 6)), &a, &m)), Some((3, 6)));
    assert_eq!(coords(&scalar_mult(&integer(3), point(3, 0), &a, &m)), Some((3, 0)));
}

#[test]
fn low_bytes_read_back_as_the_value_modulo_their_width() {
    let value = bytes_to_int(&[0x78, 0x56, 0x34, 0x12]);
    let wide = int_to_bytes_le::<8>(&value);
    assert_eq!(bytes_to_int(&wide).compare(&value), 0);
    let narrow = int_to_bytes_le::<2>(&value);
    assert_eq!(bytes_to_int(&narrow).compare(&integer(0x5678)), 0);
}

#[test]
fn adding_points_is_symmetric_modulo_a_prime() {
    let a = integer(2);
    let m = integer(97);
    let forward = point_add(Some(point(3, 6)), Some(point(80, 10)), &a, &m);
    let backward = point_add(Some(point(80, 10)), Some(point(3, 6)), &a, &m);
    assert_eq!(coords(&forward), coords(&backward));
    assert_eq!(coords(&forward), Some((80, 87)));
}
