use raytracer::nearest::{is_not_a_number, order_key, INFINITY_BITS, SIGN_BIT};
use raytracer::{closest_distance, closest_index, NotANumber};

type Point = (f64, f64, f64);

fn distance_between(a: Point, b: Point) -> f64 {
    ((b.0 - a.0).powi(2) + (b.1 - a.1).powi(2) + (b.2 - a.2).powi(2)).sqrt()
}

fn keys(reference: Point, points: &Vec<Point>) -> Vec<u64> {
    points.iter().map(|p| distance_between(*p, reference).to_bits()).collect()
}

fn closest(reference: Point, points: &Vec<Point>) -> Option<Point> {
    closest_index(&keys(reference, points)).map(|i| points[i])
}

#[test]
fn get_closest_point() {
    let point = (0.0, 0.0, 0.0);
    let a = (1.0, 1.0, 1.0);
    let b = (2.0, 2.0, 2.0);
    match closest(point, &vec![a, b]) {
        Some(actual_point) => assert_eq!(actual_point, a),
        None => assert!(false),
    }
}

#[test]
fn get_no_closest_point() {
    let point = (0.0, 0.0, 0.0);
    let no_points: Vec<Point> = vec![];
    match closest(point, &no_points) {
        None => assert!(true),
        Some(_) => assert!(false),
    }
}

#[test]
fn closest_index_of_nothing_is_none() {
    assert_eq!(closest_index(&vec![]), None);
}

#[test]
fn closest_index_of_one_is_that_one() {
    assert_eq!(closest_index(&vec![0]), Some(0));
    assert_eq!(closest_index(&vec![u64::MAX]), Some(0));
}

#[test]
fn closest_index_finds_the_least_key() {
    assert_eq!(closest_index(&vec![7, 3, 9]), Some(1));
    assert_eq!(closest_index(&vec![1, 2, 3]), Some(0));
    assert_eq!(closest_index(&vec![3, 2, 1]), Some(2));
    assert_eq!(closest_index(&vec![u64::MAX, u64::MAX - 1]), Some(1));
}

#[test]
fn closest_index_takes_the_first_of_equals() {
    assert_eq!(closest_index(&vec![7, 3, 3]), Some(1));
    assert_eq!(closest_index(&vec![5, 5, 5, 5]), Some(0));
    assert_eq!(closest_index(&vec![9, 4, 8, 4, 4, 9]), Some(1));
}

#[test]
fn closest_index_heads_a_stable_sort() {
    let samples: Vec<Vec<u64>> = vec![
        vec![4, 1, 3, 1, 5, 9, 2, 6],
        vec![2, 2, 2],
        vec![10, 9, 8, 7, 7, 8, 9, 10],
        vec![0],
        vec![3, 0, 0, 3],
    ];
    for sample in samples {
        let mut order: Vec<usize> = (0..sample.len()).collect();
        order.sort_by_key(|i| sample[*i]);
        assert_eq!(closest_index(&sample), Some(order[0]));
    }
}

#[test]
fn closer_points_have_smaller_keys() {
    let origin = (0.0, 0.0, 0.0);
    let points = vec![(1.0, 3.0, 5.0), (0.0, 0.0, 0.001), (-2.0, 0.0, 0.0), (0.0, 0.0, 0.0)];
    let found = keys(origin, &points);
    assert_eq!(closest_index(&found), Some(3));
    assert_eq!(closest(origin, &points), Some((0.0, 0.0, 0.0)));
    assert_eq!(closest((1.0, 3.0, 4.0), &points), Some((1.0, 3.0, 5.0)));
}

#[test]
fn equally_distant_points_keep_their_order() {
    let origin = (0.0, 0.0, 0.0);
    let points = vec![(3.0, 0.0, 0.0), (0.0, 2.0, 0.0), (0.0, 0.0, -2.0), (2.0, 0.0, 0.0)];
    assert_eq!(closest(origin, &points), Some((0.0, 2.0, 0.0)));
}

fn closest_by_bits(reference: Point, points: &Vec<Point>) -> Option<Point> {
    let distances: Vec<u64> = points.iter().map(|p| distance_between(*p, reference).to_bits()).collect();
    closest_distance(&distances).unwrap().map(|i| points[i])
}

fn samples() -> Vec<f64> {
    vec![
        f64::NEG_INFINITY,
        f64::MIN,
        -35.0,
        -1.0,
        -0.001,
        -f64::MIN_POSITIVE,
        -5e-324,
        -0.0,
        0.0,
        5e-324,
        f64::MIN_POSITIVE,
        0.001,
        1.0,
        1.0000000000000002,
        5.916079783099616,
        282.2545970402915,
        f64::MAX,
        f64::INFINITY,
    ]
}

#[test]
fn closest_distance_agrees_with_the_coordinates() {
    let point = (0.0, 0.0, 0.0);
    let a = (1.0, 1.0, 1.0);
    let b = (2.0, 2.0, 2.0);
    assert_eq!(closest_by_bits(point, &vec![a, b]), Some(a));
    assert_eq!(closest_by_bits(point, &vec![b, a]), Some(a));
    assert_eq!(closest_by_bits(point, &vec![]), None);
    assert_eq!(closest_by_bits(b, &vec![a, point, b]), Some(b));
}

#[test]
fn closest_distance_of_nothing_is_none() {
    assert_eq!(closest_distance(&vec![]), Ok(None));
}

#[test]
fn closest_distance_takes_the_first_of_equals() {
    let two = 2.0f64.to_bits();
    let three = 3.0f64.to_bits();
    assert_eq!(closest_distance(&vec![three, two, two, three]), Ok(Some(1)));
    assert_eq!(closest_distance(&vec![0.0f64.to_bits(), (-0.0f64).to_bits()]), Ok(Some(0)));
    assert_eq!(closest_distance(&vec![(-0.0f64).to_bits(), 0.0f64.to_bits()]), Ok(Some(0)));
}

#[test]
fn closest_distance_orders_as_the_numbers() {
    let values = samples();
    for a in values.iter() {
        for b in values.iter() {
            let expected = if b < a { 1 } else { 0 };
            assert_eq!(closest_distance(&vec![a.to_bits(), b.to_bits()]), Ok(Some(expected)));
        }
    }
}

#[test]
fn closest_distance_refuses_what_is_no_number() {
    let nan = f64::NAN.to_bits();
    let one = 1.0f64.to_bits();
    assert_eq!(closest_distance(&vec![nan, one]), Err(NotANumber { position: 0 }));
    assert_eq!(closest_distance(&vec![one, nan]), Err(NotANumber { position: 1 }));
    assert_eq!(closest_distance(&vec![one, one, nan, nan]), Err(NotANumber { position: 2 }));
    assert_eq!(closest_distance(&vec![one, (-f64::NAN).to_bits()]), Err(NotANumber { position: 1 }));
    assert_eq!(closest_distance(&vec![0x7ff0_0000_0000_0001, one]), Err(NotANumber { position: 0 }));
    assert_eq!(closest_distance(&vec![u64::MAX, one]), Err(NotANumber { position: 0 }));
}

#[test]
fn closest_distance_takes_infinity_for_a_number() {
    let far = f64::INFINITY.to_bits();
    let one = 1.0f64.to_bits();
    assert_eq!(closest_distance(&vec![far, one]), Ok(Some(1)));
    assert_eq!(closest_distance(&vec![far, far]), Ok(Some(0)));
    assert_eq!(closest_distance(&vec![f64::NEG_INFINITY.to_bits(), far]), Ok(Some(0)));
}

#[test]
fn a_candidate_that_stands_alone_is_the_nearest() {
    assert_eq!(closest_distance(&vec![f64::NAN.to_bits()]), Ok(Some(0)));
    assert_eq!(closest_distance(&vec![1.0f64.to_bits()]), Ok(Some(0)));
}

#[test]
fn is_not_a_number_agrees_with_the_numbers() {
    for value in samples() {
        assert_eq!(is_not_a_number(value.to_bits()), value.is_nan());
    }
    assert!(is_not_a_number(f64::NAN.to_bits()));
    assert!(is_not_a_number((-f64::NAN).to_bits()));
    assert!(is_not_a_number((0.0f64 / 0.0).to_bits()));
    assert!(is_not_a_number(0x7ff0_0000_0000_0001));
    assert!(is_not_a_number(0xffff_ffff_ffff_ffff));
    assert!(!is_not_a_number(0x7ff0_0000_0000_0000));
    assert!(!is_not_a_number(0xfff0_0000_0000_0000));
}

#[test]
fn order_key_orders_as_the_numbers() {
    let values = samples();
    for a in values.iter() {
        for b in values.iter() {
            let (key_a, key_b) = (order_key(a.to_bits()), order_key(b.to_bits()));
            assert_eq!(key_a < key_b, a < b);
            assert_eq!(key_a == key_b, a == b);
        }
    }
}

#[test]
fn order_key_of_chosen_numbers() {
    assert_eq!(SIGN_BIT, 1u64 << 63);
    assert_eq!(INFINITY_BITS, f64::INFINITY.to_bits());
    assert_eq!(order_key(0.0f64.to_bits()), 1u64 << 63);
    assert_eq!(order_key((-0.0f64).to_bits()), 1u64 << 63);
    assert_eq!(order_key(1), (1u64 << 63) + 1);
    assert_eq!(order_key((1u64 << 63) + 1), (1u64 << 63) - 1);
    assert_eq!(order_key(1.0f64.to_bits()), 0xbff0_0000_0000_0000);
    assert_eq!(order_key((-1.0f64).to_bits()), 0x4010_0000_0000_0000);
    assert_eq!(order_key(u64::MAX), 1);
    assert_eq!(order_key((1u64 << 63) - 1), u64::MAX);
}
