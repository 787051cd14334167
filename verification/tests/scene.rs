use raytracer::scene::{trace, Intersection};

#[test]
fn intersection_new_keeps_distance_and_element() {
    let hit = Intersection::new(42, 7);
    assert_eq!(hit.distance, 42);
    assert_eq!(hit.element, 7);
    assert_eq!(hit, Intersection { distance: 42, element: 7 });
}

#[test]
fn trace_of_empty_scene_hits_nothing() {
    assert_eq!(trace(&Vec::new()), None);
}

#[test]
fn trace_of_ray_that_misses_everything_hits_nothing() {
    assert_eq!(trace(&vec![None, None, None]), None);
}

#[test]
fn trace_finds_the_smallest_distance() {
    assert_eq!(
        trace(&vec![Some(30), Some(10), Some(20)]),
        Some(Intersection::new(10, 1))
    );
    assert_eq!(trace(&vec![Some(5)]), Some(Intersection::new(5, 0)));
    assert_eq!(
        trace(&vec![Some(u64::MAX), Some(0)]),
        Some(Intersection::new(0, 1))
    );
}

#[test]
fn trace_skips_elements_that_are_missed() {
    assert_eq!(
        trace(&vec![None, Some(9), None, Some(4), None]),
        Some(Intersection::new(4, 3))
    );
    assert_eq!(
        trace(&vec![None, None, Some(u64::MAX)]),
        Some(Intersection::new(u64::MAX, 2))
    );
}

#[test]
fn trace_resolves_ties_to_the_earlier_element() {
    assert_eq!(
        trace(&vec![Some(8), Some(3), None, Some(3), Some(3)]),
        Some(Intersection::new(3, 1))
    );
}

#[test]
fn trace_orders_positive_doubles_by_their_bit_patterns() {
    let distances: Vec<f64> = vec![12.5, 0.75, 3.0e9, 1.0e-9, 4.0, f64::INFINITY];
    let keys: Vec<Option<u64>> = distances.iter().map(|d| Some(d.to_bits())).collect();
    let nearest = trace(&keys).unwrap();
    assert_eq!(nearest.element, 3);
    assert_eq!(f64::from_bits(nearest.distance), 1.0e-9);
}
