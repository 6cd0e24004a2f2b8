use raytracer::nearest::{nearest_hit, HitWindow};

fn key(t: f64) -> u64 {
    assert!(t >= 0.0);
    t.to_bits()
}

#[test]
fn the_nearest_of_several_hits() {
    let distances = vec![Some(7), None, Some(3), Some(100)];
    assert_eq!(nearest_hit(&distances, 1, 1000), Some(2));
}

#[test]
fn hits_outside_the_range_do_not_count() {
    let distances = vec![Some(0), Some(50), Some(5), Some(2000)];
    assert_eq!(nearest_hit(&distances, 1, 1000), Some(2));
    assert_eq!(nearest_hit(&distances, 6, 1000), Some(1));
    assert_eq!(nearest_hit(&distances, 51, 1000), None);
    assert_eq!(nearest_hit(&distances, 51, u64::MAX), Some(3));
    assert_eq!(nearest_hit(&distances, 0, 0), Some(0));
}

#[test]
fn the_ends_of_the_range_are_in_it() {
    assert_eq!(nearest_hit(&vec![Some(10)], 10, 20), Some(0));
    assert_eq!(nearest_hit(&vec![Some(20)], 10, 20), Some(0));
    assert_eq!(nearest_hit(&vec![Some(9)], 10, 20), None);
    assert_eq!(nearest_hit(&vec![Some(21)], 10, 20), None);
    assert_eq!(nearest_hit(&vec![Some(15)], 20, 10), None);
}

#[test]
fn nothing_struck_is_a_miss() {
    assert_eq!(nearest_hit(&Vec::new(), 0, u64::MAX), None);
    assert_eq!(nearest_hit(&vec![None, None], 0, u64::MAX), None);
}

#[test]
fn of_equal_hits_the_last_is_named() {
    let distances = vec![Some(4), Some(9), Some(4), Some(4), Some(9)];
    assert_eq!(nearest_hit(&distances, 0, 100), Some(3));
}

#[test]
fn the_nearest_distance_ignores_the_order_of_the_members() {
    let members = [Some(30u64), None, Some(12), Some(500), Some(12), Some(1), Some(77)];
    let mut order: Vec<usize> = (0..members.len()).collect();
    let mut seen = 0;
    // every rotation and its reverse
    for shift in 0..members.len() {
        order.rotate_left(1);
        for reversed in [false, true] {
            let arranged: Vec<Option<u64>> = if reversed {
                order.iter().rev().map(|i| members[*i]).collect()
            } else {
                order.iter().map(|i| members[*i]).collect()
            };
            let hit = nearest_hit(&arranged, 5, 400).expect("some member is in range");
            assert_eq!(arranged[hit], Some(12), "shift {} reversed {}", shift, reversed);
            assert_eq!(nearest_hit(&arranged, 501, 600), None);
            seen += 1;
        }
    }
    assert_eq!(seen, 14);
}

#[test]
fn bit_patterns_of_distances_order_as_the_distances() {
    let distances = vec![Some(key(2.5)), Some(key(0.0005)), Some(key(1.0e9)), Some(key(0.75)), None];
    let hit = nearest_hit(&distances, key(0.001), key(f64::INFINITY));
    assert_eq!(hit, Some(3));
    let far = nearest_hit(&distances, key(3.0), key(f64::INFINITY));
    assert_eq!(far, Some(2));
    assert_eq!(nearest_hit(&distances, key(0.001), key(0.5)), None);
}

#[test]
fn the_window_closes_down_on_each_accepted_report() {
    let mut window = HitWindow::new(10, 1000);
    assert_eq!(window.limit(), 1000);
    assert_eq!(window.winner, None);
    assert!(window.offer(0, 500));
    assert_eq!(window.limit(), 500);
    assert!(!window.offer(1, 501));
    assert!(!window.offer(2, 9));
    assert_eq!(window, HitWindow { t_min: 10, closest: 500, winner: Some(0) });
    assert!(window.offer(3, 500));
    assert_eq!(window.winner, Some(3));
    assert!(window.offer(4, 10));
    assert_eq!(window, HitWindow { t_min: 10, closest: 10, winner: Some(4) });
    assert!(!window.offer(5, 11));
}
