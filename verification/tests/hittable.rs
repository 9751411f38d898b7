use raytracer::hittable::hit_any;
use raytracer::interval::Interval;
use raytracer::ray::Ray;
use raytracer::scalar::Scalar;

fn s(x: f64) -> Scalar {
    Scalar::from_bits(x.to_bits())
}

fn some(x: f64) -> Option<Scalar> {
    Some(s(x))
}

fn window(min: f64, max: f64) -> Interval {
    Interval::new(s(min), s(max))
}

#[test]
fn no_candidates_no_hit() {
    assert_eq!(hit_any(&vec![], Ray::window()), None);
    assert_eq!(hit_any(&vec![None, None], Ray::window()), None);
}

#[test]
fn the_nearest_candidate_wins() {
    let candidates = vec![some(4.0), some(0.5), None, some(2.0)];
    assert_eq!(hit_any(&candidates, Ray::window()), Some(1));
    let candidates = vec![some(0.5), some(4.0), some(2.0)];
    assert_eq!(hit_any(&candidates, Ray::window()), Some(0));
    let candidates = vec![some(4.0), some(2.0), some(0.5)];
    assert_eq!(hit_any(&candidates, Ray::window()), Some(2));
}

#[test]
fn candidates_outside_the_window_are_turned_down() {
    let candidates = vec![some(0.0005), some(-3.0), some(0.001), some(f64::INFINITY)];
    assert_eq!(hit_any(&candidates, Ray::window()), None);
    let candidates = vec![some(0.0005), some(7.0), some(-3.0)];
    assert_eq!(hit_any(&candidates, Ray::window()), Some(1));
    let candidates = vec![some(1.0), some(2.0), some(3.0)];
    assert_eq!(hit_any(&candidates, window(1.0, 3.0)), Some(1));
    assert_eq!(hit_any(&candidates, window(3.0, 1.0)), None);
}

#[test]
fn the_first_of_equal_candidates_wins() {
    let candidates = vec![some(2.0), some(1.0), some(1.0), some(2.0)];
    assert_eq!(hit_any(&candidates, Ray::window()), Some(1));
}

#[test]
fn what_is_not_a_number_never_wins() {
    let candidates = vec![some(f64::NAN), some(3.0), some(f64::NAN)];
    assert_eq!(hit_any(&candidates, Ray::window()), Some(1));
    assert_eq!(hit_any(&vec![some(f64::NAN)], Ray::window()), None);
    assert_eq!(hit_any(&vec![some(1.0)], window(0.0, f64::NAN)), None);
}

#[test]
fn hit_any_agrees_with_a_scan_in_hardware_arithmetic() {
    let pool = [0.0005, 0.001, 0.0011, 0.5, 0.5, 1.0, 2.0, -1.0, f64::NAN, f64::INFINITY];
    for a in 0..pool.len() {
        for b in 0..pool.len() {
            for c in 0..pool.len() {
                let raw = [pool[a], pool[b], pool[c]];
                let candidates: Vec<Option<Scalar>> = raw.iter().map(|x| some(*x)).collect();
                let mut closest = f64::INFINITY;
                let mut expected = None;
                for (i, t) in raw.iter().enumerate() {
                    if 0.001 < *t && *t < closest {
                        closest = *t;
                        expected = Some(i);
                    }
                }
                assert_eq!(hit_any(&candidates, Ray::window()), expected, "{raw:?}");
            }
        }
    }
}
