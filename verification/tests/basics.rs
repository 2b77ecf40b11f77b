use vsm::agenda::Agenda;
use vsm::bits::{abs, finite, finite32, fraction, from_integer, gain, negate, widen};
use vsm::clock::{frequency, now_ns, ticks};
use vsm::math::{conjugate, quat, vec3, Quat, Vec3};
use vsm::json::parse;
use vsm::queue::Queue;

#[test]
fn bit_patterns_stand_for_their_numbers() {
    assert_eq!(f64::from_bits(abs((-2.5f64).to_bits())), 2.5);
    assert_eq!(f64::from_bits(negate(2.5f64.to_bits())), -2.5);
    assert!(finite(1e308f64.to_bits()) && !finite(f64::NAN.to_bits()));
    assert!(!finite(f64::NEG_INFINITY.to_bits()) && !finite32(f32::INFINITY.to_bits()));
    for (db, fits) in [(-60.0, true), (0.0, true), (-0.0, true), (-60.1, false), (0.1, false), (f64::NAN, false)] {
        assert_eq!(gain(f64::to_bits(db)), fits);
    }
    for (x, fits) in [(0.0, true), (-0.0, true), (1.0, true), (1.1, false), (-0.1, false)] {
        assert_eq!(fraction(f64::to_bits(x)), fits);
    }
    assert_eq!(widen(0.1f32.to_bits()), (0.1f32 as f64).to_bits());
    assert_eq!(from_integer(-7), (-7f64).to_bits());
}

#[test]
fn vectors_are_read_from_documents() {
    let bits = |v: f64| v.to_bits();
    let v = vec3(&parse("[1.0, -2, 0.5]").unwrap()).unwrap();
    assert_eq!(v, Vec3 { x: bits(1.0), y: bits(-2.0), z: bits(0.5) });
    assert!(vec3(&parse("[1.0, 2.0]").unwrap()).is_none());
    assert!(vec3(&parse("[1.0, 2.0, \"x\"]").unwrap()).is_none());
    let q = quat(&parse("[0.5, -0.5, 0.5, 0.5]").unwrap()).unwrap();
    assert_eq!(
        conjugate(q),
        Quat { x: bits(-0.5), y: bits(0.5), z: bits(-0.5), w: bits(0.5) }
    );
    assert_eq!(conjugate(conjugate(q)), q);
}

#[test]
fn clocks_count_nanoseconds() {
    assert_eq!(frequency(), 1_000_000_000);
    assert_eq!(ticks(17), 17);
    assert_eq!(now_ns(10_000_001, 10_000_000), 1_000_000_100);
    assert_eq!(now_ns(5, frequency()), 5);
}

#[test]
fn agendas_give_what_is_due_in_order() {
    let mut a = Agenda::new();
    for (time, item) in [(20, "c"), (10, "a"), (10, "b")] {
        a.insert(time, item);
    }
    assert_eq!(a.first(), Some(10));
    assert!(a.due(9).is_none());
    assert_eq!(a.due(10).unwrap().item, "a");
    assert_eq!(a.due(30).unwrap().item, "b");
    assert_eq!(a.due(30).unwrap().item, "c");
    assert_eq!(a.len(), 0);
}

#[test]
fn queues_give_first_what_came_first() {
    let mut q = Queue::new(10);
    assert!(q.push('a', 6, false));
    assert!(!q.push('b', 5, false));
    assert!(q.push('c', 4, false));
    assert!(q.push('d', 100, true));
    assert_eq!(q.bytes(), 110);
    q.close();
    assert!(!q.push('e', 0, false) && !q.push('f', 0, true));
    assert!(!q.drained());
    assert_eq!((q.pop(), q.pop(), q.pop(), q.pop()), (Some('a'), Some('c'), Some('d'), None));
    assert!(q.drained());
    assert_eq!(q.bytes(), 0);
}
