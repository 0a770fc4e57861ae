use rulebook::sink::{Outcome, Step, VecSink};

fn is_visit<I, E>(step: &Step<I, E>, key: usize) -> bool {
    matches!(step, Step::Visit(k) if *k == key)
}

#[test]
fn keys_count_up_from_zero() {
    let mut sinks: VecSink<&str> = VecSink::new();
    assert_eq!(sinks.slots(), 0);
    assert_eq!(sinks.insert("a"), 0);
    assert_eq!(sinks.insert("b"), 1);
    assert_eq!(sinks.insert("c"), 2);
    assert_eq!(sinks.slots(), 3);
}

#[test]
fn delete_returns_the_writer_and_keeps_other_keys() {
    let mut sinks: VecSink<&str> = VecSink::new();
    sinks.insert("a");
    sinks.insert("b");
    sinks.insert("c");
    assert_eq!(sinks.delete(1), Some("b"));
    assert_eq!(sinks.delete(1), None);
    assert_eq!(sinks.delete(0), Some("a"));
    assert_eq!(sinks.delete(2), Some("c"));
    assert_eq!(sinks.slots(), 3);
}

#[test]
fn delete_of_an_unknown_key_is_none() {
    let mut sinks: VecSink<u8> = VecSink::new();
    assert_eq!(sinks.delete(0), None);
    sinks.insert(7);
    assert_eq!(sinks.delete(1), None);
    assert_eq!(sinks.delete(usize::MAX), None);
    assert_eq!(sinks.delete(0), Some(7));
}

#[test]
fn insert_reuses_the_smallest_empty_slot() {
    let mut sinks: VecSink<u8> = VecSink::new();
    for v in 0..4 {
        sinks.insert(v);
    }
    sinks.delete(2);
    sinks.delete(1);
    assert_eq!(sinks.insert(10), 1);
    assert_eq!(sinks.insert(11), 2);
    assert_eq!(sinks.insert(12), 4);
    assert_eq!(sinks.delete(1), Some(10));
    assert_eq!(sinks.delete(2), Some(11));
}

#[test]
fn next_occupied_skips_empty_slots() {
    let mut sinks: VecSink<u8> = VecSink::new();
    for v in 0..5 {
        sinks.insert(v);
    }
    sinks.delete(0);
    sinks.delete(2);
    sinks.delete(4);
    assert_eq!(sinks.next_occupied(0), Some(1));
    assert_eq!(sinks.next_occupied(1), Some(1));
    assert_eq!(sinks.next_occupied(2), Some(3));
    assert_eq!(sinks.next_occupied(4), None);
    assert_eq!(sinks.next_occupied(9), None);
}

#[test]
fn writer_gives_access_to_a_stored_writer() {
    let mut sinks: VecSink<Vec<u8>> = VecSink::new();
    sinks.insert(vec![]);
    sinks.insert(vec![]);
    sinks.delete(0);
    assert!(sinks.writer(0).is_none());
    assert!(sinks.writer(2).is_none());
    sinks.writer(1).unwrap().push(9);
    assert_eq!(sinks.delete(1), Some(vec![9]));
}

#[test]
fn broadcast_over_nobody_succeeds_at_once() {
    let sinks: VecSink<u8> = VecSink::new();
    let step: Step<u8, ()> = sinks.begin(5);
    assert!(matches!(step, Step::Done(Outcome::Ready(5))));
}

#[test]
fn broadcast_visits_every_writer_in_key_order() {
    let mut sinks: VecSink<u8> = VecSink::new();
    for v in 0..4 {
        sinks.insert(v);
    }
    sinks.delete(0);
    sinks.delete(2);
    let step: Step<u8, ()> = sinks.begin(0);
    assert!(is_visit(&step, 1));
    let step: Step<u8, ()> = sinks.advance(1, Outcome::Ready(11));
    assert!(is_visit(&step, 3));
    let step: Step<u8, ()> = sinks.advance(3, Outcome::Ready(13));
    assert!(matches!(step, Step::Done(Outcome::Ready(13))));
}

#[test]
fn broadcast_ends_with_the_first_failure() {
    let mut sinks: VecSink<u8> = VecSink::new();
    for v in 0..3 {
        sinks.insert(v);
    }
    let step: Step<(), &str> = sinks.advance(0, Outcome::Failed("broken"));
    assert!(matches!(step, Step::Done(Outcome::Failed("broken"))));
    let step: Step<(), &str> = sinks.advance(0, Outcome::Pending);
    assert!(matches!(step, Step::Done(Outcome::Pending)));
}

#[test]
fn advance_beyond_the_slots_ends_the_broadcast() {
    let mut sinks: VecSink<u8> = VecSink::new();
    sinks.insert(1);
    let step: Step<u8, ()> = sinks.advance(usize::MAX, Outcome::Ready(3));
    assert!(matches!(step, Step::Done(Outcome::Ready(3))));
    let step: Step<u8, ()> = sinks.advance(7, Outcome::Ready(4));
    assert!(matches!(step, Step::Done(Outcome::Ready(4))));
}
