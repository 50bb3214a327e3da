use grape_timer::uuid::{IdGenerator, IDMode};

#[test]
fn test_set_seed() {
    let mut gen = IdGenerator::new();
    gen.set_seed(100);
    let mut last = 0;
    for i in 0..40 {
        let next = gen.next_big_id();
        assert_eq!(next, 100 + i);
        last = next;
        println!("{}", next);
    }
    assert_eq!(last, 139);
}

#[test]
fn test_next_timestamp() {
    let mut gen = IdGenerator::new();
    for _ in 0..40 {
        let next = gen.next_timestamp_id();
        let sub = next % 100;
        assert!((1..=98).contains(&sub));
        println!("{}", next);
    }
}

#[test]
fn sequence_ids_are_distinct() {
    let mut gen = IdGenerator::new();
    let a = gen.next_big_id();
    let b = gen.next_big_id();
    let c = gen.next_big_id();
    assert_eq!(a, 1);
    assert_eq!(b, 2);
    assert_eq!(c, 3);
}

#[test]
fn timestamp_ids_collide_beyond_98_per_second() {
    // drawing more than 98 identifiers composed with one and the same
    // second must repeat: the sub-counter only has 98 values
    let second = 1_600_000_000i64;
    let mut gen = IdGenerator::new();
    let first = gen.compose_timestamp_id(second);
    let mut seen = vec![first];
    let mut collided = false;
    for _ in 0..98 {
        let id = gen.compose_timestamp_id(second);
        if seen.contains(&id) {
            collided = true;
            break;
        }
        seen.push(id);
    }
    assert!(collided);
}

#[test]
fn timestamp_id_composition() {
    let mut gen = IdGenerator::new();
    let id = gen.compose_timestamp_id(1_600_000_000);
    assert_eq!(id, 1_600_000_000 * 100 + 2);
    let id2 = gen.compose_timestamp_id(1_600_000_000);
    assert_eq!(id2, 1_600_000_000 * 100 + 3);
}

#[test]
fn sub_counter_rolls_over_at_98() {
    let mut gen = IdGenerator::new();
    let mut subs = Vec::new();
    for _ in 0..200 {
        subs.push(gen.compose_timestamp_id(0));
    }
    assert!(subs.iter().all(|s| (1..=98).contains(s)));
    assert_eq!(subs[0], 2);
    // after reaching 98 the counter starts over at 1
    assert!(subs.contains(&98));
    assert!(subs.contains(&1));
    assert!(!subs.contains(&99));
    assert!(!subs.contains(&0));
}

#[test]
fn id_modes_are_copyable() {
    let m = IDMode::SequenceId;
    let n = m;
    assert!(matches!(n, IDMode::SequenceId));
    assert!(matches!(IDMode::TimestampId, IDMode::TimestampId));
}
