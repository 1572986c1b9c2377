use sluice::{generate_message_id, now_millis, MessageIdGenerator};

#[test]
fn message_ids_are_canonical_and_time_ordered() {
    let mut ids = MessageIdGenerator::new();
    let a = generate_message_id(&mut ids);
    let b = generate_message_id(&mut ids);
    assert_eq!(a.len(), 36);
    for (i, c) in a.chars().enumerate() {
        if [8, 13, 18, 23].contains(&i) {
            assert_eq!(c, '-');
        } else {
            assert!(c.is_ascii_hexdigit() && !c.is_ascii_uppercase());
        }
    }
    assert_eq!(&a[14..15], "7");
    assert_ne!(a, b);
    assert!(a < b);
}

#[test]
fn ids_within_one_millisecond_count_up() {
    let mut ids = MessageIdGenerator::new();
    let a = ids.next_id_at(1_000);
    let b = ids.next_id_at(1_000);
    let c = ids.next_id_at(999);
    let d = ids.next_id_at(2_000);
    assert!(a < b && b < c && c < d);
    assert_eq!(a, "00000000-03e8-7000-8000-000000000000");
    assert_eq!(b, "00000000-03e8-7000-8000-000000000001");
    assert_eq!(d, "00000000-07d0-7000-8000-000000000000");
    let mut early = MessageIdGenerator::new();
    assert_eq!(early.next_id_at(-5), "00000000-0000-7000-8000-000000000001");
    assert!(early.can_issue());
}

#[test]
fn clock_is_after_2024() {
    assert!(now_millis() > 1_704_067_200_000);
}
