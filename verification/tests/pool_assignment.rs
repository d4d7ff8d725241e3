use synmon::pool::room::Room;
use synmon::pool::Pool;

fn pool_abc() -> Pool {
    let mut p = Pool::new();
    assert!(p.add_room(Room { id: String::from("A"), weight: 5 }));
    assert!(p.add_room(Room { id: String::from("B"), weight: 5 }));
    assert!(p.add_room(Room { id: String::from("C"), weight: 1 }));
    p
}

#[test]
fn fairness_ties_broken_by_id() {
    let p = pool_abc();
    // both top-weight rooms come before the light one, tie broken by id
    let ids = p.get(2);
    assert_eq!(ids, vec![String::from("A"), String::from("B")]);
    let ids = p.get(3);
    assert_eq!(ids, vec![String::from("A"), String::from("B"), String::from("C")]);
}

#[test]
fn no_duplicates_and_short_pools_drain() {
    let p = pool_abc();
    // asking for more than exists returns all of them, each once
    let ids = p.get(10);
    assert_eq!(ids.len(), 3);
    for i in 0..ids.len() {
        for j in (i + 1)..ids.len() {
            assert_ne!(ids[i], ids[j]);
        }
    }
    assert_eq!(p.get(0), Vec::<String>::new());
}

#[test]
fn heavier_room_first() {
    let mut p = Pool::new();
    assert!(p.add_room(Room { id: String::from("x"), weight: 1 }));
    assert!(p.add_room(Room { id: String::from("y"), weight: 9 }));
    assert_eq!(p.get(1), vec![String::from("y")]);
}

#[test]
fn duplicate_id_is_refused() {
    let mut p = pool_abc();
    assert!(!p.add_room(Room { id: String::from("A"), weight: 7 }));
    assert_eq!(p.get(10).len(), 3);
}

#[test]
fn observations_count_per_occurrence() {
    let mut p = pool_abc();
    let seen = vec![String::from("A"), String::from("A"), String::from("Z")];
    p.record_observation(&seen);
    // rooms were added in the order A, B, C
    assert_eq!(p.observations, vec![2u64, 0, 0]);
    p.record_observation(&vec![String::from("B")]);
    assert_eq!(p.observations, vec![2u64, 1, 0]);
}
