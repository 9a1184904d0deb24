use blockshot::trail::Trail;

#[test]
fn a_new_trail_is_empty() {
    let trail: Trail<u8> = Trail::new();
    assert_eq!(trail.len(), 0);
    assert_eq!(trail.first(), 0);
}

#[test]
fn push_and_get() {
    let mut trail = Trail::new();
    for value in 0..10u8 {
        trail.push(value * 3);
    }
    assert_eq!(trail.len(), 10);
    assert_eq!(trail.first(), 0);
    for index in 0..10usize {
        assert_eq!(*trail.get(index), index as u8 * 3);
    }
}

#[test]
fn set_replaces_one_element() {
    let mut trail = Trail::new();
    trail.push(1u8);
    trail.push(2);
    trail.push(3);
    trail.set(1, 20);
    assert_eq!((*trail.get(0), *trail.get(1), *trail.get(2)), (1, 20, 3));
    assert_eq!(trail.len(), 3);
}

#[test]
fn forgetting_keeps_length_and_places() {
    let mut trail = Trail::new();
    for value in 0..10u8 {
        trail.push(value);
    }
    trail.forget(4);
    assert_eq!(trail.len(), 10);
    assert_eq!(trail.first(), 4);
    for index in 4..10usize {
        assert_eq!(*trail.get(index), index as u8);
    }
    trail.push(10);
    assert_eq!(trail.len(), 11);
    assert_eq!(*trail.get(10), 10);
    trail.set(4, 40);
    assert_eq!(*trail.get(4), 40);
    assert_eq!(*trail.get(5), 5);
}

#[test]
fn forgetting_nothing_and_everything() {
    let mut trail = Trail::new();
    for value in 0..5u8 {
        trail.push(value);
    }
    trail.forget(0);
    assert_eq!(trail.first(), 0);
    trail.forget(2);
    trail.forget(2);
    assert_eq!(trail.first(), 2);
    trail.forget(5);
    assert_eq!(trail.first(), 5);
    assert_eq!(trail.len(), 5);
    trail.push(9);
    assert_eq!(*trail.get(5), 9);
    assert_eq!(trail.len(), 6);
}
