use refboard::{Card, CardStore, Rotation, DEFAULT_CARD_SIZE_PX, HANDLE_RADIUS_PX, MIN_CARD_SIZE_PX};

fn store_of(n: usize) -> (CardStore, Vec<usize>) {
    let mut store = CardStore::new();
    let mut ids = Vec::new();
    for i in 0..n {
        ids.push(store.create(format!("image-{}", i), (10 * i as i32, 0)));
    }
    (store, ids)
}

fn places(store: &CardStore) -> Vec<i32> {
    store.cards().iter().map(|card: &Card| card.z()).collect()
}

fn sorted(mut values: Vec<i32>) -> Vec<i32> {
    values.sort();
    values
}

#[test]
fn constants_have_their_values() {
    assert_eq!(HANDLE_RADIUS_PX, 5);
    assert_eq!(MIN_CARD_SIZE_PX, 11);
    assert_eq!(DEFAULT_CARD_SIZE_PX, 300);
}

#[test]
fn new_store_is_empty() {
    let store = CardStore::new();
    assert_eq!(store.len(), 0);
    assert!(store.cards().is_empty());
    assert!(store.stacking_order().is_empty());
    assert!(store.has_room());
    assert!(!store.contains(0));
    assert!(store.get(0).is_none());
}

#[test]
fn create_appends_on_top_with_defaults() {
    let mut store = CardStore::new();
    let first = store.create("a.png".to_string(), (3, -4));
    let second = store.create("b.png".to_string(), (400, 0));
    assert_eq!(first, 0);
    assert_eq!(second, 1);
    assert_eq!(store.len(), 2);

    let a = store.get(first).unwrap();
    assert_eq!(a.id(), first);
    assert_eq!(a.image(), "a.png");
    assert_eq!(a.position(), (3, -4));
    assert_eq!(a.size(), (300, 300));
    assert_eq!(a.rotation(), Rotation::Zero);
    assert_eq!(a.z(), 0);

    let b = store.get(second).unwrap();
    assert_eq!(b.image(), "b.png");
    assert_eq!(b.position(), (400, 0));
    assert_eq!(b.z(), 1);
}

#[test]
fn create_keeps_storage_order() {
    let (store, ids) = store_of(4);
    let stored: Vec<usize> = store.cards().iter().map(|card: &Card| card.id()).collect();
    assert_eq!(stored, ids);
}

#[test]
fn raise_two_cards_swaps_places() {
    let (mut store, ids) = store_of(2);
    assert_eq!(places(&store), vec![0, 1]);
    assert!(store.raise_to_front(ids[0]));
    assert_eq!(places(&store), vec![1, 0]);
}

#[test]
fn raise_of_front_card_changes_nothing() {
    let (mut store, ids) = store_of(4);
    assert!(store.raise_to_front(ids[3]));
    assert_eq!(places(&store), vec![0, 1, 2, 3]);
    assert!(store.raise_to_front(ids[3]));
    assert_eq!(places(&store), vec![0, 1, 2, 3]);
}

#[test]
fn raise_moves_cards_above_down_by_one() {
    let (mut store, ids) = store_of(5);
    assert!(store.raise_to_front(ids[1]));
    assert_eq!(places(&store), vec![0, 4, 1, 2, 3]);
    assert!(store.raise_to_front(ids[0]));
    assert_eq!(places(&store), vec![4, 3, 0, 1, 2]);
    assert!(store.raise_to_front(ids[3]));
    assert_eq!(places(&store), vec![3, 2, 0, 4, 1]);
}

#[test]
fn raise_changes_places_only() {
    let (mut store, ids) = store_of(3);
    store.translate(ids[0], 7, 9);
    store.rotate_toward(ids[0], 500, 500);
    assert!(store.raise_to_front(ids[0]));
    let card = store.get(ids[0]).unwrap();
    assert_eq!(card.position(), (7, 9));
    assert_eq!(card.size(), (300, 300));
    assert_eq!(card.image(), "image-0");
    assert_eq!(
        card.rotation(),
        Rotation::Toward { cursor_dx: 343, cursor_dy: 341, handle_dx: 300, handle_dy: 300 }
    );
    assert_eq!(card.z(), 2);
}

#[test]
fn raise_of_missing_card_changes_nothing() {
    let (mut store, _) = store_of(3);
    assert!(!store.raise_to_front(17));
    assert_eq!(places(&store), vec![0, 1, 2]);
}

#[test]
fn places_stay_a_permutation_under_create_and_raise() {
    let mut store = CardStore::new();
    let mut ids = Vec::new();
    for round in 0..12usize {
        ids.push(store.create(String::new(), (0, 0)));
        let pick = ids[(round * 7 + 3) % ids.len()];
        assert!(store.raise_to_front(pick));
        assert_eq!(store.get(pick).unwrap().z(), ids.len() as i32 - 1);
        let expected: Vec<i32> = (0..ids.len() as i32).collect();
        assert_eq!(sorted(places(&store)), expected);
    }
}

#[test]
fn remove_closes_the_gap_in_the_stack() {
    let (mut store, ids) = store_of(4);
    assert!(store.remove(ids[1]));
    assert_eq!(store.len(), 3);
    assert!(!store.contains(ids[1]));
    assert!(store.get(ids[1]).is_none());
    assert_eq!(places(&store), vec![0, 1, 2]);
    let stored: Vec<usize> = store.cards().iter().map(|card: &Card| card.id()).collect();
    assert_eq!(stored, vec![ids[0], ids[2], ids[3]]);
}

#[test]
fn remove_after_raise_keeps_the_stack_dense() {
    let (mut store, ids) = store_of(4);
    store.raise_to_front(ids[0]);
    assert_eq!(places(&store), vec![3, 0, 1, 2]);
    assert!(store.remove(ids[2]));
    assert_eq!(places(&store), vec![2, 0, 1]);
    assert!(store.remove(ids[0]));
    assert_eq!(places(&store), vec![0, 1]);
}

#[test]
fn remove_of_missing_card_changes_nothing() {
    let (mut store, ids) = store_of(2);
    assert!(!store.remove(99));
    assert_eq!(store.len(), 2);
    assert_eq!(places(&store), vec![0, 1]);
    assert!(store.contains(ids[0]));
    assert!(store.contains(ids[1]));
}

#[test]
fn identifiers_are_never_given_again() {
    let (mut store, ids) = store_of(3);
    assert!(store.remove(ids[2]));
    assert!(store.remove(ids[0]));
    let fresh = store.create(String::new(), (0, 0));
    assert_eq!(fresh, 3);
    assert!(!store.contains(ids[0]));
    assert!(!store.contains(ids[2]));
    assert_eq!(store.get(fresh).unwrap().z(), 1);
    assert_eq!(store.get(ids[1]).unwrap().z(), 0);
}

#[test]
fn translate_is_unclamped() {
    let (mut store, ids) = store_of(2);
    assert!(store.translate(ids[1], -500, 250));
    assert_eq!(store.get(ids[1]).unwrap().position(), (-490, 250));
    assert!(store.translate(ids[1], 1, -1));
    assert_eq!(store.get(ids[1]).unwrap().position(), (-489, 249));
    assert_eq!(store.get(ids[0]).unwrap().position(), (0, 0));
}

#[test]
fn translate_of_missing_card_changes_nothing() {
    let (mut store, ids) = store_of(1);
    assert!(!store.translate(5, 10, 10));
    assert_eq!(store.get(ids[0]).unwrap().position(), (0, 0));
}

#[test]
fn resize_far_below_the_minimum_is_clamped() {
    let (mut store, ids) = store_of(1);
    assert!(store.resize(ids[0], -1000, -1000));
    assert_eq!(store.get(ids[0]).unwrap().size(), (11, 11));
}

#[test]
fn resize_by_the_most_negative_delta_is_clamped() {
    let (mut store, ids) = store_of(1);
    assert!(store.resize(ids[0], i32::MIN, i32::MIN));
    assert_eq!(store.get(ids[0]).unwrap().size(), (MIN_CARD_SIZE_PX, MIN_CARD_SIZE_PX));
    assert!(store.resize(ids[0], 0, 0));
    assert_eq!(store.get(ids[0]).unwrap().size(), (MIN_CARD_SIZE_PX, MIN_CARD_SIZE_PX));
}

#[test]
fn resize_clamps_each_axis_on_its_own() {
    let (mut store, ids) = store_of(1);
    assert!(store.resize(ids[0], 50, -295));
    assert_eq!(store.get(ids[0]).unwrap().size(), (350, 11));
    assert!(store.resize(ids[0], -339, 1));
    assert_eq!(store.get(ids[0]).unwrap().size(), (11, 12));
    assert!(store.resize(ids[0], -1, 0));
    assert_eq!(store.get(ids[0]).unwrap().size(), (11, 12));
}

#[test]
fn resize_to_exactly_the_minimum() {
    let (mut store, ids) = store_of(1);
    assert!(store.resize(ids[0], -289, -290));
    assert_eq!(store.get(ids[0]).unwrap().size(), (11, 11));
}

#[test]
fn resize_leaves_the_corner_in_place() {
    let (mut store, ids) = store_of(2);
    assert!(store.resize(ids[1], 20, 30));
    let card = store.get(ids[1]).unwrap();
    assert_eq!(card.position(), (10, 0));
    assert_eq!(card.size(), (320, 330));
    assert_eq!(store.get(ids[0]).unwrap().size(), (300, 300));
}

#[test]
fn rotate_toward_keeps_the_vectors() {
    let (mut store, ids) = store_of(1);
    assert!(store.rotate_toward(ids[0], 450, 150));
    assert_eq!(
        store.get(ids[0]).unwrap().rotation(),
        Rotation::Toward { cursor_dx: 300, cursor_dy: 0, handle_dx: 300, handle_dy: 300 }
    );
}

#[test]
fn rotate_toward_halves_toward_zero() {
    let (mut store, ids) = store_of(1);
    store.resize(ids[0], 1, 5);
    store.translate(ids[0], -7, 3);
    assert_eq!(store.get(ids[0]).unwrap().size(), (301, 305));
    assert!(store.rotate_toward(ids[0], 0, 0));
    assert_eq!(
        store.get(ids[0]).unwrap().rotation(),
        Rotation::Toward { cursor_dx: -143, cursor_dy: -155, handle_dx: 301, handle_dy: 305 }
    );
}

#[test]
fn rotate_toward_at_the_far_corners_of_the_plane() {
    let (mut store, ids) = store_of(1);
    store.translate(ids[0], i32::MAX, i32::MAX);
    assert!(store.rotate_toward(ids[0], i32::MIN, i32::MIN));
    let far = i32::MIN as i64 - (i32::MAX as i64 + 150);
    assert_eq!(
        store.get(ids[0]).unwrap().rotation(),
        Rotation::Toward { cursor_dx: far, cursor_dy: far, handle_dx: 300, handle_dy: 300 }
    );
}

#[test]
fn rotation_handle_vector_follows_the_size() {
    let (mut store, ids) = store_of(1);
    assert_eq!(store.get(ids[0]).unwrap().rotation_handle_vector(), (300, 300));
    store.resize(ids[0], -100, 40);
    assert_eq!(store.get(ids[0]).unwrap().rotation_handle_vector(), (200, 340));
}

#[test]
fn reset_rotation_gives_zero() {
    let (mut store, ids) = store_of(2);
    store.rotate_toward(ids[0], 1, 2);
    store.rotate_toward(ids[1], 3, 4);
    assert!(store.reset_rotation(ids[0]));
    assert_eq!(store.get(ids[0]).unwrap().rotation(), Rotation::Zero);
    assert_ne!(store.get(ids[1]).unwrap().rotation(), Rotation::Zero);
    assert!(store.reset_rotation(ids[0]));
    assert_eq!(store.get(ids[0]).unwrap().rotation(), Rotation::Zero);
    assert!(!store.reset_rotation(40));
}

#[test]
fn stacking_order_goes_from_back_to_front() {
    let (mut store, ids) = store_of(4);
    assert_eq!(store.stacking_order(), ids);
    store.raise_to_front(ids[1]);
    assert_eq!(store.stacking_order(), vec![ids[0], ids[2], ids[3], ids[1]]);
    store.raise_to_front(ids[0]);
    assert_eq!(store.stacking_order(), vec![ids[2], ids[3], ids[1], ids[0]]);
    store.remove(ids[3]);
    assert_eq!(store.stacking_order(), vec![ids[2], ids[1], ids[0]]);
    for (place, id) in store.stacking_order().into_iter().enumerate() {
        assert_eq!(store.get(id).unwrap().z(), place as i32);
    }
}

#[test]
fn cards_compare_by_their_fields() {
    let (store, ids) = store_of(2);
    let (other, _) = store_of(2);
    assert_eq!(store.get(ids[0]).unwrap(), other.get(ids[0]).unwrap());
    assert_ne!(store.get(ids[0]).unwrap(), store.get(ids[1]).unwrap());
}
