use station::hands::{Hand, Hands};

fn hands_of(held: &[Option<u64>], selected: usize) -> Hands {
    Hands { all_hands: held.iter().map(|h| Hand { grab_ent: *h }).collect(), selected_hand: selected }
}

fn held(h: &Hands) -> Vec<Option<u64>> {
    h.all_hands.iter().map(|x| x.grab_ent).collect()
}

#[test]
fn new_pair_is_two_empty_hands() {
    let h = Hands::new_pair();
    assert_eq!(held(&h), vec![None, None]);
    assert_eq!(h.selected_hand, 0);
}

#[test]
fn change_hand_cycles() {
    let mut h = Hands::new_pair();
    h.change_hand(true);
    assert_eq!(h.selected_hand, 1);
    h.change_hand(false);
    assert_eq!(h.selected_hand, 1);
    h.change_hand(true);
    assert_eq!(h.selected_hand, 0);
    let mut three = hands_of(&[None, None, None], 2);
    for _ in 0..3 {
        three.change_hand(true);
    }
    assert_eq!(three.selected_hand, 2);
}

#[test]
fn grab_granted_only_when_allowed() {
    let mut h = Hands::new_pair();
    assert!(!h.grab_answer(0, 5, false, true));
    assert!(!h.grab_answer(0, 5, true, false));
    assert_eq!(held(&h), vec![None, None]);
    assert!(h.grab_answer(1, 5, true, true));
    assert_eq!(held(&h), vec![None, Some(5)]);
    // hand already full
    assert!(!h.grab_answer(1, 6, true, true));
    assert_eq!(held(&h), vec![None, Some(5)]);
    // not grabbable: the hand index is not even read
    assert!(!h.grab_answer(9, 6, false, true));
}

#[test]
fn grab_then_throw_gives_item_back() {
    let mut h = Hands::new_pair();
    assert!(h.grab_answer(0, 42, true, true));
    assert_eq!(h.throw_answer(0), Some(42));
    assert_eq!(held(&h), vec![None, None]);
    assert_eq!(h.throw_answer(0), None);
}

#[test]
fn hold_in_selected_overwrites() {
    let mut h = hands_of(&[Some(1), Some(2)], 1);
    h.hold_in_selected(9);
    assert_eq!(held(&h), vec![Some(1), Some(9)]);
    assert_eq!(h.held_in(1), Some(9));
}

#[test]
fn release_entity_frees_first_holder() {
    let mut h = hands_of(&[Some(3), Some(4), Some(3)], 0);
    assert_eq!(h.release_entity(3), Some(0));
    assert_eq!(held(&h), vec![None, Some(4), Some(3)]);
    assert_eq!(h.release_entity(3), Some(2));
    assert_eq!(h.release_entity(3), None);
    assert_eq!(held(&h), vec![None, Some(4), None]);
}

#[test]
fn try_throw_needs_item_cursor_and_key() {
    let h = hands_of(&[Some(3), None], 0);
    assert_eq!(h.try_throw(true, true), Some(0));
    assert_eq!(h.try_throw(false, true), None);
    assert_eq!(h.try_throw(true, false), None);
    let empty = hands_of(&[Some(3), None], 1);
    assert_eq!(empty.try_throw(true, true), None);
}
