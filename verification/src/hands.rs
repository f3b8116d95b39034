use vstd::prelude::*;

verus! {

/// One hand of a character: the entity it holds, if any. How far the hand reaches is a
/// length in world units that stays with the caller, which tells these functions whether
/// a target is in reach.
#[derive(Clone, Copy, Debug, Default, PartialEq, Eq, Structural)]
pub struct Hand {
    pub grab_ent: Option<u64>,
}

/// The hands of a character and the one in use.
#[derive(Clone, Debug, Default)]
pub struct Hands {
    pub all_hands: Vec<Hand>,
    pub selected_hand: usize,
}

/// What each hand holds, in order.
pub open spec fn held(hands: &Hands) -> Seq<Option<u64>> {
    hands.all_hands@.map_values(|h: Hand| h.grab_ent)
}

/// The index of the first hand in `hs` that holds `ent`, if one does.
pub open spec fn first_holding(hs: Seq<Option<u64>>, ent: u64) -> Option<int>
    decreases hs.len(),
{
    if hs.len() == 0 {
        None
    } else if hs[0] == Some(ent) {
        Some(0)
    } else {
        match first_holding(hs.drop_first(), ent) {
            Some(i) => Some(i + 1),
            None => None,
        }
    }
}

impl Hands {
    /// The hands a character is spawned with: two empty hands, the first one in use.
    pub fn new_pair() -> (h: Hands)
        ensures
            held(&h) == seq![None::<u64>, None::<u64>],
            h.selected_hand == 0,
    {
        let mut all_hands: Vec<Hand> = Vec::new();
        all_hands.push(Hand { grab_ent: None });
        all_hands.push(Hand { grab_ent: None });
        let h = Hands { all_hands, selected_hand: 0 };
        assert(held(&h) =~= seq![None::<u64>, None::<u64>]);
        h
    }

    /// What hand `idx` holds.
    pub fn held_in(&self, idx: usize) -> (r: Option<u64>)
        requires
            idx < self.all_hands@.len(),
        ensures
            r == held(self)[idx as int],
    {
        self.all_hands[idx].grab_ent
    }

    /// On X, the next hand comes into use, wrapping round after the last one.
    pub fn change_hand(&mut self, x_pressed: bool)
        requires
            x_pressed ==> old(self).all_hands@.len() > 0,
            x_pressed ==> old(self).selected_hand < usize::MAX,
        ensures
            final(self).all_hands@ == old(self).all_hands@,
            final(self).selected_hand == if x_pressed {
                ((old(self).selected_hand + 1) % (old(self).all_hands@.len() as int)) as usize
            } else {
                old(self).selected_hand
            },
    {
        if x_pressed {
            self.selected_hand = (self.selected_hand + 1) % self.all_hands.len();
        }
    }

    /// Answers a request to pick up `can_be_grabbed` with hand `hand_idx`: it succeeds when
    /// the item is grabbable, the hand is empty and the item is in reach; the hand then
    /// holds the item. Otherwise nothing changes.
    pub fn grab_answer(&mut self, hand_idx: usize, can_be_grabbed: u64, grabbable: bool, in_reach: bool) -> (granted: bool)
        requires
            grabbable ==> hand_idx < old(self).all_hands@.len(),
        ensures
            granted == (grabbable && held(old(self))[hand_idx as int] is None && in_reach),
            final(self).selected_hand == old(self).selected_hand,
            granted ==> held(final(self)) == held(old(self)).update(hand_idx as int, Some(can_be_grabbed)),
            !granted ==> held(final(self)) == held(old(self)),
            final(self).all_hands@.len() == old(self).all_hands@.len(),
    {
        if !grabbable {
            return false;
        }
        if self.all_hands[hand_idx].grab_ent.is_none() && in_reach {
            self.all_hands.set(hand_idx, Hand { grab_ent: Some(can_be_grabbed) });
            assert(held(self) =~= held(old(self)).update(hand_idx as int, Some(can_be_grabbed)));
            true
        } else {
            false
        }
    }

    /// Empties hand `hand_idx` and gives back what it held.
    pub fn throw_answer(&mut self, hand_idx: usize) -> (thrown: Option<u64>)
        requires
            hand_idx < old(self).all_hands@.len(),
        ensures
            thrown == held(old(self))[hand_idx as int],
            held(final(self)) == held(old(self)).update(hand_idx as int, None),
            final(self).selected_hand == old(self).selected_hand,
            final(self).all_hands@.len() == old(self).all_hands@.len(),
    {
        let thrown = self.all_hands[hand_idx].grab_ent;
        self.all_hands.set(hand_idx, Hand { grab_ent: None });
        assert(held(self) =~= held(old(self)).update(hand_idx as int, None));
        thrown
    }

    /// Puts `ent` into the hand in use, whatever that hand held.
    pub fn hold_in_selected(&mut self, ent: u64)
        requires
            old(self).selected_hand < old(self).all_hands@.len(),
        ensures
            held(final(self)) == held(old(self)).update(old(self).selected_hand as int, Some(ent)),
            final(self).selected_hand == old(self).selected_hand,
            final(self).all_hands@.len() == old(self).all_hands@.len(),
    {
        let idx = self.selected_hand;
        self.all_hands.set(idx, Hand { grab_ent: Some(ent) });
        assert(held(self) =~= held(old(self)).update(idx as int, Some(ent)));
    }

    /// Empties the first hand that holds `ent` and gives back its index; `None`, with
    /// nothing changed, when no hand holds it.
    pub fn release_entity(&mut self, ent: u64) -> (idx: Option<usize>)
        ensures
            idx matches Some(i) ==> first_holding(held(old(self)), ent) == Some(i as int),
            idx is None ==> first_holding(held(old(self)), ent) is None,
            held(final(self)) == match idx {
                Some(i) => held(old(self)).update(i as int, None),
                None => held(old(self)),
            },
            final(self).selected_hand == old(self).selected_hand,
            final(self).all_hands@.len() == old(self).all_hands@.len(),
    {
        let mut i: usize = 0;
        while i < self.all_hands.len()
            invariant
                0 <= i <= self.all_hands@.len(),
                *self == *old(self),
                forall|j: int| 0 <= j < i ==> held(self)[j] != Some(ent),
            decreases self.all_hands@.len() - i,
        {
            if self.all_hands[i].grab_ent == Some(ent) {
                proof {
                    lemma_first_holding(held(self), ent, i as int);
                }
                self.all_hands.set(i, Hand { grab_ent: None });
                assert(held(self) =~= held(old(self)).update(i as int, None));
                return Some(i);
            }
            i = i + 1;
        }
        proof {
            lemma_first_holding_none(held(self), ent);
        }
        None
    }

    /// Decides whether to ask the server to throw: with Q held, the hand in use holding
    /// something and the cursor on the world, the index of the hand in use.
    pub fn try_throw(&self, cursor_on_world: bool, q_pressed: bool) -> (r: Option<usize>)
        requires
            self.selected_hand < self.all_hands@.len(),
        ensures
            r == if held(self)[self.selected_hand as int] is Some && cursor_on_world && q_pressed {
                Some(self.selected_hand)
            } else {
                None
            },
    {
        let hand_idx = self.selected_hand;
        if self.all_hands[hand_idx].grab_ent.is_none() {
            return None;
        }
        if !cursor_on_world {
            return None;
        }
        if q_pressed {
            Some(hand_idx)
        } else {
            None
        }
    }
}

/// Law: `first_holding` finds a hand that holds `ent` and no earlier hand holds it; it
/// finds nothing exactly when no hand holds `ent`.
pub proof fn lemma_first_holding_is_first(hs: Seq<Option<u64>>, ent: u64)
    ensures
        first_holding(hs, ent) matches Some(i) ==> 0 <= i < hs.len() && hs[i] == Some(ent)
            && forall|j: int| 0 <= j < i ==> hs[j] != Some(ent),
        first_holding(hs, ent) is None <==> forall|j: int| 0 <= j < hs.len() ==> hs[j] != Some(ent),
    decreases hs.len(),
{
    if hs.len() > 0 {
        lemma_first_holding_is_first(hs.drop_first(), ent);
        let rest = hs.drop_first();
        if hs[0] != Some(ent) {
            assert forall|j: int| 0 < j < hs.len() implies hs[j] == rest[j - 1] by {}
            if first_holding(rest, ent) is None {
                assert forall|j: int| 0 <= j < hs.len() implies hs[j] != Some(ent) by {
                    if j > 0 {
                        assert(hs[j] == rest[j - 1]);
                    }
                }
            } else {
                let k = first_holding(rest, ent)->0;
                assert(hs[k + 1] == rest[k]);
                assert forall|j: int| 0 <= j < k + 1 implies hs[j] != Some(ent) by {
                    if j > 0 {
                        assert(hs[j] == rest[j - 1]);
                    }
                }
            }
        }
    }
}

proof fn lemma_first_holding(hs: Seq<Option<u64>>, ent: u64, i: int)
    requires
        0 <= i < hs.len(),
        hs[i] == Some(ent),
        forall|j: int| 0 <= j < i ==> hs[j] != Some(ent),
    ensures
        first_holding(hs, ent) == Some(i),
    decreases i,
{
    if i > 0 {
        lemma_first_holding(hs.drop_first(), ent, i - 1);
    }
}

proof fn lemma_first_holding_none(hs: Seq<Option<u64>>, ent: u64)
    requires
        forall|j: int| 0 <= j < hs.len() ==> hs[j] != Some(ent),
    ensures
        first_holding(hs, ent) is None,
    decreases hs.len(),
{
    if hs.len() > 0 {
        lemma_first_holding_none(hs.drop_first(), ent);
    }
}

/// Law: throwing from a hand right after a granted grab with it gives back the grabbed
/// item, and every hand then holds what it held before the grab.
pub proof fn lemma_grab_then_throw(
    before: Hands,
    after_grab: Hands,
    after_throw: Hands,
    hand_idx: usize,
    item: u64,
    thrown: Option<u64>,
)
    requires
        hand_idx < before.all_hands@.len(),
        held(&after_grab) == held(&before).update(hand_idx as int, Some(item)),
        thrown == held(&after_grab)[hand_idx as int],
        held(&after_throw) == held(&after_grab).update(hand_idx as int, None),
        held(&before)[hand_idx as int] is None,
    ensures
        thrown == Some(item),
        held(&after_throw) == held(&before),
{
    assert(held(&after_throw) =~= held(&before));
}

/// The hand in use after X has been pressed `n` times, starting from `selected`, with
/// `len` hands.
pub open spec fn selected_after_presses(selected: int, len: int, n: nat) -> int
    decreases n,
{
    if n == 0 {
        selected
    } else {
        (selected_after_presses(selected, len, (n - 1) as nat) + 1) % len
    }
}

/// Law: from a hand in use, `n` presses of X move `n` hands on, wrapping round; in
/// particular, as many presses as there are hands bring the same hand back into use.
pub proof fn lemma_change_hand_cycle(selected: int, len: int, n: nat)
    requires
        len > 0,
        0 <= selected < len,
    ensures
        selected_after_presses(selected, len, n) == (selected + n) % len,
        selected_after_presses(selected, len, len as nat) == selected,
{
    lemma_presses_closed_form(selected, len, n);
    lemma_cycle_len(selected, len);
}

proof fn lemma_cycle_len(selected: int, len: int)
    requires
        len > 0,
        0 <= selected < len,
    ensures
        selected_after_presses(selected, len, len as nat) == selected,
{
    lemma_presses_closed_form(selected, len, len as nat);
    vstd::arithmetic::div_mod::lemma_add_mod_noop(selected, len, len);
    vstd::arithmetic::div_mod::lemma_mod_self_0(len);
    vstd::arithmetic::div_mod::lemma_small_mod(selected as nat, len as nat);
    vstd::arithmetic::div_mod::lemma_mod_twice(selected, len);
}

proof fn lemma_presses_closed_form(selected: int, len: int, n: nat)
    requires
        len > 0,
        0 <= selected < len,
    ensures
        selected_after_presses(selected, len, n) == (selected + n) % len,
    decreases n,
{
    if n > 0 {
        lemma_presses_closed_form(selected, len, (n - 1) as nat);
        vstd::arithmetic::div_mod::lemma_add_mod_noop(selected + n - 1, 1, len);
        vstd::arithmetic::div_mod::lemma_mod_twice(selected + n - 1, len);
        if len > 1 {
            vstd::arithmetic::div_mod::lemma_small_mod(1, len as nat);
        } else {
            assert(((selected + n - 1) % len + 1) % len == 0);
            assert((selected + n) % len == 0);
        }
    } else {
        vstd::arithmetic::div_mod::lemma_small_mod(selected as nat, len as nat);
    }
}

} // verus!
