//! Which keys the guest believes are held. It owns the rule that every key-down
//! is eventually closed by a key-up.

use vstd::prelude::*;

use crate::runtime::host::{Belief, HostAction};
use crate::seqs::{lemma_push_distinct, lemma_without_contains, lemma_without_push, without};

verus! {

pub const KEY_ESC: u32 = 1;

pub const KEY_LEFTCTRL: u32 = 29;

pub const KEY_LEFTALT: u32 = 56;

pub const KEY_RIGHTCTRL: u32 = 97;

pub const KEY_RIGHTALT: u32 = 100;

/// What one key event did.
#[derive(Debug)]
pub struct KeyOutcome {
    /// The guest input it completes, in order.
    pub actions: Vec<HostAction>,
    /// The ungrab chord was struck.
    pub ungrab: bool,
}

/// Ctrl and Alt are held and Esc comes down.
pub open spec fn is_chord(held: Seq<u32>, code: u32) -> bool {
    &&& code == KEY_ESC
    &&& held.contains(KEY_LEFTCTRL) || held.contains(KEY_RIGHTCTRL)
    &&& held.contains(KEY_LEFTALT) || held.contains(KEY_RIGHTALT)
}

/// One key-up for each held key, in the order they went down.
pub open spec fn key_releases(held: Seq<u32>) -> Seq<HostAction> {
    Seq::new(held.len(), |i: int| HostAction::Key { code: held[i], down: false })
}

/// The keys held after an event.
pub open spec fn held_after(held: Seq<u32>, code: u32, down: bool) -> Seq<u32> {
    if down == held.contains(code) {
        held
    } else if !down {
        without(held, code)
    } else if is_chord(held, code) {
        Seq::empty()
    } else {
        held.push(code)
    }
}

/// The guest input an event completes. A press of a held key and a release of
/// one that is not held say nothing; the chord is consumed and releases every
/// held key.
pub open spec fn key_actions(held: Seq<u32>, code: u32, down: bool) -> Seq<HostAction> {
    if down == held.contains(code) {
        Seq::empty()
    } else if down && is_chord(held, code) {
        key_releases(held)
    } else {
        seq![HostAction::Key { code, down }]
    }
}

/// The keys the guest believes are held, in the order they went down.
pub struct Keyboard {
    held: Vec<u32>,
}

impl View for Keyboard {
    type V = Seq<u32>;

    closed spec fn view(&self) -> Seq<u32> {
        self.held@
    }
}

impl Keyboard {
    /// A keyboard with nothing held.
    pub fn new() -> (keyboard: Keyboard)
        ensures
            keyboard@ == Seq::<u32>::empty(),
    {
        Keyboard { held: Vec::new() }
    }

    fn holds(&self, code: u32) -> (held: bool)
        ensures
            held == self@.contains(code),
    {
        let mut i: usize = 0;
        while i < self.held.len()
            invariant
                i <= self.held@.len(),
                forall|k: int| 0 <= k < i ==> self.held@[k] != code,
            decreases self.held@.len() - i,
        {
            if self.held[i] == code {
                return true;
            }
            i += 1;
        }
        false
    }

    /// A key went down or up.
    pub fn key(&mut self, code: u32, down: bool) -> (outcome: KeyOutcome)
        ensures
            final(self)@ == held_after(old(self)@, code, down),
            outcome.actions@ == key_actions(old(self)@, code, down),
            outcome.ungrab == (down && !old(self)@.contains(code) && is_chord(old(self)@, code)),
    {
        let mut actions: Vec<HostAction> = Vec::new();
        if down == self.holds(code) {
            return KeyOutcome { actions, ungrab: false };
        }
        if !down {
            self.forget(code);
            actions.push(HostAction::input_key(code, false));
            return KeyOutcome { actions, ungrab: false };
        }
        if code == KEY_ESC && (self.holds(KEY_LEFTCTRL) || self.holds(KEY_RIGHTCTRL)) && (
        self.holds(KEY_LEFTALT) || self.holds(KEY_RIGHTALT)) {
            let released = self.shutdown();
            return KeyOutcome { actions: released.actions, ungrab: true };
        }
        self.held.push(code);
        actions.push(HostAction::input_key(code, true));
        KeyOutcome { actions, ungrab: false }
    }

    /// The keyboard is going away: release everything it holds.
    pub fn shutdown(&mut self) -> (outcome: KeyOutcome)
        ensures
            final(self)@ == Seq::<u32>::empty(),
            outcome.actions@ == key_releases(old(self)@),
            !outcome.ungrab,
    {
        let mut actions: Vec<HostAction> = Vec::new();
        let mut i: usize = 0;
        while i < self.held.len()
            invariant
                i <= self.held@.len(),
                self.held@ == old(self).held@,
                actions@ =~= key_releases(self.held@).take(i as int),
            decreases self.held@.len() - i,
        {
            actions.push(HostAction::input_key(self.held[i], false));
            i += 1;
        }
        self.held.clear();
        KeyOutcome { actions, ungrab: false }
    }

    fn forget(&mut self, code: u32)
        ensures
            final(self)@ == without(old(self)@, code),
    {
        let mut kept: Vec<u32> = Vec::new();
        let mut i: usize = 0;
        assert(self.held@.take(0) =~= Seq::<u32>::empty());
        proof {
            lemma_without_contains(Seq::<u32>::empty(), code);
        }
        while i < self.held.len()
            invariant
                i <= self.held@.len(),
                self.held@ == old(self).held@,
                kept@ == without(self.held@.take(i as int), code),
            decreases self.held@.len() - i,
        {
            proof {
                lemma_without_push(self.held@.take(i as int), code, self.held@[i as int]);
                assert(self.held@.take(i + 1) =~= self.held@.take(i as int).push(
                    self.held@[i as int],
                ));
            }
            if self.held[i] != code {
                kept.push(self.held[i]);
            }
            i += 1;
        }
        assert(self.held@.take(i as int) =~= self.held@);
        self.held = kept;
    }
}

/// The belief of a guest that was told of exactly the held keys.
pub open spec fn believes_held(belief: Belief, held: Seq<u32>) -> bool {
    forall|code: u32| #[trigger] belief.keys.contains(code) <==> held.contains(code)
}

/// Releasing every held key is accepted action by action, and leaves a guest
/// that knew of exactly those keys believing that none is held.
pub proof fn law_releases_close_every_key(belief: Belief, held: Seq<u32>)
    requires
        held.no_duplicates(),
        believes_held(belief, held),
    ensures
        belief.accepts_all(key_releases(held)),
        belief.told_all(key_releases(held)) == (Belief { keys: Set::empty(), ..belief }),
{
    lemma_releases(belief, held, held.len() as int);
    assert(key_releases(held).take(held.len() as int) =~= key_releases(held));
    let after = belief.told_all(key_releases(held));
    assert(after.keys =~= Set::empty()) by {
        assert forall|code: u32| !after.keys.contains(code) by {
            if belief.keys.contains(code) {
                let i = choose|i: int| 0 <= i < held.len() && held[i] == code;
                assert(0 <= i < held.len());
            }
        }
    }
}

proof fn lemma_releases(belief: Belief, held: Seq<u32>, n: int)
    requires
        held.no_duplicates(),
        believes_held(belief, held),
        0 <= n <= held.len(),
    ensures
        belief.accepts_all(key_releases(held).take(n)),
        belief.told_all(key_releases(held).take(n)).buttons == belief.buttons,
        forall|code: u32| #[trigger]
            belief.told_all(key_releases(held).take(n)).keys.contains(code)
                <==> belief.keys.contains(code) && !(exists|i: int| 0 <= i < n && held[i] == code),
    decreases n,
{
    let run = key_releases(held).take(n);
    if n > 0 {
        lemma_releases(belief, held, n - 1);
        assert(run.drop_last() =~= key_releases(held).take(n - 1));
        assert(held.contains(held[n - 1]));
    }
}

/// Each key event is told to the guest as presses of keys that were up and
/// releases of keys that were down, and afterwards the guest believes held
/// exactly what the keyboard holds.
pub proof fn law_key_events_keep_belief(belief: Belief, held: Seq<u32>, code: u32, down: bool)
    requires
        held.no_duplicates(),
        believes_held(belief, held),
    ensures
        held_after(held, code, down).no_duplicates(),
        belief.accepts_all(key_actions(held, code, down)),
        believes_held(
            belief.told_all(key_actions(held, code, down)),
            held_after(held, code, down),
        ),
        belief.told_all(key_actions(held, code, down)).buttons == belief.buttons,
{
    let after = held_after(held, code, down);
    if down == held.contains(code) {
    } else if !down {
        belief.lemma_told_one(HostAction::Key { code, down });
        lemma_without_contains(held, code);
    } else if is_chord(held, code) {
        law_releases_close_every_key(belief, held);
    } else {
        belief.lemma_told_one(HostAction::Key { code, down });
        lemma_push_distinct(held, code);
    }
}

/// A press of a key that is up is told, as that key, and its release after it;
/// a press of a key that is down and a release of one that is up say nothing and
/// change nothing.
pub proof fn law_a_key_is_told_as_itself(held: Seq<u32>, code: u32)
    requires
        held.no_duplicates(),
    ensures
        held.contains(code) ==> key_actions(held, code, true).len() == 0 && held_after(
            held,
            code,
            true,
        ) == held,
        !held.contains(code) ==> key_actions(held, code, false).len() == 0 && held_after(
            held,
            code,
            false,
        ) == held,
        held.contains(code) ==> key_actions(held, code, false) == seq![
            HostAction::Key { code, down: false },
        ] && !held_after(held, code, false).contains(code),
        !held.contains(code) && !is_chord(held, code) ==> {
            &&& key_actions(held, code, true) == seq![HostAction::Key { code, down: true }]
            &&& held_after(held, code, true).contains(code)
            &&& key_actions(held_after(held, code, true), code, false) == seq![
                HostAction::Key { code, down: false },
            ]
        },
        forall|other: u32|
            other != code && !(is_chord(held, code) && !held.contains(code)) ==> (#[trigger]
            held_after(held, code, true).contains(other) <==> held.contains(other)),
        forall|other: u32|
            other != code ==> (#[trigger] held_after(held, code, false).contains(other)
                <==> held.contains(other)),
{
    lemma_without_contains(held, code);
    lemma_push_distinct(held, code);
}

/// The chord is Esc pressed while a Ctrl and an Alt are held, left or right. It
/// is not told; every key that was held is told to go up, in the order they went
/// down, and none is held after it.
pub proof fn law_the_chord_releases_what_is_held(held: Seq<u32>, code: u32)
    ensures
        is_chord(held, code) <==> code == 1 && (held.contains(29) || held.contains(97)) && (
        held.contains(56) || held.contains(100)),
        is_chord(held, code) && !held.contains(code) ==> {
            &&& held_after(held, code, true).len() == 0
            &&& key_actions(held, code, true).len() == held.len()
            &&& forall|i: int|
                0 <= i < held.len() ==> #[trigger] key_actions(held, code, true)[i] == (
                HostAction::Key { code: held[i], down: false })
        },
{
}

} // verus!
