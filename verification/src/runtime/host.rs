//! The actions the host performs for the guest.

use vstd::prelude::*;

use crate::runtime::input::ReimsVgpuButton;

verus! {

/// One piece of guest input.
#[derive(Clone, Copy, Debug, PartialEq, Eq, Structural)]
pub enum HostAction {
    Key { code: u32, down: bool },
    PointerButton { button: ReimsVgpuButton, down: bool },
    PointerMove { x: u32, y: u32, width: u32, height: u32 },
}

impl HostAction {
    /// A key went down or up. `code` is the Linux key code.
    pub fn input_key(code: u32, down: bool) -> (action: HostAction)
        ensures
            action == (HostAction::Key { code, down }),
    {
        HostAction::Key { code, down }
    }

    /// A pointer button went down or up.
    pub fn input_pointer_button(button: ReimsVgpuButton, down: bool) -> (action: HostAction)
        ensures
            action == (HostAction::PointerButton { button, down }),
    {
        HostAction::PointerButton { button, down }
    }

    /// The pointer is at `(x, y)` of a `width`x`height` frame.
    pub fn input_pointer_move(x: u32, y: u32, width: u32, height: u32) -> (action: HostAction)
        ensures
            action == (HostAction::PointerMove { x, y, width, height }),
    {
        HostAction::PointerMove { x, y, width, height }
    }
}

/// What the guest believes is held down.
#[verifier::ext_equal]
pub struct Belief {
    pub keys: Set<u32>,
    pub buttons: Set<ReimsVgpuButton>,
}

impl Belief {
    /// Nothing is held.
    pub open spec fn nothing() -> Belief {
        Belief { keys: Set::empty(), buttons: Set::empty() }
    }

    /// The belief after one more action.
    pub open spec fn told(self, action: HostAction) -> Belief {
        match action {
            HostAction::Key { code, down } => Belief {
                keys: if down {
                    self.keys.insert(code)
                } else {
                    self.keys.remove(code)
                },
                ..self
            },
            HostAction::PointerButton { button, down } => Belief {
                buttons: if down {
                    self.buttons.insert(button)
                } else {
                    self.buttons.remove(button)
                },
                ..self
            },
            HostAction::PointerMove { .. } => self,
        }
    }

    /// Whether an action changes what it names: a press of something up, a
    /// release of something down.
    pub open spec fn accepts(self, action: HostAction) -> bool {
        match action {
            HostAction::Key { code, down } => self.keys.contains(code) != down,
            HostAction::PointerButton { button, down } => self.buttons.contains(button) != down,
            HostAction::PointerMove { .. } => true,
        }
    }

    /// The belief after a run of actions.
    pub open spec fn told_all(self, actions: Seq<HostAction>) -> Belief
        decreases actions.len(),
    {
        if actions.len() == 0 {
            self
        } else {
            self.told_all(actions.drop_last()).told(actions.last())
        }
    }

    /// Whether each action of a run is accepted where it comes.
    pub open spec fn accepts_all(self, actions: Seq<HostAction>) -> bool
        decreases actions.len(),
    {
        actions.len() == 0 || (self.accepts_all(actions.drop_last()) && self.told_all(
            actions.drop_last(),
        ).accepts(actions.last()))
    }

    /// Telling one run and another is telling both in a row.
    pub proof fn lemma_told_concat(self, a: Seq<HostAction>, b: Seq<HostAction>)
        ensures
            self.told_all(a + b) == self.told_all(a).told_all(b),
            self.accepts_all(a + b) == (self.accepts_all(a) && self.told_all(a).accepts_all(b)),
        decreases b.len(),
    {
        if b.len() == 0 {
            assert(a + b =~= a);
        } else {
            assert((a + b).drop_last() =~= a + b.drop_last());
            self.lemma_told_concat(a, b.drop_last());
        }
    }

    /// A run of one action.
    pub proof fn lemma_told_one(self, action: HostAction)
        ensures
            self.told_all(seq![action]) == self.told(action),
            self.accepts_all(seq![action]) == self.accepts(action),
    {
        let run = seq![action];
        assert(run.drop_last() =~= Seq::<HostAction>::empty());
        assert(run.last() == action);
        assert(self.told_all(run.drop_last()) == self);
        assert(self.accepts_all(run.drop_last()));
    }
}

} // verus!
