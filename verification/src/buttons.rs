//! The front panel buttons and the door switches.
//!
//! Both are mechanical contacts on pins that could interrupt, and both are polled instead. An interrupt per
//! edge would fire dozens of times per press while the contact bounces, and the work to suppress that is the
//! same debouncing done here, with the difference that polling cannot be swamped by a contact that has started
//! to chatter with age.
//!
//! A contact counts as changed once it has held its new state for [`DEBOUNCE_MS`](crate::config::DEBOUNCE_MS).
//! Presses are reported once, on the way down; a hold is not a repeat.
use vstd::prelude::*;

use crate::config::{BUTTON_COUNT, DEBOUNCE_MS, DOOR_COUNT, INPUT_POLL_MS};
use crate::error::{self, Errors};
use crate::event::{Button, Event};

verus! {

/// Consecutive agreeing samples a contact needs before it is believed: as many as fit in the time a contact has
/// to hold, but at least one. Believing every sample is what debouncing exists to avoid.
pub const STABLE_SAMPLES: u8 = 2;

/// The number of samples is what the two times ask for.
pub proof fn law_samples_span_the_debounce_time()
    ensures
        STABLE_SAMPLES == DEBOUNCE_MS / INPUT_POLL_MS,
        DEBOUNCE_MS == 50 && INPUT_POLL_MS == 25,
        STABLE_SAMPLES >= 1,
{
}

/// One contact's debounce state.
#[derive(Copy, Clone, Debug, Eq, PartialEq, Structural)]
pub struct Debounced {
    /// The level currently believed.
    pub stable: bool,
    /// The level the last sample saw.
    pub last: bool,
    /// How many samples in a row have agreed with `last`, as far as that matters.
    pub agreed: u8,
}

impl Debounced {
    /// At least the last sample agrees with itself, and a level that enough samples agree on is believed.
    pub open spec fn wf(self) -> bool {
        &&& 1 <= self.agreed <= STABLE_SAMPLES
        &&& self.agreed == STABLE_SAMPLES ==> self.stable == self.last
    }

    /// How many samples in a row agree once `level` has been seen, as far as that matters.
    pub open spec fn agreeing(self, level: bool) -> u8 {
        if level != self.last {
            1
        } else if self.agreed < STABLE_SAMPLES {
            (self.agreed + 1) as u8
        } else {
            self.agreed
        }
    }

    /// The state once `level` has been seen: the level is believed if enough samples in a row agree on it.
    pub open spec fn fed(self, level: bool) -> Debounced {
        Debounced {
            last: level,
            agreed: self.agreeing(level),
            stable: if self.agreeing(level) >= STABLE_SAMPLES {
                level
            } else {
                self.stable
            },
        }
    }

    /// The change that seeing `level` settles.
    pub open spec fn change(self, level: bool) -> Option<bool> {
        if self.fed(level).stable != self.stable {
            Some(level)
        } else {
            None
        }
    }

    /// Start out believing whatever the pin says, so that a door already open at power-on is known to be open
    /// rather than reported as opening later.
    pub fn new(level: bool) -> (d: Debounced)
        ensures
            d == (Debounced { stable: level, last: level, agreed: STABLE_SAMPLES }),
            d.wf(),
    {
        Debounced { stable: level, last: level, agreed: STABLE_SAMPLES }
    }

    /// Feed in a sample. Returns the new level if this sample settled a change.
    pub fn update(&mut self, level: bool) -> (change: Option<bool>)
        requires
            old(self).wf(),
        ensures
            *final(self) == old(self).fed(level),
            change == old(self).change(level),
            final(self).wf(),
    {
        if level != self.last {
            self.last = level;
            self.agreed = 1;
            return None;
        }
        if self.agreed < STABLE_SAMPLES {
            self.agreed = self.agreed + 1;
        }
        if self.agreed >= STABLE_SAMPLES && self.stable != level {
            self.stable = level;
            return Some(level);
        }
        None
    }
}

/// A contact that holds a level is believed after [`STABLE_SAMPLES`] samples, and reported once: more of the
/// same report nothing.
pub proof fn law_hold_is_reported_once(d: Debounced, level: bool)
    requires
        d.wf(),
    ensures
        ({
            let once = d.fed(level);
            let twice = once.fed(level);
            &&& twice.stable == level
            &&& twice.change(level) is None
            &&& twice.fed(level) == twice
            &&& d.stable != level ==> (d.change(level) is Some) != (once.change(level) is Some)
        }),
{
}

/// A single sample that disagrees is a bounce: whatever it was, nothing is reported and nothing believed, and
/// the contact settles where it was.
pub proof fn law_bounce_is_ignored(d: Debounced)
    requires
        d.wf(),
        d.agreed == STABLE_SAMPLES,
    ensures
        d.change(!d.stable) is None,
        d.fed(!d.stable).stable == d.stable,
        d.fed(!d.stable).change(d.stable) is None,
        d.fed(!d.stable).fed(d.stable).stable == d.stable,
{
}

/// The panel: all the contacts.
#[derive(Copy, Clone, Debug, Eq, PartialEq)]
pub struct Panel {
    /// The buttons. A pressed button is a low pin.
    pub buttons: [Debounced; BUTTON_COUNT],
    /// The doors. An open door is a low pin.
    pub doors: [Debounced; DOOR_COUNT],
}

/// The presses among the first `n` buttons, when the pins read `low`.
pub open spec fn presses(panel: Panel, low: Seq<bool>, n: nat) -> Seq<Event>
    decreases n,
{
    if n == 0 {
        Seq::empty()
    } else {
        let before = presses(panel, low, (n - 1) as nat);
        // Only the press is an event. Reporting the release too would double every menu keystroke, and
        // nothing in the machine acts on a button coming back up.
        if panel.buttons@[n - 1].change(low[n - 1]) == Some(true) {
            before.push(Event::Button(Button::all()[n - 1]))
        } else {
            before
        }
    }
}

/// The changes among the first `n` doors, when the pins read `low`.
pub open spec fn door_changes(panel: Panel, low: Seq<bool>, n: nat) -> Seq<Event>
    decreases n,
{
    if n == 0 {
        Seq::empty()
    } else {
        let before = door_changes(panel, low, (n - 1) as nat);
        match panel.doors@[n - 1].change(low[n - 1]) {
            Some(open) => before.push(Event::Door { index: (n - 1) as usize, open }),
            None => before,
        }
    }
}

/// Is any of the doors believed to be open?
pub open spec fn any_open(doors: Seq<Debounced>) -> bool {
    exists|i: int| 0 <= i < doors.len() && (#[trigger] doors[i]).stable
}

/// The faults once the doors have been read: whether one is open is looked at again whenever one of them has changed.
pub open spec fn faults_after(before: Panel, after: Panel, low: Seq<bool>, faults: Errors) -> Errors {
    if door_changes(before, low, DOOR_COUNT as nat).len() > 0 {
        faults.put(error::DOOR_OPENED, any_open(after.doors@))
    } else {
        faults
    }
}

impl Panel {
    /// Every contact's state makes sense.
    pub open spec fn wf(self) -> bool {
        &&& forall|i: int| 0 <= i < BUTTON_COUNT ==> (#[trigger] self.buttons@[i]).wf()
        &&& forall|i: int| 0 <= i < DOOR_COUNT ==> (#[trigger] self.doors@[i]).wf()
    }

    /// Is any door believed to be open?
    fn any_door_open(&self) -> (b: bool)
        ensures
            b == any_open(self.doors@),
    {
        let mut i: usize = 0;
        while i < DOOR_COUNT
            invariant
                i <= DOOR_COUNT,
                forall|j: int| 0 <= j < i ==> !(#[trigger] self.doors@[j]).stable,
            decreases DOOR_COUNT - i,
        {
            if self.doors[i].stable {
                assert(self.doors@[i as int].stable);
                return true;
            }
            i += 1;
        }
        false
    }

    /// Start watching. A door found open at power-on is a fault from the first moment, not from the first
    /// change.
    pub fn new(buttons_low: &[bool], doors_low: &[bool], faults: &mut Errors) -> (panel: Panel)
        requires
            buttons_low@.len() == BUTTON_COUNT,
            doors_low@.len() == DOOR_COUNT,
        ensures
            panel.wf(),
            forall|i: int|
                0 <= i < BUTTON_COUNT ==> #[trigger] panel.buttons@[i] == (Debounced {
                    stable: buttons_low@[i],
                    last: buttons_low@[i],
                    agreed: STABLE_SAMPLES,
                }),
            forall|i: int|
                0 <= i < DOOR_COUNT ==> #[trigger] panel.doors@[i] == (Debounced {
                    stable: doors_low@[i],
                    last: doors_low@[i],
                    agreed: STABLE_SAMPLES,
                }),
            *final(faults) == old(faults).put(
                error::DOOR_OPENED,
                exists|i: int| 0 <= i < DOOR_COUNT && #[trigger] doors_low@[i],
            ),
    {
        let panel = Panel {
            buttons: [
                Debounced::new(buttons_low[0]),
                Debounced::new(buttons_low[1]),
                Debounced::new(buttons_low[2]),
                Debounced::new(buttons_low[3]),
            ],
            doors: [Debounced::new(doors_low[0]), Debounced::new(doors_low[1])],
        };
        let open = panel.any_door_open();
        proof {
            if any_open(panel.doors@) {
                let i = choose|i: int| 0 <= i < DOOR_COUNT && (#[trigger] panel.doors@[i]).stable;
                assert(doors_low@[i]);
            }
            if exists|i: int| 0 <= i < DOOR_COUNT && #[trigger] doors_low@[i] {
                let i = choose|i: int| 0 <= i < DOOR_COUNT && #[trigger] doors_low@[i];
                assert(panel.doors@[i].stable);
            }
        }
        error::set(faults, error::DOOR_OPENED, open);
        panel
    }

    /// Watch the buttons and the doors once, and report what changed: presses first, in the order of the
    /// buttons, and then doors.
    ///
    /// Both sets of contacts are pulled up and close to ground, so a pressed button and an open door are both
    /// a low pin.
    pub fn poll(&mut self, buttons_low: &[bool], doors_low: &[bool], faults: &mut Errors) -> (events: Vec<
        Event,
    >)
        requires
            old(self).wf(),
            buttons_low@.len() == BUTTON_COUNT,
            doors_low@.len() == DOOR_COUNT,
        ensures
            final(self).wf(),
            forall|i: int|
                0 <= i < BUTTON_COUNT ==> #[trigger] final(self).buttons@[i] == old(self).buttons@[i].fed(
                    buttons_low@[i],
                ),
            forall|i: int|
                0 <= i < DOOR_COUNT ==> #[trigger] final(self).doors@[i] == old(self).doors@[i].fed(
                    doors_low@[i],
                ),
            events@ == presses(*old(self), buttons_low@, BUTTON_COUNT as nat) + door_changes(
                *old(self),
                doors_low@,
                DOOR_COUNT as nat,
            ),
            *final(faults) == faults_after(*old(self), *final(self), doors_low@, *old(faults)),
    {
        let mut events: Vec<Event> = Vec::new();
        let ghost start = *self;
        let mut i: usize = 0;
        while i < BUTTON_COUNT
            invariant
                i <= BUTTON_COUNT,
                buttons_low@.len() == BUTTON_COUNT,
                start.wf(),
                self.doors == start.doors,
                forall|j: int|
                    0 <= j < i ==> #[trigger] self.buttons@[j] == start.buttons@[j].fed(buttons_low@[j]),
                forall|j: int| i <= j < BUTTON_COUNT ==> #[trigger] self.buttons@[j] == start.buttons@[j],
                forall|j: int| 0 <= j < BUTTON_COUNT ==> (#[trigger] self.buttons@[j]).wf(),
                events@ == presses(start, buttons_low@, i as nat),
            decreases BUTTON_COUNT - i,
        {
            let mut contact = self.buttons[i];
            let change = contact.update(buttons_low[i]);
            self.buttons[i] = contact;
            if change == Some(true) {
                events.push(Event::Button(Button::at(i)));
            }
            i += 1;
        }
        let ghost pressed = events@;
        let mut changed = false;
        let mut k: usize = 0;
        assert(pressed + door_changes(start, doors_low@, 0) =~= pressed);
        while k < DOOR_COUNT
            invariant
                k <= DOOR_COUNT,
                doors_low@.len() == DOOR_COUNT,
                start.wf(),
                pressed == presses(start, buttons_low@, BUTTON_COUNT as nat),
                forall|j: int|
                    0 <= j < BUTTON_COUNT ==> #[trigger] self.buttons@[j] == start.buttons@[j].fed(
                        buttons_low@[j],
                    ),
                forall|j: int| 0 <= j < BUTTON_COUNT ==> (#[trigger] self.buttons@[j]).wf(),
                forall|j: int|
                    0 <= j < k ==> #[trigger] self.doors@[j] == start.doors@[j].fed(doors_low@[j]),
                forall|j: int| k <= j < DOOR_COUNT ==> #[trigger] self.doors@[j] == start.doors@[j],
                forall|j: int| 0 <= j < DOOR_COUNT ==> (#[trigger] self.doors@[j]).wf(),
                events@ == pressed + door_changes(start, doors_low@, k as nat),
                changed == (door_changes(start, doors_low@, k as nat).len() > 0),
            decreases DOOR_COUNT - k,
        {
            let mut contact = self.doors[k];
            let change = contact.update(doors_low[k]);
            self.doors[k] = contact;
            if let Some(open) = change {
                events.push(Event::Door { index: k, open });
                changed = true;
            }
            k += 1;
            assert(events@ =~= pressed + door_changes(start, doors_low@, k as nat));
        }
        if changed {
            let open = self.any_door_open();
            error::set(faults, error::DOOR_OPENED, open);
        }
        events
    }
}

/// The fault that a door is open is present exactly while a door is believed to be open: if it was so before
/// the contacts were read, it is so afterwards. No other fault is touched.
pub proof fn law_door_fault_matches_the_doors(
    before: Panel,
    after: Panel,
    low: Seq<bool>,
    faults: Errors,
)
    requires
        faults.has(error::DOOR_OPENED) == any_open(before.doors@),
        forall|i: int|
            0 <= i < DOOR_COUNT ==> #[trigger] after.doors@[i] == before.doors@[i].fed(low[i]),
    ensures
        faults_after(before, after, low, faults).has(0x8000) == any_open(after.doors@),
        forall|other: u32|
            other & 0x8000 == 0 ==> #[trigger] faults_after(before, after, low, faults).has(other) == faults.has(
                other,
            ),
{
    error::law_faults_are_independent(faults, error::DOOR_OPENED, any_open(after.doors@), 0);
    assert forall|other: u32| other & 0x8000 == 0 implies #[trigger] faults_after(before, after, low, faults).has(
        other,
    ) == faults.has(other) by {
        assert(0x8000u32 & other == other & 0x8000u32) by (bit_vector);
        error::law_faults_are_independent(faults, error::DOOR_OPENED, any_open(after.doors@), other);
    }
    reveal_with_fuel(door_changes, 3);
    if door_changes(before, low, DOOR_COUNT as nat).len() == 0 {
        assert(after.doors@[0].stable == before.doors@[0].stable);
        assert(after.doors@[1].stable == before.doors@[1].stable);
        if any_open(before.doors@) {
            let i = choose|i: int| 0 <= i < DOOR_COUNT && (#[trigger] before.doors@[i]).stable;
            assert(after.doors@[i].stable);
        }
        if any_open(after.doors@) {
            let i = choose|i: int| 0 <= i < DOOR_COUNT && (#[trigger] after.doors@[i]).stable;
            assert(before.doors@[i].stable);
        }
    }
}

/// Has a contact just settled at `level`: was it believed to be otherwise, and do this sample and the last one agree?
pub open spec fn settles(d: Debounced, level: bool) -> bool {
    d.stable != level && d.last == level
}

/// A contact is believed to be where two samples in a row have seen it, and otherwise where it was.
pub proof fn law_two_samples_are_believed(d: Debounced, level: bool)
    requires
        d.wf(),
    ensures
        d.change(level) == (if settles(d, level) {
            Some(level)
        } else {
            None
        }),
        d.fed(level).stable == (if d.last == level {
            level
        } else {
            d.stable
        }),
        d.fed(level).last == level,
        d.fed(level).wf(),
{
}

/// One press, if a button has just settled as pressed.
pub open spec fn press_of(d: Debounced, low: bool, button: Button) -> Seq<Event> {
    if low && settles(d, low) {
        seq![Event::Button(button)]
    } else {
        Seq::empty()
    }
}

/// One change of a door, if it has just settled as open or shut.
pub open spec fn change_of(d: Debounced, low: bool, index: usize) -> Seq<Event> {
    if settles(d, low) {
        seq![Event::Door { index, open: low }]
    } else {
        Seq::empty()
    }
}

/// Every button that has just settled as pressed is reported, as the button it is, and no other; and every door that has just
/// settled, as open if its pin is low and as shut if it is high, and no other.
#[verifier::rlimit(40)]
pub proof fn law_every_change_is_reported(panel: Panel, buttons_low: Seq<bool>, doors_low: Seq<bool>)
    requires
        panel.wf(),
        buttons_low.len() == 4,
        doors_low.len() == 2,
    ensures
        presses(panel, buttons_low, 4) == press_of(panel.buttons@[0], buttons_low[0], Button::Prev) + press_of(
            panel.buttons@[1],
            buttons_low[1],
            Button::Next,
        ) + press_of(panel.buttons@[2], buttons_low[2], Button::Accept) + press_of(
            panel.buttons@[3],
            buttons_low[3],
            Button::Cancel,
        ),
        door_changes(panel, doors_low, 2) == change_of(panel.doors@[0], doors_low[0], 0) + change_of(
            panel.doors@[1],
            doors_low[1],
            1,
        ),
{
    reveal_with_fuel(presses, 5);
    reveal_with_fuel(door_changes, 3);
    law_two_samples_are_believed(panel.buttons@[0], buttons_low[0]);
    law_two_samples_are_believed(panel.buttons@[1], buttons_low[1]);
    law_two_samples_are_believed(panel.buttons@[2], buttons_low[2]);
    law_two_samples_are_believed(panel.buttons@[3], buttons_low[3]);
    law_two_samples_are_believed(panel.doors@[0], doors_low[0]);
    law_two_samples_are_believed(panel.doors@[1], doors_low[1]);
    assert(presses(panel, buttons_low, 1) =~= press_of(panel.buttons@[0], buttons_low[0], Button::Prev));
    assert(presses(panel, buttons_low, 2) =~= presses(panel, buttons_low, 1) + press_of(
        panel.buttons@[1],
        buttons_low[1],
        Button::Next,
    ));
    assert(presses(panel, buttons_low, 3) =~= presses(panel, buttons_low, 2) + press_of(
        panel.buttons@[2],
        buttons_low[2],
        Button::Accept,
    ));
    assert(presses(panel, buttons_low, 4) =~= presses(panel, buttons_low, 3) + press_of(
        panel.buttons@[3],
        buttons_low[3],
        Button::Cancel,
    ));
    assert(door_changes(panel, doors_low, 1) =~= change_of(panel.doors@[0], doors_low[0], 0));
    assert(door_changes(panel, doors_low, 2) =~= door_changes(panel, doors_low, 1) + change_of(
        panel.doors@[1],
        doors_low[1],
        1,
    ));
}

/// A door is believed to be open if the first or the second is.
pub proof fn law_either_door_counts(doors: Seq<Debounced>)
    requires
        doors.len() == 2,
    ensures
        any_open(doors) <==> doors[0].stable || doors[1].stable,
{
    if doors[0].stable || doors[1].stable {
        assert(doors[0].stable || doors[1].stable);
    }
}

} // verus!
