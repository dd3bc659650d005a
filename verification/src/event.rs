//! What happens to the machine, and what it shows.
//!
//! Everything that happens, a coin, a press, a door, a key, arrives at the vending logic as an [`Event`].
//! The drivers do not know what a coin means and the logic does not know which pin it came in on, which is
//! what lets either be changed without touching the other.
use vstd::prelude::*;

use crate::config::BUTTON_COUNT;
use crate::state::{Cash, IbuttonKey};
use crate::ui::Screen;

verus! {

/// How many events may be queued. If the vending logic has fallen far enough behind that so many are
/// waiting, the machine has a worse problem than a lost event, and a driver that waited for room would stop
/// watching its hardware.
pub const EVENT_QUEUE: usize = 8;

/// The buttons on the front panel, by what they do rather than where they are.
#[derive(Copy, Clone, Debug, Eq, PartialEq, Structural)]
pub enum Button {
    /// Move up, or back.
    Prev,
    /// Move down, or forward.
    Next,
    /// Accept: the button marked OK.
    Accept,
    /// Go back, or abandon.
    Cancel,
}

impl Button {
    /// The buttons in the order their pins are listed.
    pub open spec fn all() -> Seq<Button> {
        seq![Button::Prev, Button::Next, Button::Accept, Button::Cancel]
    }

    /// The button on the `i`th pin.
    pub fn at(i: usize) -> (b: Button)
        requires
            i < BUTTON_COUNT,
        ensures
            b == Button::all()[i as int],
    {
        if i == 0 {
            Button::Prev
        } else if i == 1 {
            Button::Next
        } else if i == 2 {
            Button::Accept
        } else {
            Button::Cancel
        }
    }
}

/// Something that happened.
#[derive(Copy, Clone, Debug, Eq, PartialEq)]
pub enum Event {
    /// A coin went into the acceptor.
    Coin {
        /// Which channel reported it, counted from zero.
        channel: u8,
        /// What that channel says the coin is worth.
        value: Cash,
    },
    /// A button was pressed. Repeats are not sent; a hold is one event.
    Button(Button),
    /// A door was opened or closed.
    Door {
        /// Which door.
        index: usize,
        /// True if it is now open.
        open: bool,
    },
    /// A key was held against the reader.
    ///
    /// Hopper sensor pulses are deliberately not events. The hopper driver reads its own sensor while it is
    /// running the motor, because the only thing that cares how many coins came out is the code that asked
    /// for them.
    Key(IbuttonKey),
}

/// Ask the display to show `screen`.
///
/// The display only ever needs to show the newest thing, so a screen that has not been drawn yet gives way.
pub fn show(pending: &mut Option<Screen>, screen: Screen)
    ensures
        *final(pending) == Some(screen),
{
    *pending = Some(screen);
}

} // verus!
