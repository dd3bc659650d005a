//! The coin acceptor: six channels and an inhibit line.
//!
//! The acceptor decides for itself what a coin is; all it says is which of its six channels the coin belonged
//! to. What the channel is *worth* is a setting, so the same machine takes different money by being
//! reconfigured rather than reflashed.
//!
//! It says so in one of two ways, and which is a setting too. Wired in parallel, it pulses the channel's own
//! line. Wired for pulses, it pulses all six lines together, `n` times for its `n`th channel.
//!
//! The lines are polled every [`POLL_MS`]. That is not a compromise: a coin pulse is tens of milliseconds and
//! the poll is five, so no coin can slip between samples, and a channel that has stuck active is noticed rather
//! than counted repeatedly. Times are in milliseconds, from a clock that never goes back.
use vstd::prelude::*;

use crate::config::COIN_CHANNELS;
use crate::error::{self, Errors};
use crate::event::Event;
use crate::shared;
use crate::state::CoinAcceptorSettings;

verus! {

/// How often the channel lines are read.
pub const POLL_MS: u64 = 5;

/// How long a pulse must be to be a coin rather than a glitch on the harness.
pub const PULSE_MIN_MS: u64 = 10;

/// How long a channel may stay active before the acceptor is called faulty.
///
/// A real coin pulse is well under this. A line held down for a second means a shorted harness or a dead
/// acceptor, and counting one coin per poll for as long as it lasted would be a gift.
pub const PULSE_MAX_MS: u64 = 1_000;

/// Counting pulses: the shortest a single pulse may be to count as a pulse rather than noise.
pub const PULSE_MODE_PULSE_MIN_MS: u64 = 20;

/// Counting pulses: the longest a single pulse may be before the burst is abandoned as a malfunction.
pub const PULSE_MODE_PULSE_MAX_MS: u64 = 250;

/// Counting pulses: how long the line may sit released between pulses of the same burst before the burst is
/// taken to have ended and the number of its pulses reported as a coin.
pub const PULSE_MODE_INTER_PULSE_MAX_MS: u64 = 200;

/// The bit of a channel in the mask of those that are believed.
pub open spec fn channel_bit(channel: int) -> u8 {
    if channel == 0 {
        0x01
    } else if channel == 1 {
        0x02
    } else if channel == 2 {
        0x04
    } else if channel == 3 {
        0x08
    } else if channel == 4 {
        0x10
    } else if channel == 5 {
        0x20
    } else {
        0
    }
}

/// Do the settings believe in a channel?
pub open spec fn believed(settings: CoinAcceptorSettings, channel: int) -> bool {
    settings.channel_mask & channel_bit(channel) != 0
}

/// The coin that a channel reports.
pub open spec fn coin(settings: CoinAcceptorSettings, channel: int) -> Event {
    Event::Coin { channel: channel as u8, value: settings.channel_values@[channel] }
}

/// Do the settings believe in a channel?
fn is_believed(settings: &CoinAcceptorSettings, channel: usize) -> (b: bool)
    ensures
        b == believed(*settings, channel as int),
{
    let bit: u8 = if channel == 0 {
        0x01
    } else if channel == 1 {
        0x02
    } else if channel == 2 {
        0x04
    } else if channel == 3 {
        0x08
    } else if channel == 4 {
        0x10
    } else if channel == 5 {
        0x20
    } else {
        0
    };
    settings.channel_mask & bit != 0
}

/// Ask the acceptor to stop, or let it start again.
///
/// The flag says whether something other than the settings currently wants the acceptor shut. The service menu
/// raises it so that a coin cannot land in the middle of a refill. Nothing is stated of the flag: any task may set
/// it again at any time.
pub fn set_inhibited(inhibited: &portable_atomic::AtomicBool, on: bool) {
    shared::store_flag(inhibited, on);
}

/// Does something other than the settings want the acceptor shut just now? The answer is whatever a task last
/// made it.
pub fn is_inhibited(inhibited: &portable_atomic::AtomicBool) -> (on: bool) {
    shared::load_flag(inhibited)
}

/// The line the acceptor is stopped with.
#[derive(Copy, Clone, Debug, Eq, PartialEq, Structural)]
pub struct CoinAcceptor {
    /// Whether the inhibit line is driven high, which stops the acceptor taking money.
    pub inhibit: bool,
}

/// May the acceptor take money? Only if it is set up to, nothing wants it shut, and the machine can sell.
pub open spec fn may_take(settings: CoinAcceptorSettings, inhibited: bool, faults: Errors) -> bool {
    settings.enabled && !inhibited && !faults.has(error::FATAL)
}

/// The faults once the inhibit line has been set: that the acceptor is off is noted whenever the line has changed.
pub open spec fn faults_once_set(before: bool, stopped: bool, faults: Errors) -> Errors {
    if stopped != before {
        faults.put(error::COIN_ACCEPTOR_OFF, stopped)
    } else {
        faults
    }
}

impl CoinAcceptor {
    /// The acceptor starts inhibited, so no coin can be taken before the machine knows whether it is fit to
    /// trade.
    pub fn new(faults: &mut Errors) -> (a: CoinAcceptor)
        ensures
            a.inhibit,
            *final(faults) == old(faults).with(error::COIN_ACCEPTOR_OFF),
    {
        error::raise(faults, error::COIN_ACCEPTOR_OFF);
        CoinAcceptor { inhibit: true }
    }

    /// Let the acceptor take money, or stop it.
    pub fn set_enabled(&mut self, on: bool, faults: &mut Errors)
        ensures
            final(self).inhibit == !on,
            *final(faults) == old(faults).put(error::COIN_ACCEPTOR_OFF, !on),
    {
        self.inhibit = !on;
        error::set(faults, error::COIN_ACCEPTOR_OFF, !on);
    }

    /// Update whether the acceptor is allowed to take money.
    pub fn update_enabled(&mut self, settings: &CoinAcceptorSettings, inhibited: bool, faults: &mut Errors)
        ensures
            final(self).inhibit == !may_take(*settings, inhibited, *old(faults)),
            *final(faults) == faults_once_set(old(self).inhibit, final(self).inhibit, *old(faults)),
    {
        let wanted = settings.enabled && !inhibited && faults.can_vend();
        if wanted != !self.inhibit {
            self.set_enabled(wanted, faults);
        }
    }
}

/// What one channel is in the middle of.
#[derive(Copy, Clone, Debug, Eq, PartialEq, Structural)]
pub enum Pulse {
    /// Line released.
    Idle,
    /// Line active.
    Active {
        /// When the line went active.
        since: u64,
        /// Whether this pulse has already produced a coin, which is what stops one long pulse being counted
        /// at every poll.
        counted: bool,
    },
    /// Line active far longer than any coin takes, and already reported as a fault.
    Stuck,
}

impl Pulse {
    /// Is this reading a coin? It is, once, when the pulse has lasted long enough to be real.
    ///
    /// A coin is counted on the way *in* rather than when the line is released. A customer who puts in the
    /// last coin and immediately reaches for the button should not have to wait for the acceptor to finish its
    /// pulse.
    pub open spec fn is_coin(self, low: bool, now: u64) -> bool {
        low && (self matches Pulse::Active { since, counted } && !counted && PULSE_MIN_MS <= now - since
            && now - since < PULSE_MAX_MS)
    }

    /// What the channel is in the middle of after a reading.
    pub open spec fn next(self, low: bool, now: u64) -> Pulse {
        if !low {
            Pulse::Idle
        } else {
            match self {
                Pulse::Idle => Pulse::Active { since: now, counted: false },
                Pulse::Active { since, counted } => if now - since >= PULSE_MAX_MS {
                    Pulse::Stuck
                } else {
                    Pulse::Active { since, counted: counted || self.is_coin(low, now) }
                },
                Pulse::Stuck => Pulse::Stuck,
            }
        }
    }

    /// The pulse, if there is one, started no later than `now`.
    pub open spec fn before(self, now: u64) -> bool {
        self matches Pulse::Active { since, .. } ==> since <= now
    }

    /// Take a reading. Returns whether it is a coin.
    pub fn read(&mut self, low: bool, now: u64) -> (is_coin: bool)
        requires
            old(self).before(now),
        ensures
            *final(self) == old(self).next(low, now),
            is_coin == old(self).is_coin(low, now),
            final(self).before(now),
    {
        if !low {
            *self = Pulse::Idle;
            return false;
        }
        match *self {
            Pulse::Idle => {
                *self = Pulse::Active { since: now, counted: false };
                false
            },
            Pulse::Active { since, counted } => {
                let held = now - since;
                if held >= PULSE_MAX_MS {
                    *self = Pulse::Stuck;
                    false
                } else if !counted && held >= PULSE_MIN_MS {
                    *self = Pulse::Active { since, counted: true };
                    true
                } else {
                    false
                }
            },
            Pulse::Stuck => false,
        }
    }
}

/// A pulse is one coin at most: once it has been counted, or called stuck, no later reading of it is a coin until
/// the line has been released.
pub proof fn law_one_coin_per_pulse(p: Pulse, now: u64, later: u64)
    requires
        p.before(now),
        now <= later,
        p.is_coin(true, now) || p is Stuck || (p matches Pulse::Active { counted, .. } && counted),
    ensures
        !p.next(true, now).is_coin(true, later),
        p.next(true, now) is Stuck || (p.next(true, now) matches Pulse::Active { counted, .. } && counted),
{
}

/// No coin slips between samples: of a line that is read every [`POLL_MS`] and stays active for three samples, the
/// third is a coin and the two before it are not.
pub proof fn law_no_coin_slips_between_samples(now: u64)
    requires
        now + 2 * POLL_MS <= u64::MAX,
    ensures
        ({
            let second = (now + POLL_MS) as u64;
            let third = (now + 2 * POLL_MS) as u64;
            let p = Pulse::Idle.next(true, now);
            &&& POLL_MS == 5
            &&& !Pulse::Idle.is_coin(true, now)
            &&& !p.is_coin(true, second)
            &&& p.next(true, second).is_coin(true, third)
        }),
{
}

/// A glitch shorter than [`PULSE_MIN_MS`] is never a coin, and a line held for [`PULSE_MAX_MS`] is stuck.
pub proof fn law_glitches_are_no_coins(p: Pulse, low: bool, now: u64)
    requires
        p.before(now),
    ensures
        p.is_coin(low, now) ==> (p matches Pulse::Active { since, .. } && now - since >= PULSE_MIN_MS),
        (p matches Pulse::Active { since, .. } && now - since >= PULSE_MAX_MS && low) ==> p.next(
            low,
            now,
        ) is Stuck,
        !low ==> p.next(low, now) is Idle,
{
}

/// The six channels of an acceptor wired in parallel.
#[derive(Copy, Clone, Debug, Eq, PartialEq)]
pub struct Channels {
    /// What each is in the middle of.
    pub pulses: [Pulse; COIN_CHANNELS],
}

/// The coins among the first `n` channels, when the lines read `low`.
///
/// Channels the settings do not believe are still watched, so a misconfigured machine reports a stuck line rather
/// than ignoring it, but no money is credited for them.
pub open spec fn coins(
    channels: Channels,
    settings: CoinAcceptorSettings,
    low: Seq<bool>,
    now: u64,
    n: nat,
) -> Seq<Event>
    decreases n,
{
    if n == 0 {
        Seq::empty()
    } else {
        let before = coins(channels, settings, low, now, (n - 1) as nat);
        if channels.pulses@[n - 1].is_coin(low[n - 1], now) && believed(settings, n - 1) {
            before.push(coin(settings, n - 1))
        } else {
            before
        }
    }
}

/// Is any of the channels stuck?
pub open spec fn any_stuck(pulses: Seq<Pulse>) -> bool {
    exists|i: int| 0 <= i < pulses.len() && (#[trigger] pulses[i]) is Stuck
}

impl Channels {
    /// No pulse started later than `now`.
    pub open spec fn before(self, now: u64) -> bool {
        forall|i: int| 0 <= i < COIN_CHANNELS ==> (#[trigger] self.pulses@[i]).before(now)
    }

    /// All lines released.
    pub fn new() -> (c: Channels)
        ensures
            forall|i: int| 0 <= i < COIN_CHANNELS ==> #[trigger] c.pulses@[i] == Pulse::Idle,
            c.before(0),
    {
        Channels {
            pulses: [Pulse::Idle, Pulse::Idle, Pulse::Idle, Pulse::Idle, Pulse::Idle, Pulse::Idle],
        }
    }

    /// Read the lines once: `low` says which are low, which is to say active.
    pub fn poll(
        &mut self,
        settings: &CoinAcceptorSettings,
        low: &[bool],
        now: u64,
        faults: &mut Errors,
    ) -> (events: Vec<Event>)
        requires
            old(self).before(now),
            low@.len() == COIN_CHANNELS,
        ensures
            final(self).before(now),
            forall|i: int|
                0 <= i < COIN_CHANNELS ==> #[trigger] final(self).pulses@[i] == old(self).pulses@[i].next(
                    low@[i],
                    now,
                ),
            events@ == coins(*old(self), *settings, low@, now, COIN_CHANNELS as nat),
            *final(faults) == old(faults).put(
                error::COIN_ACCEPTOR,
                any_stuck(final(self).pulses@),
            ),
    {
        let ghost start = *self;
        let mut events: Vec<Event> = Vec::new();
        let mut stuck = false;
        let mut i: usize = 0;
        while i < COIN_CHANNELS
            invariant
                i <= COIN_CHANNELS,
                low@.len() == COIN_CHANNELS,
                start.before(now),
                forall|j: int|
                    0 <= j < i ==> #[trigger] self.pulses@[j] == start.pulses@[j].next(low@[j], now),
                forall|j: int| i <= j < COIN_CHANNELS ==> #[trigger] self.pulses@[j] == start.pulses@[j],
                forall|j: int| 0 <= j < COIN_CHANNELS ==> (#[trigger] self.pulses@[j]).before(now),
                events@ == coins(start, *settings, low@, now, i as nat),
                stuck <==> exists|j: int| 0 <= j < i && (#[trigger] self.pulses@[j]) is Stuck,
            decreases COIN_CHANNELS - i,
        {
            let mut pulse = self.pulses[i];
            let is_coin = pulse.read(low[i], now);
            let ghost before = self.pulses@;
            self.pulses[i] = pulse;
            if is_coin && is_believed(settings, i) {
                events.push(Event::Coin { channel: i as u8, value: settings.channel_values[i] });
            }
            let this_stuck = match pulse {
                Pulse::Stuck => true,
                _ => false,
            };
            proof {
                if stuck {
                    let j = choose|j: int| 0 <= j < i && (#[trigger] before[j]) is Stuck;
                    assert(self.pulses@[j] is Stuck);
                }
                if this_stuck {
                    assert(self.pulses@[i as int] is Stuck);
                }
                if exists|j: int| 0 <= j < i + 1 && (#[trigger] self.pulses@[j]) is Stuck {
                    let j = choose|j: int| 0 <= j < i + 1 && (#[trigger] self.pulses@[j]) is Stuck;
                    if j < i {
                        assert(before[j] is Stuck);
                    }
                }
            }
            stuck = stuck || this_stuck;
            i += 1;
        }
        error::set(faults, error::COIN_ACCEPTOR, stuck);
        events
    }
}

/// Is a channel's pulse a coin just now: is the line low, has it been for at least 10 ms and for less than a second,
/// and has the pulse not been counted yet?
pub open spec fn just_became_a_coin(channels: Channels, low: Seq<bool>, now: u64, channel: int) -> bool {
    &&& low[channel]
    &&& channels.pulses@[channel] matches Pulse::Active { since, counted: false } && 10 <= now - since < 1_000
}

/// Is the bit of a channel set in the mask?
pub open spec fn in_mask(settings: CoinAcceptorSettings, channel: int) -> bool {
    settings.channel_mask & (1u8 << (channel as u8)) != 0
}

/// A channel is believed if and only if its bit is set in the mask.
proof fn lemma_believed(settings: CoinAcceptorSettings)
    ensures
        forall|c: int| 0 <= c < 6 ==> #[trigger] believed(settings, c) == in_mask(settings, c),
{
    let m = settings.channel_mask;
    assert(1u8 << 0u8 == 0x01 && 1u8 << 1u8 == 0x02 && 1u8 << 2u8 == 0x04 && 1u8 << 3u8 == 0x08 && 1u8
        << 4u8 == 0x10 && 1u8 << 5u8 == 0x20) by (bit_vector);
    assert forall|c: int| 0 <= c < 6 implies #[trigger] believed(settings, c) == in_mask(settings, c) by {
        assert(c == 0 || c == 1 || c == 2 || c == 3 || c == 4 || c == 5);
    }
}

/// The coins among the first `n` channels.
proof fn lemma_coins(
    channels: Channels,
    settings: CoinAcceptorSettings,
    low: Seq<bool>,
    now: u64,
    n: nat,
)
    requires
        n <= 6,
    ensures
        ({
            let events = coins(channels, settings, low, now, n);
            &&& events.len() <= n
            &&& forall|k: int|
                0 <= k < events.len() ==> (#[trigger] events[k] matches Event::Coin { channel, value } && channel < n
                    && value == settings.channel_values@[channel as int] && in_mask(settings, channel as int)
                    && just_became_a_coin(channels, low, now, channel as int))
            &&& forall|j: int, k: int|
                #![trigger events[j], events[k]]
                0 <= j < k < events.len() ==> events[j]->channel < events[k]->channel
            &&& forall|c: int|
                #![trigger channels.pulses@[c]]
                0 <= c < n && in_mask(settings, c) && just_became_a_coin(channels, low, now, c) ==> exists|
                    k: int,
                |
                    0 <= k < events.len() && (#[trigger] events[k])->channel == c
        }),
    decreases n,
{
    if n > 0 {
        lemma_coins(channels, settings, low, now, (n - 1) as nat);
        lemma_believed(settings);
        let before = coins(channels, settings, low, now, (n - 1) as nat);
        let events = coins(channels, settings, low, now, n);
        assert(believed(settings, n - 1) == in_mask(settings, n - 1));
        assert forall|k: int| 0 <= k < before.len() implies before[k] == #[trigger] events[k] by {}
        assert forall|c: int|
            #![trigger channels.pulses@[c]]
            0 <= c < n && in_mask(settings, c) && just_became_a_coin(channels, low, now, c) implies exists|
            k: int,
        |
            0 <= k < events.len() && (#[trigger] events[k])->channel == c by {
            if c == n - 1 {
                assert(events[before.len() as int]->channel == c);
            } else {
                let k = choose|k: int| 0 <= k < before.len() && (#[trigger] before[k])->channel == c;
                assert(events[k]->channel == c);
            }
        }
    }
}

/// Wired in parallel, every coin that is reported is worth what its channel is set to: it names one of the six
/// channels, the value is that channel's, the mask believes the channel, and the channel's pulse has just become a
/// coin. And every such channel is reported, once, in the order of the channels.
pub proof fn law_every_coin_is_worth_what_its_channel_says(
    channels: Channels,
    settings: CoinAcceptorSettings,
    low: Seq<bool>,
    now: u64,
)
    ensures
        ({
            let events = coins(channels, settings, low, now, COIN_CHANNELS as nat);
            &&& events.len() <= 6
            &&& forall|k: int|
                0 <= k < events.len() ==> (#[trigger] events[k] matches Event::Coin { channel, value } && channel < 6
                    && value == settings.channel_values@[channel as int] && in_mask(settings, channel as int)
                    && just_became_a_coin(channels, low, now, channel as int))
            &&& forall|j: int, k: int|
                #![trigger events[j], events[k]]
                0 <= j < k < events.len() ==> events[j]->channel < events[k]->channel
            &&& forall|c: int|
                #![trigger channels.pulses@[c]]
                0 <= c < 6 && in_mask(settings, c) && just_became_a_coin(channels, low, now, c) ==> exists|
                    k: int,
                |
                    0 <= k < events.len() && (#[trigger] events[k])->channel == c
        }),
{
    lemma_coins(channels, settings, low, now, COIN_CHANNELS as nat);
}

/// What a line does to its channel: going low starts a pulse, at that moment; staying low keeps when it started, and
/// marks it as counted from the reading on that is its coin, until it has lasted a second and is stuck; and letting go
/// ends whatever there was.
pub proof fn law_pulse_follows_its_line(p: Pulse, low: bool, now: u64)
    requires
        p.before(now),
    ensures
        !low ==> p.next(low, now) == Pulse::Idle && !p.is_coin(low, now),
        low && p is Idle ==> p.next(low, now) == (Pulse::Active { since: now, counted: false }) && !p.is_coin(
            low,
            now,
        ),
        low && p is Stuck ==> p.next(low, now) == Pulse::Stuck && !p.is_coin(low, now),
        low ==> (p matches Pulse::Active { since, counted } ==> {
            &&& now - since < 10 ==> p.next(low, now) == p && !p.is_coin(low, now)
            &&& 10 <= now - since < 1_000 ==> p.next(low, now) == (Pulse::Active { since, counted: true })
                && p.is_coin(low, now) == !counted
            &&& now - since >= 1_000 ==> p.next(low, now) == Pulse::Stuck && !p.is_coin(low, now)
        }),
{
}

/// Where a burst of pulses currently is.
#[derive(Copy, Clone, Debug, Eq, PartialEq, Structural)]
pub enum PulseModeStage {
    /// Waiting for the burst to start.
    Idle,
    /// A pulse is in progress; waiting to see whether it is real or noise.
    Pulsing {
        /// When the line went active for this pulse.
        since: u64,
        /// Pulses counted in this burst before it.
        count: u8,
    },
    /// Between pulses of the same burst, waiting to see whether another pulse follows or the burst has ended.
    Gap {
        /// When the line released.
        since: u64,
        /// Pulses counted in this burst so far.
        count: u8,
    },
}

impl PulseModeStage {
    /// Where the burst is after a reading, whether the reading shows a malfunction, and how many pulses the
    /// burst had if it is over.
    pub open spec fn next(self, active: bool, now: u64) -> (PulseModeStage, bool, Option<u8>) {
        match self {
            PulseModeStage::Idle => (
                if active {
                    PulseModeStage::Pulsing { since: now, count: 0 }
                } else {
                    self
                },
                false,
                None,
            ),
            PulseModeStage::Pulsing { since, count } => if active {
                if now - since > PULSE_MODE_PULSE_MAX_MS {
                    (PulseModeStage::Idle, true, None)
                } else {
                    (self, false, None)
                }
            } else if now - since < PULSE_MODE_PULSE_MIN_MS {
                (PulseModeStage::Idle, true, None)
            } else {
                (
                    PulseModeStage::Gap {
                        since: now,
                        count: if count < 255 {
                            (count + 1) as u8
                        } else {
                            count
                        },
                    },
                    false,
                    None,
                )
            },
            PulseModeStage::Gap { since, count } => if active {
                (PulseModeStage::Pulsing { since: now, count }, false, None)
            } else if now - since >= PULSE_MODE_INTER_PULSE_MAX_MS {
                (PulseModeStage::Idle, false, Some(count))
            } else {
                (self, false, None)
            },
        }
    }

    /// What the burst remembers happened no later than `now`, and a gap follows at least one pulse.
    pub open spec fn before(self, now: u64) -> bool {
        match self {
            PulseModeStage::Idle => true,
            PulseModeStage::Pulsing { since, .. } => since <= now,
            PulseModeStage::Gap { since, count } => since <= now && count > 0,
        }
    }

    /// Take a reading. Returns whether it shows a malfunction, and how many pulses the burst had if it is over.
    pub fn read(&mut self, active: bool, now: u64) -> (seen: (bool, Option<u8>))
        requires
            old(self).before(now),
        ensures
            (*final(self), seen.0, seen.1) == old(self).next(active, now),
            final(self).before(now),
            seen.1 matches Some(n) ==> n > 0,
    {
        match *self {
            PulseModeStage::Idle => {
                if active {
                    *self = PulseModeStage::Pulsing { since: now, count: 0 };
                }
                (false, None)
            },
            PulseModeStage::Pulsing { since, count } => {
                let held = now - since;
                if active {
                    // Still pulsing. A pulse held longer than the maximum is a malfunction.
                    if held > PULSE_MODE_PULSE_MAX_MS {
                        *self = PulseModeStage::Idle;
                        (true, None)
                    } else {
                        (false, None)
                    }
                } else if held < PULSE_MODE_PULSE_MIN_MS {
                    // The line released too soon: a malfunction too.
                    *self = PulseModeStage::Idle;
                    (true, None)
                } else {
                    *self = PulseModeStage::Gap { since: now, count: count.saturating_add(1) };
                    (false, None)
                }
            },
            PulseModeStage::Gap { since, count } => {
                if active {
                    // Another pulse in the same burst has started.
                    *self = PulseModeStage::Pulsing { since: now, count };
                    (false, None)
                } else if now - since >= PULSE_MODE_INTER_PULSE_MAX_MS {
                    // The gap has run out: the burst is over.
                    *self = PulseModeStage::Idle;
                    (false, Some(count))
                } else {
                    (false, None)
                }
            },
        }
    }
}

/// A burst of `n` pulses is reported as `n` pulses: each pulse of the right length adds one to the count, whether
/// it is the first or a later one, and a pause that is long enough ends the burst and reports the count.
pub proof fn law_pulses_add_up(stage: PulseModeStage, count: u8, start: u64, end: u64, over: u64)
    requires
        count == 0 ==> stage is Idle,
        count > 0 ==> (stage matches PulseModeStage::Gap { since, count: c } && c == count && since
            <= start),
        count < 255,
        start + PULSE_MODE_PULSE_MIN_MS <= end <= start + PULSE_MODE_PULSE_MAX_MS,
        end + PULSE_MODE_INTER_PULSE_MAX_MS <= over,
    ensures
        ({
            let (pulsing, bad, done) = stage.next(true, start);
            let (gap, bad2, done2) = pulsing.next(false, end);
            &&& !bad && !bad2 && done is None && done2 is None
            &&& gap == (PulseModeStage::Gap { since: end, count: (count + 1) as u8 })
            &&& gap.next(false, over) == (PulseModeStage::Idle, false, Some((count + 1) as u8))
        }),
{
}

/// A pulse that is too short or too long abandons the burst as a malfunction, and no coin comes of it.
pub proof fn law_bad_pulse_abandons_the_burst(since: u64, count: u8, active: bool, now: u64)
    requires
        since <= now,
        (if active {
            now - since > PULSE_MODE_PULSE_MAX_MS
        } else {
            now - since < PULSE_MODE_PULSE_MIN_MS
        }),
    ensures
        (PulseModeStage::Pulsing { since, count }).next(active, now) == (
            PulseModeStage::Idle,
            true,
            None::<u8>,
        ),
{
}

/// The coin that a burst of `pulses` pulses is, if the settings believe in that many channels and in that one.
pub open spec fn burst_coins(settings: CoinAcceptorSettings, pulses: Option<u8>) -> Seq<Event> {
    match pulses {
        Some(n) => if 1 <= n <= COIN_CHANNELS && believed(settings, n - 1) {
            seq![coin(settings, n - 1)]
        } else {
            Seq::empty()
        },
        None => Seq::empty(),
    }
}

/// Wired for pulses, a burst of `n` pulses is the coin of the `n`th channel and no other: one event that names the
/// channel and what it is set to, if there is such a channel and the mask believes it, and nothing otherwise. While no
/// burst has ended, nothing is reported.
pub proof fn law_nth_burst_is_the_nth_coin(settings: CoinAcceptorSettings, n: u8)
    ensures
        ({
            let events = burst_coins(settings, Some(n));
            if 1 <= n <= 6 && in_mask(settings, n - 1) {
                &&& events.len() == 1
                &&& events[0] == (Event::Coin {
                    channel: (n - 1) as u8,
                    value: settings.channel_values@[n - 1],
                })
            } else {
                events.len() == 0
            }
        }),
        burst_coins(settings, None).len() == 0,
{
    lemma_believed(settings);
    if 1 <= n <= 6 {
        assert(believed(settings, n - 1) == in_mask(settings, n - 1));
    }
}

/// What the line does to a burst. Going low starts a pulse, the first of a burst or one more. A pulse that lasts from 20
/// to 250 ms adds one to the count when the line lets go; a shorter or a longer one is a malfunction, and the burst is
/// forgotten. 200 ms after the last pulse the burst is over, and its count is reported.
pub proof fn law_burst_follows_the_line(stage: PulseModeStage, active: bool, now: u64)
    requires
        stage.before(now),
    ensures
        ({
            let (after, malfunction, over) = stage.next(active, now);
            match stage {
                PulseModeStage::Idle => {
                    &&& !malfunction && over is None
                    &&& active ==> after == (PulseModeStage::Pulsing { since: now, count: 0 })
                    &&& !active ==> after is Idle
                },
                PulseModeStage::Pulsing { since, count } => {
                    &&& over is None
                    &&& malfunction == (if active {
                        now - since > 250
                    } else {
                        now - since < 20
                    })
                    &&& malfunction ==> after is Idle
                    &&& !malfunction && active ==> after == stage
                    &&& !malfunction && !active ==> after == (PulseModeStage::Gap {
                        since: now,
                        count: if count < 255 {
                            (count + 1) as u8
                        } else {
                            255
                        },
                    })
                },
                PulseModeStage::Gap { since, count } => {
                    &&& !malfunction
                    &&& active ==> after == (PulseModeStage::Pulsing { since: now, count }) && over is None
                    &&& !active && now - since < 200 ==> after == stage && over is None
                    &&& !active && now - since >= 200 ==> after is Idle && over == Some(count)
                },
            }
        }),
{
}

/// Are any of the lines low?
pub open spec fn any_low(low: Seq<bool>) -> bool {
    exists|i: int| 0 <= i < low.len() && #[trigger] low[i]
}

/// All six lines taken together.
pub fn any_channel_low(low: &[bool]) -> (b: bool)
    ensures
        b == any_low(low@),
{
    let mut i: usize = 0;
    while i < low.len()
        invariant
            i <= low@.len(),
            forall|j: int| 0 <= j < i ==> !#[trigger] low@[j],
        decreases low@.len() - i,
    {
        if low[i] {
            assert(low@[i as int]);
            return true;
        }
        i += 1;
    }
    false
}

/// How the acceptor's lines are understood.
#[derive(Copy, Clone, Debug, Eq, PartialEq)]
pub enum Mode {
    /// One line per channel.
    Parallel(Channels),
    /// Pulses on all lines together.
    Pulses(PulseModeStage),
}

/// The acceptor being watched.
#[derive(Copy, Clone, Debug, Eq, PartialEq)]
pub struct CoinWatch {
    /// The inhibit line.
    pub acceptor: CoinAcceptor,
    /// How its lines are understood, and what they are in the middle of.
    pub mode: Mode,
}

impl CoinWatch {
    /// Nothing remembered happened later than `now`.
    pub open spec fn before(self, now: u64) -> bool {
        match self.mode {
            Mode::Parallel(channels) => channels.before(now),
            Mode::Pulses(stage) => stage.before(now),
        }
    }

    /// Start watching, as the settings have it.
    pub fn new(settings: &CoinAcceptorSettings, faults: &mut Errors) -> (w: CoinWatch)
        ensures
            w.acceptor.inhibit == !settings.enabled,
            settings.pulse_mode ==> w.mode == Mode::Pulses(PulseModeStage::Idle),
            !settings.pulse_mode ==> (w.mode matches Mode::Parallel(c) && forall|i: int|
                0 <= i < COIN_CHANNELS ==> #[trigger] c.pulses@[i] == Pulse::Idle),
            w.before(0),
            *final(faults) == old(faults).with(error::COIN_ACCEPTOR_OFF).put(
                error::COIN_ACCEPTOR_OFF,
                !settings.enabled,
            ),
    {
        let mut acceptor = CoinAcceptor::new(faults);
        acceptor.set_enabled(settings.enabled, faults);
        let mode = if settings.pulse_mode {
            Mode::Pulses(PulseModeStage::Idle)
        } else {
            Mode::Parallel(Channels::new())
        };
        CoinWatch { acceptor, mode }
    }

    /// Read the lines once, and report the coins.
    pub fn poll(
        &mut self,
        settings: &CoinAcceptorSettings,
        inhibited: bool,
        low: &[bool],
        now: u64,
        faults: &mut Errors,
    ) -> (events: Vec<Event>)
        requires
            old(self).before(now),
            low@.len() == COIN_CHANNELS,
        ensures
            final(self).before(now),
            final(self).acceptor.inhibit == !may_take(*settings, inhibited, *old(faults)),
            ({
                let shut = faults_once_set(old(self).acceptor.inhibit, final(self).acceptor.inhibit, *old(faults));
                match (old(self).mode, final(self).mode) {
                    (Mode::Parallel(before), Mode::Parallel(after)) => {
                        &&& forall|i: int|
                            0 <= i < COIN_CHANNELS ==> #[trigger] after.pulses@[i]
                                == before.pulses@[i].next(low@[i], now)
                        &&& events@ == coins(before, *settings, low@, now, COIN_CHANNELS as nat)
                        &&& *final(faults) == shut.put(error::COIN_ACCEPTOR, any_stuck(after.pulses@))
                    },
                    (Mode::Pulses(before), Mode::Pulses(after)) => {
                        let (stage, malfunction, pulses) = before.next(any_low(low@), now);
                        &&& after == stage
                        &&& events@ == burst_coins(*settings, pulses)
                        &&& *final(faults) == shut.put(error::COIN_ACCEPTOR, malfunction)
                    },
                    _ => false,
                }
            }),
    {
        self.acceptor.update_enabled(settings, inhibited, faults);
        match self.mode {
            Mode::Parallel(channels) => {
                let mut channels = channels;
                let events = channels.poll(settings, low, now, faults);
                self.mode = Mode::Parallel(channels);
                events
            },
            Mode::Pulses(stage) => {
                let mut stage = stage;
                let (malfunction, pulses) = stage.read(any_channel_low(low), now);
                self.mode = Mode::Pulses(stage);
                let mut events: Vec<Event> = Vec::new();
                if let Some(n) = pulses {
                    let index = (n - 1) as usize;
                    if index < COIN_CHANNELS && is_believed(settings, index) {
                        events.push(
                            Event::Coin { channel: index as u8, value: settings.channel_values[index] },
                        );
                    }
                }
                assert(events@ =~= burst_coins(*settings, pulses));
                error::set(faults, error::COIN_ACCEPTOR, malfunction);
                events
            },
        }
    }
}

/// No money is taken by a machine that cannot sell: after every reading, the acceptor is shut if a fatal fault is
/// present, if somebody is in the menu, or if it is not set up, and open otherwise.
pub proof fn law_acceptor_shut_unless_fit(
    settings: CoinAcceptorSettings,
    inhibited: bool,
    faults: Errors,
)
    ensures
        may_take(settings, inhibited, faults) <==> settings.enabled && !inhibited && !faults.has(
            error::FIRMWARE,
        ) && !faults.has(error::ITEM_DISPENSER) && !faults.has(error::ITEM_DISPENSER_EMPTY) && !faults.has(
            error::DOOR_OPENED,
        ),
        faults.has(error::FATAL) ==> !may_take(settings, inhibited, faults),
{
    error::law_only_fatal_faults_stop_sales(faults);
}

/// The lines taken together are low if any one of the six is, and a stuck line is a fault on whichever channel it is.
pub proof fn law_any_line_counts(low: Seq<bool>, pulses: Seq<Pulse>)
    requires
        low.len() == 6,
        pulses.len() == 6,
    ensures
        any_low(low) <==> low[0] || low[1] || low[2] || low[3] || low[4] || low[5],
        any_stuck(pulses) <==> pulses[0] is Stuck || pulses[1] is Stuck || pulses[2] is Stuck || pulses[3] is Stuck
            || pulses[4] is Stuck || pulses[5] is Stuck,
{
    if any_low(low) {
        let i = choose|i: int| 0 <= i < low.len() && #[trigger] low[i];
        assert(i == 0 || i == 1 || i == 2 || i == 3 || i == 4 || i == 5);
    }
    if any_stuck(pulses) {
        let i = choose|i: int| 0 <= i < pulses.len() && (#[trigger] pulses[i]) is Stuck;
        assert(i == 0 || i == 1 || i == 2 || i == 3 || i == 4 || i == 5);
    }
}

/// That the acceptor is off is a fault exactly while its inhibit line stops it: if it was so before the line was set, it is so
/// afterwards. Whether its lines are in order is a fault of its own, and no other fault is touched.
pub proof fn law_acceptor_faults(before: bool, stopped: bool, broken: bool, faults: Errors, other: u32)
    requires
        faults.has(0x0800) == before,
        other & 0x0900 == 0,
    ensures
        ({
            let after = faults_once_set(before, stopped, faults).put(error::COIN_ACCEPTOR, broken);
            &&& after.has(0x0800) == stopped
            &&& after.has(0x0100) == broken
            &&& after.has(other) == faults.has(other)
        }),
{
    let shut = faults_once_set(before, stopped, faults);
    assert(other & 0x0900 == 0 ==> 0x0800u32 & other == 0 && 0x0100u32 & other == 0) by (bit_vector);
    assert(0x0100u32 & 0x0800u32 == 0) by (bit_vector);
    error::law_faults_are_independent(faults, error::COIN_ACCEPTOR_OFF, stopped, other);
    error::law_faults_are_independent(shut, error::COIN_ACCEPTOR, broken, other);
    error::law_faults_are_independent(shut, error::COIN_ACCEPTOR, broken, 0x0800);
}

} // verus!
