//! What the machine is configured to do, and what it has done so far.
//!
//! Two structures, kept apart because they have different lifetimes. [`Settings`] is what an engineer
//! decided and changes only from the service menu. [`Counters`] is what the machine has since counted,
//! and changes with every coin. Both are checksummed and both survive a power cut, but conflating them
//! would mean rewriting the settings every time somebody buys a pair of shoe covers, and flash does
//! not have the write cycles for that.
use vstd::prelude::*;

use crate::config::{COIN_CHANNELS, HOPPER_COUNT};

verus! {

/// Money, in the smallest unit of the currency: kopecks, cents, and so on.
pub type Cash = u32;

/// A count of things: coins in a hopper, shoe covers left, a machine's number.
pub type Level = u16;

/// Version stamped into stored settings, so a newer firmware can tell it is reading an older layout
/// rather than silently misinterpreting the bytes.
pub const SETTINGS_VERSION: u8 = 1;

/// Version stamped into stored counters. See [`SETTINGS_VERSION`].
pub const COUNTERS_VERSION: u8 = 1;

/// How many access levels the key list has, from most privileged to least.
pub const KEY_ACCESS_LEVELS: usize = 3;

/// How many keys may be enrolled at each access level.
pub const KEYS_PER_LEVEL: usize = 2;

/// How many bytes a serial number has.
pub const KEY_LEN: usize = 8;

/// Interface language.
#[derive(Copy, Clone, Debug, Eq, PartialEq, Structural)]
pub enum Language {
    /// Russian.
    Russian,
    /// English.
    English,
}

impl Default for Language {
    fn default() -> (l: Self)
        ensures
            l == Language::Russian,
    {
        Language::Russian
    }
}

/// Currency the prices are quoted in.
#[derive(Copy, Clone, Debug, Eq, PartialEq, Structural)]
pub enum Currency {
    /// Rouble.
    Rub,
    /// Tenge.
    Kzt,
    /// Belarusian rouble.
    Byn,
}

impl Default for Currency {
    fn default() -> (c: Self)
        ensures
            c == Currency::Rub,
    {
        Currency::Rub
    }
}

impl Currency {
    /// The short name of a currency.
    pub open spec fn name(self) -> Seq<char> {
        match self {
            Currency::Rub => "RUB"@,
            Currency::Kzt => "KZT"@,
            Currency::Byn => "BYN"@,
        }
    }

    /// The short name to put on the display.
    pub fn symbol(self) -> (s: &'static str)
        ensures
            s@ == self.name(),
    {
        match self {
            Currency::Rub => "RUB",
            Currency::Kzt => "KZT",
            Currency::Byn => "BYN",
        }
    }
}

/// A DS1990 serial number, as the reader returns it: family byte, six of serial, checksum.
#[derive(Copy, Clone, Debug, Eq, PartialEq)]
pub struct IbuttonKey(pub [u8; KEY_LEN]);

impl Default for IbuttonKey {
    fn default() -> (k: Self)
        ensures
            k.blank(),
    {
        IbuttonKey::empty()
    }
}

impl IbuttonKey {
    /// An empty slot: eight zero bytes.
    pub open spec fn blank(self) -> bool {
        forall|i: int| 0 <= i < KEY_LEN ==> #[trigger] self.0@[i] == 0
    }

    /// An empty slot. All-zero is not a serial number any real key can have.
    pub fn empty() -> (k: IbuttonKey)
        ensures
            k == IbuttonKey([0u8; KEY_LEN]),
            k.blank(),
    {
        IbuttonKey([0u8; KEY_LEN])
    }

    /// Is this slot free?
    pub fn is_empty(&self) -> (b: bool)
        ensures
            b == self.blank(),
    {
        let mut i: usize = 0;
        while i < KEY_LEN
            invariant
                i <= KEY_LEN,
                forall|j: int| 0 <= j < i ==> #[trigger] self.0@[j] == 0,
            decreases KEY_LEN - i,
        {
            if self.0[i] != 0 {
                assert(self.0@[i as int] != 0);
                return false;
            }
            i += 1;
        }
        true
    }

    /// Is this the same serial number as `other`?
    pub fn same(&self, other: &IbuttonKey) -> (b: bool)
        ensures
            b == (*self == *other),
    {
        let mut i: usize = 0;
        while i < KEY_LEN
            invariant
                i <= KEY_LEN,
                forall|j: int| 0 <= j < i ==> #[trigger] self.0@[j] == other.0@[j],
            decreases KEY_LEN - i,
        {
            if self.0[i] != other.0[i] {
                return false;
            }
            i += 1;
        }
        assert(self.0 =~= other.0);
        true
    }
}

/// The contents of an empty slot.
pub open spec fn no_key() -> IbuttonKey {
    IbuttonKey([0u8; KEY_LEN])
}

/// How the coin acceptor is set up.
#[derive(Copy, Clone, Debug, Eq, PartialEq)]
pub struct CoinAcceptorSettings {
    /// Whether the machine takes money through the acceptor at all.
    pub enabled: bool,
    /// Which channels are believed. A coin arriving on a masked-off channel is ignored.
    pub channel_mask: u8,
    /// What a coin on each channel is worth.
    pub channel_values: [Cash; COIN_CHANNELS],
    /// Whether the acceptor reports coins as a pulse count on one shared line rather than as one of
    /// six parallel channel lines.
    ///
    /// An acceptor wired for pulse signalling sends `N` pulses, all six lines together, for its `N`th
    /// configured denomination; one wired for parallel signalling drives exactly one of the six lines
    /// per coin.
    pub pulse_mode: bool,
}

impl CoinAcceptorSettings {
    /// The acceptor as the machines are sold: ten roubles down to fifty kopecks.
    pub open spec fn factory() -> CoinAcceptorSettings {
        CoinAcceptorSettings {
            enabled: true,
            channel_mask: 0x3f,
            channel_values: [1000, 500, 200, 100, 50, 0],
            pulse_mode: false,
        }
    }
}

impl Default for CoinAcceptorSettings {
    fn default() -> (s: Self)
        ensures
            s == CoinAcceptorSettings::factory(),
    {
        CoinAcceptorSettings {
            enabled: true,
            channel_mask: 0x3f,
            channel_values: [1000, 500, 200, 100, 50, 0],
            pulse_mode: false,
        }
    }
}

/// How one hopper, of coins or of shoe covers, is set up.
#[derive(Copy, Clone, Debug, Eq, PartialEq, Structural)]
pub struct HopperSettings {
    /// Whether this hopper is fitted.
    pub enabled: bool,
    /// What one dispensed unit is worth. For the item dispenser this is the price of a pair.
    pub unit_value: Cash,
    /// Below this, a dispense is no longer guaranteed to succeed.
    pub min_level: Level,
    /// Below this, someone should be told to come and refill it.
    pub warn_level: Level,
    /// The most it holds, which is what a refill in the menu is clamped to.
    pub max_level: Level,
}

impl Default for HopperSettings {
    fn default() -> (h: Self)
        ensures
            h == (HopperSettings {
                enabled: false,
                unit_value: 0,
                min_level: 0,
                warn_level: 0,
                max_level: 0,
            }),
    {
        HopperSettings { enabled: false, unit_value: 0, min_level: 0, warn_level: 0, max_level: 0 }
    }
}

/// Everything an engineer can set.
#[derive(Copy, Clone, Debug, Eq, PartialEq)]
pub struct Settings {
    /// Layout version. See [`SETTINGS_VERSION`].
    pub version: u8,
    /// Language the customer sees.
    pub user_language: Language,
    /// Language the service menu is in, which need not be the customer's.
    pub service_language: Language,
    /// Currency prices are quoted in.
    pub currency: Currency,
    /// This machine's number, used to tell machines apart in reports.
    pub machine_id: Level,
    /// Coin acceptor configuration.
    pub coin_acceptor: CoinAcceptorSettings,
    /// Coin hoppers, in the order [`crate::config::hoppers`] lists them.
    pub coin_hoppers: [HopperSettings; HOPPER_COUNT],
    /// The shoe-cover dispenser.
    pub item_dispenser: HopperSettings,
    /// Enrolled keys, by access level, most privileged first.
    pub keys: [[IbuttonKey; KEYS_PER_LEVEL]; KEY_ACCESS_LEVELS],
    /// Hour of the day the machine starts trading.
    pub workday_start_hour: u8,
    /// Hour of the day it stops.
    pub workday_end_hour: u8,
    /// Seconds an unfinished transaction is held before its change is returned.
    pub residual_timeout: u8,
    /// Seconds of inactivity that drop the service menu back to trading.
    pub menu_exit_timeout: u8,
    /// Seconds credit is held with nothing happening before it is returned.
    pub cash_clear_timeout: u8,
    /// Seconds the thank-you message stays up.
    pub thanks_message_delay: u8,
    /// Seconds the take-your-change message stays up.
    pub payout_message_delay: u8,
}

impl Settings {
    /// What a machine with no stored settings does.
    ///
    /// It trades: a machine that came up refusing to sell because nobody had configured it would be
    /// indistinguishable, to whoever found it, from a broken one.
    pub open spec fn factory() -> Settings {
        Settings {
            version: SETTINGS_VERSION,
            user_language: Language::Russian,
            service_language: Language::Russian,
            currency: Currency::Rub,
            machine_id: 0,
            coin_acceptor: CoinAcceptorSettings::factory(),
            coin_hoppers: [HopperSettings {
                enabled: true,
                unit_value: 100,
                min_level: 10,
                warn_level: 50,
                max_level: 1000,
            };HOPPER_COUNT],
            item_dispenser: HopperSettings {
                enabled: true,
                unit_value: 500,
                min_level: 10,
                warn_level: 100,
                max_level: 10_000,
            },
            keys: [[IbuttonKey([0u8; KEY_LEN]);KEYS_PER_LEVEL];KEY_ACCESS_LEVELS],
            workday_start_hour: 0,
            workday_end_hour: 24,
            residual_timeout: 30,
            menu_exit_timeout: 60,
            cash_clear_timeout: 120,
            thanks_message_delay: 3,
            payout_message_delay: 5,
        }
    }
}

impl Default for Settings {
    fn default() -> (s: Self)
        ensures
            s == Settings::factory(),
    {
        Settings {
            version: SETTINGS_VERSION,
            user_language: Language::Russian,
            service_language: Language::Russian,
            currency: Currency::Rub,
            machine_id: 0,
            coin_acceptor: CoinAcceptorSettings::default(),
            coin_hoppers: [HopperSettings {
                enabled: true,
                unit_value: 100,
                min_level: 10,
                warn_level: 50,
                max_level: 1000,
            };HOPPER_COUNT],
            item_dispenser: HopperSettings {
                enabled: true,
                unit_value: 500,
                min_level: 10,
                warn_level: 100,
                max_level: 10_000,
            },
            keys: [[IbuttonKey([0u8; KEY_LEN]);KEYS_PER_LEVEL];KEY_ACCESS_LEVELS],
            workday_start_hour: 0,
            workday_end_hour: 24,
            residual_timeout: 30,
            menu_exit_timeout: 60,
            cash_clear_timeout: 120,
            thanks_message_delay: 3,
            payout_message_delay: 5,
        }
    }
}

/// Money in and out over some period.
#[derive(Copy, Clone, Debug, Eq, PartialEq, Structural)]
pub struct Accounting {
    /// Taken through the coin acceptor.
    pub cash_in: Cash,
    /// Paid back out as change.
    pub cash_out: Cash,
    /// Pairs of shoe covers dispensed.
    pub items_dispensed: u32,
    /// Pairs dispensed without payment, from the service menu.
    pub items_free: u32,
}

impl Accounting {
    /// Nothing taken, nothing sold.
    pub open spec fn zero() -> Accounting {
        Accounting { cash_in: 0, cash_out: 0, items_dispensed: 0, items_free: 0 }
    }
}

impl Default for Accounting {
    fn default() -> (a: Self)
        ensures
            a == Accounting::zero(),
    {
        Accounting { cash_in: 0, cash_out: 0, items_dispensed: 0, items_free: 0 }
    }
}

/// Where the machine is in serving a customer.
#[derive(Copy, Clone, Debug, Eq, PartialEq, Structural)]
pub enum AppState {
    /// Waiting for money, or collecting more of it.
    AcceptCash,
    /// Paying out the shoe covers that have been bought.
    PayoutItems,
    /// Telling the customer to take their change.
    PayoutReminder,
    /// Returning what is left over after the covers have been dispensed.
    ProcessResidual,
}

impl Default for AppState {
    fn default() -> (s: Self)
        ensures
            s == AppState::AcceptCash,
    {
        AppState::AcceptCash
    }
}

/// What kind of thing an entry of the event log remembers.
#[derive(Copy, Clone, Debug, Eq, PartialEq, Structural)]
pub enum EventKind {
    /// A coin was accepted. The value is what it was worth.
    Coin,
    /// A pair came out. The value is 1 if it was paid for and 0 if it was given away.
    ItemDispensed,
    /// A coin of change came out. The value is the hopper's index.
    HopperPayout,
    /// A fault appeared. The value is its bit.
    ErrorRaised,
    /// A fault went away. The value is its bit.
    ErrorCleared,
    /// Somebody opened the service menu. The value is their access level, most privileged first.
    ServiceEntered,
    /// The service menu was left.
    ServiceExited,
}

/// What the machine has counted, and what it still owes.
///
/// The pending fields are what make a power cut survivable: a machine that died halfway through paying
/// out change comes back knowing it still owes it.
#[derive(Copy, Clone, Debug, Eq, PartialEq)]
pub struct Counters {
    /// Layout version. See [`COUNTERS_VERSION`].
    pub version: u8,
    /// Pairs of shoe covers believed to be in the dispenser.
    pub item_level: Level,
    /// Coins believed to be in each hopper.
    pub coin_levels: [Level; HOPPER_COUNT],
    /// Credit the customer has in the machine right now.
    pub cash: Cash,
    /// Coins each hopper still owes.
    pub coins_pending: [Level; HOPPER_COUNT],
    /// Pairs still owed.
    pub items_pending: Level,
    /// Pairs still owed that were not paid for.
    pub free_items_pending: Level,
    /// Where serving the customer had got to.
    pub app_state: AppState,
    /// Everything since the machine was built.
    pub overall: Accounting,
    /// Everything since the last time an engineer cleared the period.
    pub period: Accounting,
}

impl Default for Counters {
    fn default() -> (c: Self)
        ensures
            c == (Counters { version: 0, ..Counters::fresh() }),
    {
        Counters {
            version: 0,
            item_level: 0,
            coin_levels: [0u16;HOPPER_COUNT],
            cash: 0,
            coins_pending: [0u16;HOPPER_COUNT],
            items_pending: 0,
            free_items_pending: 0,
            app_state: AppState::AcceptCash,
            overall: Accounting::default(),
            period: Accounting::default(),
        }
    }
}

impl Counters {
    /// A machine that has never done anything.
    pub open spec fn fresh() -> Counters {
        Counters {
            version: COUNTERS_VERSION,
            item_level: 0,
            coin_levels: [0u16;HOPPER_COUNT],
            cash: 0,
            coins_pending: [0u16;HOPPER_COUNT],
            items_pending: 0,
            free_items_pending: 0,
            app_state: AppState::AcceptCash,
            overall: Accounting::zero(),
            period: Accounting::zero(),
        }
    }

    /// Does the machine still owe the customer covers or coins?
    pub open spec fn owes(self) -> bool {
        ||| self.items_pending > 0
        ||| self.free_items_pending > 0
        ||| exists|i: int| 0 <= i < HOPPER_COUNT && #[trigger] self.coins_pending@[i] > 0
    }

    /// A machine that has never done anything.
    pub fn new() -> (c: Self)
        ensures
            c == Counters::fresh(),
    {
        Counters { version: COUNTERS_VERSION, ..Counters::default() }
    }

    /// Does the machine still owe the customer something?
    pub fn owes_anything(&self) -> (b: bool)
        ensures
            b == self.owes(),
    {
        if self.items_pending > 0 || self.free_items_pending > 0 {
            return true;
        }
        let mut i: usize = 0;
        while i < HOPPER_COUNT
            invariant
                i <= HOPPER_COUNT,
                forall|j: int| 0 <= j < i ==> #[trigger] self.coins_pending@[j] == 0,
            decreases HOPPER_COUNT - i,
        {
            if self.coins_pending[i] > 0 {
                assert(self.coins_pending@[i as int] > 0);
                return true;
            }
            i += 1;
        }
        false
    }
}

/// A machine that has never done anything owes nobody anything, and holds nobody's money.
pub proof fn law_fresh_machine_owes_nothing()
    ensures
        !Counters::fresh().owes(),
        Counters::fresh().cash == 0,
        Counters::fresh().version == 1 && COUNTERS_VERSION == 1,
        Counters::fresh().item_level == 0,
        forall|i: int| 0 <= i < HOPPER_COUNT ==> #[trigger] Counters::fresh().coin_levels@[i] == 0,
        Counters::fresh().app_state is AcceptCash,
        Counters::fresh().overall == (Accounting { cash_in: 0, cash_out: 0, items_dispensed: 0, items_free: 0 }),
        Counters::fresh().period == Counters::fresh().overall,
{
}

/// The machine owes something exactly if a pair, paid for or not, or a coin of some hopper is still to come out.
pub proof fn law_owing(c: Counters)
    ensures
        c.owes() <==> c.items_pending + c.free_items_pending > 0 || !(forall|i: int|
            0 <= i < HOPPER_COUNT ==> #[trigger] c.coins_pending@[i] == 0),
{
}

/// A machine as it comes from the factory sells a pair for five roubles and gives change in roubles, takes coins of ten, five,
/// two, one and half a rouble on the first five channels, speaks Russian, and knows no key.
pub proof fn law_factory_settings()
    ensures
        ({
            let s = Settings::factory();
            let values = s.coin_acceptor.channel_values@;
            &&& s.version == 1 && SETTINGS_VERSION == 1
            &&& s.item_dispenser.enabled && s.item_dispenser.unit_value == 500
            &&& s.item_dispenser.min_level == 10 && s.item_dispenser.warn_level == 100
            &&& s.item_dispenser.max_level == 10_000
            &&& forall|i: int|
                0 <= i < HOPPER_COUNT ==> (#[trigger] s.coin_hoppers@[i]).enabled && s.coin_hoppers@[i].unit_value
                    == 100 && s.coin_hoppers@[i].min_level == 10 && s.coin_hoppers@[i].warn_level == 50
                    && s.coin_hoppers@[i].max_level == 1_000
            &&& s.coin_acceptor.enabled && !s.coin_acceptor.pulse_mode && s.coin_acceptor.channel_mask == 0x3f
            &&& values[0] == 1_000 && values[1] == 500 && values[2] == 200 && values[3] == 100 && values[4] == 50
                && values[5] == 0
            &&& s.user_language == Language::Russian && s.service_language == Language::Russian
            &&& s.currency == Currency::Rub && s.machine_id == 0
            &&& s.workday_start_hour == 0 && s.workday_end_hour == 24
            &&& s.residual_timeout == 30 && s.menu_exit_timeout == 60 && s.cash_clear_timeout == 120
            &&& s.thanks_message_delay == 3 && s.payout_message_delay == 5
            &&& forall|level: int, i: int|
                0 <= level < KEY_ACCESS_LEVELS && 0 <= i < KEYS_PER_LEVEL ==> (
                #[trigger] s.keys@[level]@[i]).blank()
        }),
{
    let s = Settings::factory();
    assert forall|level: int, i: int| 0 <= level < KEY_ACCESS_LEVELS && 0 <= i < KEYS_PER_LEVEL implies (
    #[trigger] s.keys@[level]@[i]).blank() by {
        assert(s.keys@[level]@[i] == IbuttonKey([0u8; KEY_LEN]));
    }
}

} // verus!
