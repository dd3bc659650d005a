//! The settings as stored: one record in a segment of its own.
use vstd::prelude::*;

use crate::config::{COIN_CHANNELS, HOPPER_COUNT};
use crate::error::{self, Errors};
use crate::nvram::codec::{self, crc16, is_blank, Cursor, Reader};
use crate::nvram::flash::{self, NVRAM_BASE, NVRAM_LEN, SEGMENT};
use crate::state::{
    Cash, CoinAcceptorSettings, Currency, HopperSettings, IbuttonKey, Language, Settings, KEYS_PER_LEVEL,
    KEY_ACCESS_LEVELS, KEY_LEN, SETTINGS_VERSION,
};

verus! {

/// How much of the settings' segment is read. A little more than a record takes, as headroom against the
/// next field added.
pub const SETTINGS_LEN: usize = 168;

/// How long a record is, with its checksum.
pub const SETTINGS_RECORD: usize = 112;

/// Where a record keeps its checksum, which covers everything before it.
pub const SETTINGS_CRC_AT: usize = 110;

/// The number a language is stored as.
pub open spec fn language_code(l: Language) -> u8 {
    match l {
        Language::Russian => 0,
        Language::English => 1,
    }
}

/// The language a number stands for.
pub open spec fn language_of(v: u8) -> Language {
    if v == 0 {
        Language::Russian
    } else {
        Language::English
    }
}

/// The number a currency is stored as.
pub open spec fn currency_code(c: Currency) -> u8 {
    match c {
        Currency::Rub => 0,
        Currency::Kzt => 1,
        Currency::Byn => 2,
    }
}

/// The currency a number stands for.
pub open spec fn currency_of(v: u8) -> Currency {
    if v == 1 {
        Currency::Kzt
    } else if v == 2 {
        Currency::Byn
    } else {
        Currency::Rub
    }
}

/// The number a yes or no is stored as.
pub open spec fn flag_code(b: bool) -> u8 {
    if b {
        1
    } else {
        0
    }
}

/// One hopper's settings as stored: eleven bytes.
pub open spec fn hopper_bytes(h: HopperSettings) -> Seq<u8> {
    seq![flag_code(h.enabled)] + codec::le32(h.unit_value) + codec::le16(h.min_level) + codec::le16(
        h.warn_level,
    ) + codec::le16(h.max_level)
}

/// The hopper settings stored at `at`.
pub open spec fn hopper_at(bytes: Seq<u8>, at: int) -> HopperSettings {
    HopperSettings {
        enabled: bytes[at] != 0,
        unit_value: codec::u32_at(bytes, at + 1),
        min_level: codec::u16_at(bytes, at + 5),
        warn_level: codec::u16_at(bytes, at + 7),
        max_level: codec::u16_at(bytes, at + 9),
    }
}

/// What the channels are worth, as stored.
pub open spec fn values_bytes(v: [Cash; COIN_CHANNELS]) -> Seq<u8> {
    codec::le32(v@[0]) + codec::le32(v@[1]) + codec::le32(v@[2]) + codec::le32(v@[3]) + codec::le32(v@[4])
        + codec::le32(v@[5])
}

/// The channel values stored at `at`.
pub open spec fn values_at(bytes: Seq<u8>, at: int) -> [Cash; COIN_CHANNELS] {
    [
        codec::u32_at(bytes, at),
        codec::u32_at(bytes, at + 4),
        codec::u32_at(bytes, at + 8),
        codec::u32_at(bytes, at + 12),
        codec::u32_at(bytes, at + 16),
        codec::u32_at(bytes, at + 20),
    ]
}

/// The key stored at `at`.
pub open spec fn key_at(bytes: Seq<u8>, at: int) -> IbuttonKey {
    IbuttonKey(
        [
            bytes[at],
            bytes[at + 1],
            bytes[at + 2],
            bytes[at + 3],
            bytes[at + 4],
            bytes[at + 5],
            bytes[at + 6],
            bytes[at + 7],
        ],
    )
}

/// The key table, level by level.
pub type Keys = [[IbuttonKey; KEYS_PER_LEVEL]; KEY_ACCESS_LEVELS];

/// The key table as stored.
pub open spec fn keys_bytes(k: Keys) -> Seq<u8> {
    k@[0]@[0].0@ + k@[0]@[1].0@ + k@[1]@[0].0@ + k@[1]@[1].0@ + k@[2]@[0].0@ + k@[2]@[1].0@
}

/// The key table stored at `at`.
pub open spec fn keys_at(bytes: Seq<u8>, at: int) -> Keys {
    [
        [key_at(bytes, at), key_at(bytes, at + 8)],
        [key_at(bytes, at + 16), key_at(bytes, at + 24)],
        [key_at(bytes, at + 32), key_at(bytes, at + 40)],
    ]
}

/// What stands before the hoppers: the version, what the machine says and in which language, and the
/// acceptor.
pub open spec fn head_bytes(s: Settings) -> Seq<u8> {
    let start = seq![
        s.version,
        language_code(s.user_language),
        language_code(s.service_language),
        currency_code(s.currency),
    ] + codec::le16(s.machine_id);
    let acceptor = seq![flag_code(s.coin_acceptor.enabled), s.coin_acceptor.channel_mask] + values_bytes(
        s.coin_acceptor.channel_values,
    );
    (start + acceptor).push(flag_code(s.coin_acceptor.pulse_mode))
}

/// What stands behind the keys: the hours and the timeouts.
pub open spec fn tail_bytes(s: Settings) -> Seq<u8> {
    seq![
        s.workday_start_hour,
        s.workday_end_hour,
        s.residual_timeout,
        s.menu_exit_timeout,
        s.cash_clear_timeout,
        s.thanks_message_delay,
        s.payout_message_delay,
    ]
}

/// What the checksum of a record covers: every setting, field by field.
pub open spec fn settings_body(s: Settings) -> Seq<u8> {
    head_bytes(s) + hopper_bytes(s.coin_hoppers@[0]) + hopper_bytes(s.item_dispenser) + keys_bytes(s.keys)
        + tail_bytes(s)
}

/// A whole record.
pub open spec fn settings_record(s: Settings) -> Seq<u8> {
    codec::sealed(settings_body(s))
}

/// The settings that the bytes of a record spell.
pub open spec fn settings_at(bytes: Seq<u8>) -> Settings {
    Settings {
        version: bytes[0],
        user_language: language_of(bytes[1]),
        service_language: language_of(bytes[2]),
        currency: currency_of(bytes[3]),
        machine_id: codec::u16_at(bytes, 4),
        coin_acceptor: CoinAcceptorSettings {
            enabled: bytes[6] != 0,
            channel_mask: bytes[7],
            channel_values: values_at(bytes, 8),
            pulse_mode: bytes[32] != 0,
        },
        coin_hoppers: [hopper_at(bytes, 33)],
        item_dispenser: hopper_at(bytes, 44),
        keys: keys_at(bytes, 55),
        workday_start_hour: bytes[103],
        workday_end_hour: bytes[104],
        residual_timeout: bytes[105],
        menu_exit_timeout: bytes[106],
        cash_clear_timeout: bytes[107],
        thanks_message_delay: bytes[108],
        payout_message_delay: bytes[109],
    }
}

/// Does the record's checksum hold?
pub open spec fn settings_checksum_holds(bytes: Seq<u8>) -> bool {
    codec::crc16_of(bytes.take(SETTINGS_CRC_AT as int)) == codec::u16_at(bytes, SETTINGS_CRC_AT as int)
}

/// The fault that reading the region's settings finds, or zero. A blank segment is none.
pub open spec fn settings_fault(flash: Seq<u8>) -> u32 {
    if codec::blank(flash.take(SETTINGS_LEN as int)) {
        0
    } else if !settings_checksum_holds(flash) {
        error::SETTINGS_CRC
    } else if flash[0] != SETTINGS_VERSION {
        error::SETTINGS_VERSION
    } else {
        0
    }
}

/// The settings of a region: those stored in it, or the factory's where there are none that can be
/// trusted.
pub open spec fn settings_in(flash: Seq<u8>) -> Settings {
    if codec::blank(flash.take(SETTINGS_LEN as int)) || settings_fault(flash) != 0 {
        Settings::factory()
    } else {
        settings_at(flash)
    }
}

/// The region once a record has been written over the settings' segment.
pub open spec fn settings_applied(flash: Seq<u8>, record: Seq<u8>) -> Seq<u8> {
    flash::programmed(flash::erased(flash, 0), 0, record)
}

/// The region if the power goes off after `words` words of such a record have been written.
pub open spec fn settings_torn(flash: Seq<u8>, record: Seq<u8>, words: int) -> Seq<u8> {
    flash::programmed(flash::erased(flash, 0), 0, record.take(2 * words))
}

/// The language a number stands for.
fn language(v: u8) -> (l: Language)
    ensures
        l == language_of(v),
{
    if v == 0 {
        Language::Russian
    } else {
        Language::English
    }
}

/// The currency a number stands for.
fn currency(v: u8) -> (c: Currency)
    ensures
        c == currency_of(v),
{
    if v == 1 {
        Currency::Kzt
    } else if v == 2 {
        Currency::Byn
    } else {
        Currency::Rub
    }
}

/// The number a yes or no is stored as.
fn flag(b: bool) -> (v: u8)
    ensures
        v == flag_code(b),
{
    if b {
        1
    } else {
        0
    }
}

/// The number a language is stored as.
fn language_number(l: Language) -> (v: u8)
    ensures
        v == language_code(l),
{
    match l {
        Language::Russian => 0,
        Language::English => 1,
    }
}

/// The number a currency is stored as.
fn currency_number(c: Currency) -> (v: u8)
    ensures
        v == currency_code(c),
{
    match c {
        Currency::Rub => 0,
        Currency::Kzt => 1,
        Currency::Byn => 2,
    }
}

/// Append one hopper's settings.
fn put_hopper(c: &mut Cursor, h: &HopperSettings)
    ensures
        final(c).buf@ == old(c).buf@ + hopper_bytes(*h),
{
    c.u8(flag(h.enabled));
    c.u32(h.unit_value);
    c.u16(h.min_level);
    c.u16(h.warn_level);
    c.u16(h.max_level);
    assert(c.buf@ =~= old(c).buf@ + hopper_bytes(*h));
}

/// Read one hopper's settings.
fn get_hopper(r: &mut Reader) -> (h: HopperSettings)
    requires
        old(r).at + 11 <= old(r).buf@.len(),
    ensures
        final(r).buf == old(r).buf,
        final(r).at == old(r).at + 11,
        h == hopper_at(old(r).buf@, old(r).at as int),
{
    let enabled = r.u8() != 0;
    let unit_value = r.u32();
    let min_level = r.u16();
    let warn_level = r.u16();
    let max_level = r.u16();
    HopperSettings { enabled, unit_value, min_level, warn_level, max_level }
}

/// Append a key.
fn put_key(c: &mut Cursor, k: &IbuttonKey)
    ensures
        final(c).buf@ == old(c).buf@ + k.0@,
{
    c.bytes(k.0.as_slice());
}

/// Read a key.
fn get_key(r: &mut Reader) -> (k: IbuttonKey)
    requires
        old(r).at + 8 <= old(r).buf@.len(),
    ensures
        final(r).buf == old(r).buf,
        final(r).at == old(r).at + 8,
        k == key_at(old(r).buf@, old(r).at as int),
{
    let b0 = r.u8();
    let b1 = r.u8();
    let b2 = r.u8();
    let b3 = r.u8();
    let b4 = r.u8();
    let b5 = r.u8();
    let b6 = r.u8();
    let b7 = r.u8();
    let k: [u8; KEY_LEN] = [b0, b1, b2, b3, b4, b5, b6, b7];
    assert(k =~= key_at(old(r).buf@, old(r).at as int).0);
    IbuttonKey(k)
}

/// Append what stands before the hoppers.
fn put_head(c: &mut Cursor, s: &Settings)
    requires
        old(c).buf@.len() == 0,
    ensures
        final(c).buf@ == head_bytes(*s),
{
    c.u8(s.version);
    c.u8(language_number(s.user_language));
    c.u8(language_number(s.service_language));
    c.u8(currency_number(s.currency));
    c.u16(s.machine_id);
    c.u8(flag(s.coin_acceptor.enabled));
    c.u8(s.coin_acceptor.channel_mask);
    let values = &s.coin_acceptor.channel_values;
    c.u32(values[0]);
    c.u32(values[1]);
    c.u32(values[2]);
    c.u32(values[3]);
    c.u32(values[4]);
    c.u32(values[5]);
    c.u8(flag(s.coin_acceptor.pulse_mode));
    assert(c.buf@ =~= head_bytes(*s));
}

/// Append the key table.
fn put_keys(c: &mut Cursor, k: &Keys)
    ensures
        final(c).buf@ == old(c).buf@ + keys_bytes(*k),
{
    put_key(c, &k[0][0]);
    put_key(c, &k[0][1]);
    put_key(c, &k[1][0]);
    put_key(c, &k[1][1]);
    put_key(c, &k[2][0]);
    put_key(c, &k[2][1]);
    assert(c.buf@ =~= old(c).buf@ + keys_bytes(*k));
}

/// Read the key table.
fn get_keys(r: &mut Reader) -> (k: Keys)
    requires
        old(r).at + 48 <= old(r).buf@.len(),
    ensures
        final(r).buf == old(r).buf,
        final(r).at == old(r).at + 48,
        k == keys_at(old(r).buf@, old(r).at as int),
{
    let k0 = get_key(r);
    let k1 = get_key(r);
    let k2 = get_key(r);
    let k3 = get_key(r);
    let k4 = get_key(r);
    let k5 = get_key(r);
    let k: Keys = [[k0, k1], [k2, k3], [k4, k5]];
    let ghost want = keys_at(old(r).buf@, old(r).at as int);
    assert(k@[0] =~= want@[0]);
    assert(k@[1] =~= want@[1]);
    assert(k@[2] =~= want@[2]);
    assert(k =~= want);
    k
}

/// Read the acceptor's settings.
fn get_acceptor(r: &mut Reader) -> (s: CoinAcceptorSettings)
    requires
        old(r).at + 27 <= old(r).buf@.len(),
    ensures
        final(r).buf == old(r).buf,
        final(r).at == old(r).at + 27,
        ({
            let bytes = old(r).buf@;
            let at = old(r).at as int;
            s == (CoinAcceptorSettings {
                enabled: bytes[at] != 0,
                channel_mask: bytes[at + 1],
                channel_values: values_at(bytes, at + 2),
                pulse_mode: bytes[at + 26] != 0,
            })
        }),
{
    let enabled = r.u8() != 0;
    let channel_mask = r.u8();
    let v0 = r.u32();
    let v1 = r.u32();
    let v2 = r.u32();
    let v3 = r.u32();
    let v4 = r.u32();
    let v5 = r.u32();
    let channel_values: [Cash; COIN_CHANNELS] = [v0, v1, v2, v3, v4, v5];
    assert(channel_values =~= values_at(old(r).buf@, old(r).at + 2));
    let pulse_mode = r.u8() != 0;
    CoinAcceptorSettings { enabled, channel_mask, channel_values, pulse_mode }
}

/// Settings on their way into their segment, which starts the region.
#[derive(Clone, Debug, Eq, PartialEq)]
pub struct SettingsWrite {
    /// The bytes of the record.
    pub record: Vec<u8>,
}

impl SettingsWrite {
    /// The record is a whole one.
    pub open spec fn wf(self) -> bool {
        self.record@.len() == SETTINGS_RECORD
    }

    /// The region once the segment has been erased and the record written.
    pub open spec fn applied(self, flash: Seq<u8>) -> Seq<u8> {
        settings_applied(flash, self.record@)
    }

    /// Must the segment be erased first? Always: the settings before them stand there.
    pub fn needs_erase(&self) -> (b: bool)
        ensures
            b,
    {
        true
    }

    /// The address the record goes to, which is also an address in the segment to erase.
    pub fn addr(&self) -> (addr: u16)
        requires
            self.wf(),
        ensures
            addr == NVRAM_BASE,
            addr + self.record@.len() <= NVRAM_BASE + SEGMENT,
    {
        NVRAM_BASE
    }

    /// The bytes of the record.
    pub fn bytes(&self) -> (out: &[u8])
        ensures
            out@ == self.record@,
    {
        self.record.as_slice()
    }
}

/// How to store settings: the record to write into their segment.
///
/// One erase and one write, both of which hold the CPU. This is done from the service menu, where a few
/// milliseconds of stopped machine are not noticeable.
pub fn save_settings(s: &Settings) -> (write: SettingsWrite)
    ensures
        write.record@ == settings_record(*s),
        write.wf(),
{
    let mut c = Cursor::new();
    put_head(&mut c, s);
    put_hopper(&mut c, &s.coin_hoppers[0]);
    put_hopper(&mut c, &s.item_dispenser);
    put_keys(&mut c, &s.keys);
    c.u8(s.workday_start_hour);
    c.u8(s.workday_end_hour);
    c.u8(s.residual_timeout);
    c.u8(s.menu_exit_timeout);
    c.u8(s.cash_clear_timeout);
    c.u8(s.thanks_message_delay);
    c.u8(s.payout_message_delay);
    assert(c.buf@ =~= settings_body(*s));
    proof {
        lemma_body_len(*s);
        codec::lemma_le16_len(codec::crc16_of(settings_body(*s)));
    }
    c.seal();
    SettingsWrite { record: c.buf }
}

/// Read the stored settings, or the defaults if there are none that can be trusted.
///
/// Never fails. A machine with unreadable settings still has to stand there and sell shoe covers; what it
/// does instead is raise the fault, so that the display and any engineer can see that what it is running is
/// not what was configured.
pub fn load_settings(flash: &[u8], faults: &mut Errors) -> (s: Settings)
    requires
        flash@.len() == NVRAM_LEN,
    ensures
        s == settings_in(flash@),
        *final(faults) == old(faults).with(settings_fault(flash@)),
{
    proof {
        let b = faults.bits;
        assert(b | 0 == b) by (bit_vector);
    }
    let start = vstd::slice::slice_subrange(flash, 0, SETTINGS_LEN);
    assert(start@ =~= flash@.take(SETTINGS_LEN as int));
    if is_blank(start) {
        return Settings::default();
    }
    let mut r = Reader::new(flash);
    let version = r.u8();
    let user_language = language(r.u8());
    let service_language = language(r.u8());
    let currency = currency(r.u8());
    let machine_id = r.u16();
    let coin_acceptor = get_acceptor(&mut r);
    let coin_hoppers: [HopperSettings; HOPPER_COUNT] = [get_hopper(&mut r)];
    let item_dispenser = get_hopper(&mut r);
    let keys = get_keys(&mut r);
    let workday_start_hour = r.u8();
    let workday_end_hour = r.u8();
    let residual_timeout = r.u8();
    let menu_exit_timeout = r.u8();
    let cash_clear_timeout = r.u8();
    let thanks_message_delay = r.u8();
    let payout_message_delay = r.u8();
    let stored = r.u16();
    if crc16(flash, SETTINGS_CRC_AT) != stored {
        error::raise(faults, error::SETTINGS_CRC);
        return Settings::default();
    }
    if version != SETTINGS_VERSION {
        error::raise(faults, error::SETTINGS_VERSION);
        return Settings::default();
    }
    let s = Settings {
        version,
        user_language,
        service_language,
        currency,
        machine_id,
        coin_acceptor,
        coin_hoppers,
        item_dispenser,
        keys,
        workday_start_hour,
        workday_end_hour,
        residual_timeout,
        menu_exit_timeout,
        cash_clear_timeout,
        thanks_message_delay,
        payout_message_delay,
    };
    assert(s.coin_hoppers =~= settings_at(flash@).coin_hoppers);
    s
}

/// How long the parts of a record are.
proof fn lemma_body_len(s: Settings)
    ensures
        head_bytes(s).len() == 33,
        hopper_bytes(s.coin_hoppers@[0]).len() == 11,
        hopper_bytes(s.item_dispenser).len() == 11,
        keys_bytes(s.keys).len() == 48,
        tail_bytes(s).len() == 7,
        settings_body(s).len() == SETTINGS_CRC_AT,
{
    broadcast use codec::lemma_le16_len, codec::lemma_le32_len;

}

/// Hopper settings are read back from where their bytes stand.
proof fn lemma_hopper_at(bytes: Seq<u8>, at: int, h: HopperSettings)
    requires
        0 <= at,
        at + 11 <= bytes.len(),
        bytes.subrange(at, at + 11) == hopper_bytes(h),
    ensures
        hopper_at(bytes, at) == h,
{
    broadcast use codec::lemma_le16_len, codec::lemma_le32_len;

    let part = bytes.subrange(at, at + 11);
    assert(bytes[at] == part[0]);
    assert(bytes.subrange(at + 1, at + 5) =~= part.subrange(1, 5));
    assert(part.subrange(1, 5) =~= codec::le32(h.unit_value));
    codec::lemma_u32_at(bytes, at + 1, h.unit_value);
    assert(bytes.subrange(at + 5, at + 7) =~= part.subrange(5, 7));
    assert(part.subrange(5, 7) =~= codec::le16(h.min_level));
    codec::lemma_u16_at(bytes, at + 5, h.min_level);
    assert(bytes.subrange(at + 7, at + 9) =~= part.subrange(7, 9));
    assert(part.subrange(7, 9) =~= codec::le16(h.warn_level));
    codec::lemma_u16_at(bytes, at + 7, h.warn_level);
    assert(bytes.subrange(at + 9, at + 11) =~= part.subrange(9, 11));
    assert(part.subrange(9, 11) =~= codec::le16(h.max_level));
    codec::lemma_u16_at(bytes, at + 9, h.max_level);
}

/// One channel value is read back.
proof fn lemma_value_at(bytes: Seq<u8>, at: int, v: [Cash; COIN_CHANNELS], i: int)
    requires
        0 <= at,
        at + 24 <= bytes.len(),
        bytes.subrange(at, at + 24) == values_bytes(v),
        0 <= i < 6,
    ensures
        codec::u32_at(bytes, at + 4 * i) == v@[i],
{
    broadcast use codec::lemma_le32_len;

    let part = bytes.subrange(at, at + 24);
    assert(bytes.subrange(at + 4 * i, at + 4 * i + 4) =~= part.subrange(4 * i, 4 * i + 4));
    assert(part.subrange(4 * i, 4 * i + 4) =~= codec::le32(v@[i]));
    codec::lemma_u32_at(bytes, at + 4 * i, v@[i]);
}

/// The channel values are read back from where their bytes stand.
proof fn lemma_values_at(bytes: Seq<u8>, at: int, v: [Cash; COIN_CHANNELS])
    requires
        0 <= at,
        at + 24 <= bytes.len(),
        bytes.subrange(at, at + 24) == values_bytes(v),
    ensures
        values_at(bytes, at) == v,
{
    lemma_value_at(bytes, at, v, 0);
    lemma_value_at(bytes, at, v, 1);
    lemma_value_at(bytes, at, v, 2);
    lemma_value_at(bytes, at, v, 3);
    lemma_value_at(bytes, at, v, 4);
    lemma_value_at(bytes, at, v, 5);
    assert(values_at(bytes, at) =~= v);
}

/// A key is read back from where its bytes stand.
proof fn lemma_key_at(bytes: Seq<u8>, at: int, k: IbuttonKey)
    requires
        0 <= at,
        at + 8 <= bytes.len(),
        bytes.subrange(at, at + 8) == k.0@,
    ensures
        key_at(bytes, at) == k,
{
    let part = bytes.subrange(at, at + 8);
    assert forall|i: int| 0 <= i < 8 implies #[trigger] k.0@[i] == bytes[at + i] by {
        assert(part[i] == bytes[at + i]);
    }
    assert(key_at(bytes, at).0 =~= k.0);
}

/// The key table is read back from where its bytes stand.
proof fn lemma_keys_at(bytes: Seq<u8>, at: int, k: Keys)
    requires
        0 <= at,
        at + 48 <= bytes.len(),
        bytes.subrange(at, at + 48) == keys_bytes(k),
    ensures
        keys_at(bytes, at) == k,
{
    let part = bytes.subrange(at, at + 48);
    assert(bytes.subrange(at, at + 8) =~= part.subrange(0, 8));
    assert(part.subrange(0, 8) =~= k@[0]@[0].0@);
    lemma_key_at(bytes, at, k@[0]@[0]);
    assert(bytes.subrange(at + 8, at + 16) =~= part.subrange(8, 16));
    assert(part.subrange(8, 16) =~= k@[0]@[1].0@);
    lemma_key_at(bytes, at + 8, k@[0]@[1]);
    assert(bytes.subrange(at + 16, at + 24) =~= part.subrange(16, 24));
    assert(part.subrange(16, 24) =~= k@[1]@[0].0@);
    lemma_key_at(bytes, at + 16, k@[1]@[0]);
    assert(bytes.subrange(at + 24, at + 32) =~= part.subrange(24, 32));
    assert(part.subrange(24, 32) =~= k@[1]@[1].0@);
    lemma_key_at(bytes, at + 24, k@[1]@[1]);
    assert(bytes.subrange(at + 32, at + 40) =~= part.subrange(32, 40));
    assert(part.subrange(32, 40) =~= k@[2]@[0].0@);
    lemma_key_at(bytes, at + 32, k@[2]@[0]);
    assert(bytes.subrange(at + 40, at + 48) =~= part.subrange(40, 48));
    assert(part.subrange(40, 48) =~= k@[2]@[1].0@);
    lemma_key_at(bytes, at + 40, k@[2]@[1]);
    let back = keys_at(bytes, at);
    assert(back@[0] =~= k@[0]);
    assert(back@[1] =~= k@[1]);
    assert(back@[2] =~= k@[2]);
    assert(back =~= k);
}

/// Every setting is read back from a record.
#[verifier::rlimit(40)]
proof fn lemma_settings_at(bytes: Seq<u8>, s: Settings)
    requires
        bytes.len() >= SETTINGS_RECORD,
        bytes.take(SETTINGS_CRC_AT as int) == settings_body(s),
    ensures
        settings_at(bytes) == s,
{
    broadcast use codec::lemma_le16_len, codec::lemma_le32_len;

    lemma_body_len(s);
    let body = settings_body(s);
    let head = head_bytes(s);
    assert forall|i: int| 0 <= i < SETTINGS_CRC_AT implies #[trigger] bytes[i] == body[i] by {
        assert(bytes[i] == bytes.take(SETTINGS_CRC_AT as int)[i]);
    }
    assert forall|i: int| 0 <= i < 33 implies #[trigger] head[i] == bytes[i] by {
        assert(body[i] == head[i]);
    }
    assert(bytes.subrange(4, 6) =~= codec::le16(s.machine_id)) by {
        assert(head.subrange(4, 6) =~= codec::le16(s.machine_id));
        assert(bytes.subrange(4, 6) =~= head.subrange(4, 6));
    }
    codec::lemma_u16_at(bytes, 4, s.machine_id);
    let values = s.coin_acceptor.channel_values;
    assert(bytes.subrange(8, 32) =~= values_bytes(values)) by {
        assert(head.subrange(8, 32) =~= values_bytes(values));
        assert(bytes.subrange(8, 32) =~= head.subrange(8, 32));
    }
    lemma_values_at(bytes, 8, values);
    assert(bytes.subrange(33, 44) =~= hopper_bytes(s.coin_hoppers@[0]));
    lemma_hopper_at(bytes, 33, s.coin_hoppers@[0]);
    assert(bytes.subrange(44, 55) =~= hopper_bytes(s.item_dispenser));
    lemma_hopper_at(bytes, 44, s.item_dispenser);
    assert(bytes.subrange(55, 103) =~= keys_bytes(s.keys));
    lemma_keys_at(bytes, 55, s.keys);
    assert(bytes.subrange(103, 110) =~= tail_bytes(s));
    let tail = tail_bytes(s);
    assert forall|i: int| 0 <= i < 7 implies #[trigger] tail[i] == bytes[103 + i] by {
        assert(bytes.subrange(103, 110)[i] == bytes[103 + i]);
    }
    assert(head[0] == s.version && head[1] == language_code(s.user_language) && head[2] == language_code(
        s.service_language,
    ) && head[3] == currency_code(s.currency));
    assert(head[6] == flag_code(s.coin_acceptor.enabled) && head[7] == s.coin_acceptor.channel_mask
        && head[32] == flag_code(s.coin_acceptor.pulse_mode));
    assert(tail[0] == bytes[103] && tail[1] == bytes[104] && tail[2] == bytes[105] && tail[3]
        == bytes[106] && tail[4] == bytes[107] && tail[5] == bytes[108] && tail[6] == bytes[109]);
    assert(settings_at(bytes).coin_hoppers =~= s.coin_hoppers);
}

/// Reading the settings gives back what was last written, every one of them, and finds no fault.
///
/// Settings stamped with another layout's version are the only ones that are not given back: what they
/// give is the factory's, and the fault that says so.
pub proof fn law_settings_round_trip(s: Settings, flash: Seq<u8>)
    requires
        flash.len() == NVRAM_LEN,
    ensures
        ({
            let after = settings_applied(flash, settings_record(s));
            &&& s.version == SETTINGS_VERSION ==> settings_in(after) == s && settings_fault(after) == 0
            &&& s.version != SETTINGS_VERSION ==> settings_in(after) == Settings::factory()
                && settings_fault(after) == error::SETTINGS_VERSION
        }),
{
    let after = settings_applied(flash, settings_record(s));
    lemma_stored(s, flash);
    lemma_settings_at(after, s);
    // The language is stored as nought or one, so a record is never all ones.
    assert(after.take(SETTINGS_LEN as int)[1] != 0xff);
}

/// What stands in the segment once settings have been written: the record, byte by byte, with its checksum.
proof fn lemma_stored(s: Settings, flash: Seq<u8>)
    requires
        flash.len() == NVRAM_LEN,
    ensures
        ({
            let after = settings_applied(flash, settings_record(s));
            &&& after.len() == NVRAM_LEN
            &&& after.take(SETTINGS_CRC_AT as int) == settings_body(s)
            &&& settings_checksum_holds(after)
            &&& after[1] == language_code(s.user_language)
            &&& after[2] == language_code(s.service_language)
        }),
{
    let record = settings_record(s);
    let after = settings_applied(flash, record);
    lemma_body_len(s);
    let body = settings_body(s);
    let crc = codec::crc16_of(body);
    codec::lemma_le16_len(crc);
    assert forall|i: int| 0 <= i < SETTINGS_RECORD implies #[trigger] after[i] == record[i] by {
        let b = record[i];
        assert(0xffu8 & b == b) by (bit_vector);
    }
    assert(after.take(SETTINGS_CRC_AT as int) =~= body);
    assert(after.subrange(110, 112) =~= codec::le16(crc));
    codec::lemma_u16_at(after, 110, crc);
    assert(after[1] == body[1] && after[2] == body[2]);
}

/// Settings in which any one byte has changed are not taken for settings: what is read is the factory's, and the
/// fault that says so. Behind the checksum there is only padding.
pub proof fn law_changed_byte_is_noticed(s: Settings, flash: Seq<u8>, i: int, v: u8)
    requires
        flash.len() == NVRAM_LEN,
        0 <= i < SETTINGS_CRC_AT + 2,
        v != settings_applied(flash, settings_record(s))[i],
    ensures
        ({
            let after = settings_applied(flash, settings_record(s)).update(i, v);
            &&& settings_in(after) == Settings::factory()
            &&& settings_fault(after) == error::SETTINGS_CRC
        }),
{
    let stored = settings_applied(flash, settings_record(s));
    lemma_stored(s, flash);
    lemma_changed_segment(stored, i, v);
}

/// A segment whose checksum holds, and which names two languages, is not trusted once one of its bytes has changed.
proof fn lemma_changed_segment(stored: Seq<u8>, i: int, v: u8)
    requires
        stored.len() == NVRAM_LEN,
        settings_checksum_holds(stored),
        stored[1] != 0xff,
        stored[2] != 0xff,
        0 <= i < SETTINGS_CRC_AT + 2,
        v != stored[i],
    ensures
        settings_in(stored.update(i, v)) == Settings::factory(),
        settings_fault(stored.update(i, v)) == error::SETTINGS_CRC,
{
    codec::lemma_changed_byte_fails(stored, SETTINGS_CRC_AT as int, i, v);
    // One of the two languages still stands, so the record is not all ones.
    let start = stored.update(i, v).take(SETTINGS_LEN as int);
    assert(start[1] != 0xff || start[2] != 0xff);
}

/// Settings that a power cut interrupts are not given back as something else, as long as what was written of them
/// fails its checksum: what is read is the factory's. Settings of which all has been written are given back.
pub proof fn law_torn_settings(s: Settings, flash: Seq<u8>, words: int)
    requires
        flash.len() == NVRAM_LEN,
        s.version == SETTINGS_VERSION,
        0 <= words <= SETTINGS_RECORD / 2,
    ensures
        ({
            let cut = settings_torn(flash, settings_record(s), words);
            &&& words == 0 || !settings_checksum_holds(cut) ==> settings_in(cut) == Settings::factory()
            &&& words == SETTINGS_RECORD / 2 ==> settings_in(cut) == s
        }),
{
    lemma_erased_settings(flash, settings_record(s));
    if words == SETTINGS_RECORD / 2 {
        lemma_all_words(s, flash);
        law_settings_round_trip(s, flash);
    }
}

/// Before the first word, the segment is blank.
proof fn lemma_erased_settings(flash: Seq<u8>, record: Seq<u8>)
    requires
        flash.len() == NVRAM_LEN,
    ensures
        settings_in(settings_torn(flash, record, 0)) == Settings::factory(),
{
    let cut = settings_torn(flash, record, 0);
    assert(record.take(0).len() == 0);
    let start = cut.take(SETTINGS_LEN as int);
    assert forall|i: int| 0 <= i < start.len() implies #[trigger] start[i] == 0xff by {
        assert(start[i] == cut[i]);
    }
}

/// Writing all the words of a record is writing the record.
proof fn lemma_all_words(s: Settings, flash: Seq<u8>)
    ensures
        settings_torn(flash, settings_record(s), SETTINGS_RECORD as int / 2) == settings_applied(
            flash,
            settings_record(s),
        ),
{
    lemma_body_len(s);
    codec::lemma_le16_len(codec::crc16_of(settings_body(s)));
    let record = settings_record(s);
    assert(record.len() == SETTINGS_RECORD);
    assert(record.take(SETTINGS_RECORD as int) =~= record);
}

/// Whatever a region holds, the settings that are read from it are of the version this build writes.
pub proof fn law_settings_are_of_this_version(flash: Seq<u8>)
    ensures
        settings_in(flash).version == SETTINGS_VERSION,
{
}

/// A blank settings' segment reads as the factory's settings, with no fault: the machine is merely new.
pub proof fn law_blank_settings_are_the_factorys(flash: Seq<u8>)
    requires
        flash.len() == NVRAM_LEN,
        codec::blank(flash.take(SEGMENT as int)),
    ensures
        settings_in(flash) == Settings::factory(),
        settings_fault(flash) == 0,
{
    let segment = flash.take(SEGMENT as int);
    let start = flash.take(SETTINGS_LEN as int);
    assert forall|i: int| 0 <= i < start.len() implies #[trigger] start[i] == 0xff by {
        assert(start[i] == segment[i]);
    }
}

/// Storing settings is one erase of the segment that starts the region, and one write that starts there. Done to their
/// end, they leave the settings in their segment, and every byte outside it, the journal's and the log's, as it was.
pub proof fn law_storing_is_one_erase_and_one_write(
    c: flash::Controller,
    s: Settings,
    write: SettingsWrite,
    smclk: u32,
)
    requires
        c.flash.len() == NVRAM_LEN,
        write.record@ == settings_record(s),
    ensures
        ({
            let clear = c.perform(
                flash::unlock_writes(flash::ERASE, smclk),
                seq![(NVRAM_BASE, 0u16)],
                flash::lock_writes(),
                1,
            );
            let words = flash::data_words(NVRAM_BASE, write.record@);
            let end = clear.perform(
                flash::unlock_writes(flash::WRT, smclk),
                words,
                flash::lock_writes(),
                words.len() as int,
            );
            &&& end.flash == write.applied(c.flash)
            &&& end.locked
            &&& forall|i: int| SEGMENT <= i < NVRAM_LEN ==> #[trigger] end.flash[i] == c.flash[i]
            &&& s.version == SETTINGS_VERSION ==> settings_in(end.flash) == s
        }),
{
    lemma_record_len(s);
    flash::law_erase_and_write(c, NVRAM_BASE, write.record@, smclk);
    law_settings_round_trip(s, c.flash);
    lemma_outside(c.flash, write.record@);
}

/// A record is as long as it is said to be.
proof fn lemma_record_len(s: Settings)
    ensures
        settings_record(s).len() == SETTINGS_RECORD,
{
    lemma_body_len(s);
    codec::lemma_le16_len(codec::crc16_of(settings_body(s)));
}

/// Writing a record touches nothing outside its segment.
proof fn lemma_outside(flash: Seq<u8>, record: Seq<u8>)
    requires
        flash.len() == NVRAM_LEN,
        record.len() <= SEGMENT,
    ensures
        forall|i: int|
            SEGMENT <= i < NVRAM_LEN ==> #[trigger] settings_applied(flash, record)[i] == flash[i],
{
}

/// Writing the settings touches nothing outside their segment, however far it gets.
pub proof fn law_settings_keep_to_their_segment(s: Settings, flash: Seq<u8>, words: int, i: int)
    requires
        flash.len() == NVRAM_LEN,
        0 <= words <= SETTINGS_RECORD / 2,
        SEGMENT <= i < NVRAM_LEN,
    ensures
        settings_applied(flash, settings_record(s))[i] == flash[i],
        settings_torn(flash, settings_record(s), words)[i] == flash[i],
        settings_torn(flash, settings_record(s), words).len() == NVRAM_LEN,
{
    lemma_body_len(s);
    codec::lemma_le16_len(codec::crc16_of(settings_body(s)));
}

/// Where everything stands in the settings: whatever is read as settings has it there.
pub proof fn law_settings_layout(bytes: Seq<u8>)
    requires
        bytes.len() >= 112,
    ensures
        ({
            let s = settings_at(bytes);
            let a = s.coin_acceptor;
            let h = s.coin_hoppers@[0];
            let d = s.item_dispenser;
            &&& s.version == bytes[0]
            &&& s.user_language is Russian <==> bytes[1] == 0
            &&& s.service_language is Russian <==> bytes[2] == 0
            &&& s.currency == (match bytes[3] {
                1 => Currency::Kzt,
                2 => Currency::Byn,
                _ => Currency::Rub,
            })
            &&& s.machine_id == bytes[4] + 0x100 * bytes[5]
            &&& a.enabled == (bytes[6] != 0) && a.channel_mask == bytes[7] && a.pulse_mode == (bytes[32] != 0)
            &&& forall|i: int|
                0 <= i < 6 ==> #[trigger] a.channel_values@[i] == codec::four(bytes, 8 + 4 * i)
            &&& h.enabled == (bytes[33] != 0) && h.unit_value == codec::four(bytes, 34)
            &&& h.min_level == bytes[38] + 0x100 * bytes[39] && h.warn_level == bytes[40] + 0x100 * bytes[41]
            &&& h.max_level == bytes[42] + 0x100 * bytes[43]
            &&& d.enabled == (bytes[44] != 0) && d.unit_value == codec::four(bytes, 45)
            &&& d.min_level == bytes[49] + 0x100 * bytes[50] && d.warn_level == bytes[51] + 0x100 * bytes[52]
            &&& d.max_level == bytes[53] + 0x100 * bytes[54]
            &&& forall|level: int, i: int, k: int|
                0 <= level < 3 && 0 <= i < 2 && 0 <= k < 8 ==> #[trigger] s.keys@[level]@[i].0@[k] == bytes[55
                    + 16 * level + 8 * i + k]
            &&& s.workday_start_hour == bytes[103] && s.workday_end_hour == bytes[104]
            &&& s.residual_timeout == bytes[105] && s.menu_exit_timeout == bytes[106]
            &&& s.cash_clear_timeout == bytes[107] && s.thanks_message_delay == bytes[108]
            &&& s.payout_message_delay == bytes[109]
        }),
{
    let s = settings_at(bytes);
    let values = s.coin_acceptor.channel_values;
    assert(values@[0] == codec::u32_at(bytes, 8) && values@[1] == codec::u32_at(bytes, 12) && values@[2]
        == codec::u32_at(bytes, 16) && values@[3] == codec::u32_at(bytes, 20) && values@[4] == codec::u32_at(
        bytes,
        24,
    ) && values@[5] == codec::u32_at(bytes, 28));
    assert(s.coin_hoppers@[0] == hopper_at(bytes, 33));
    assert forall|level: int, i: int, k: int| 0 <= level < 3 && 0 <= i < 2 && 0 <= k < 8 implies
        #[trigger] s.keys@[level]@[i].0@[k] == bytes[55 + 16 * level + 8 * i + k] by {
        let at = 55 + 16 * level + 8 * i;
        assert(s.keys@[level]@[i] == key_at(bytes, at)) by {
            let keys = keys_at(bytes, 55);
            assert(keys@[0]@[0] == key_at(bytes, 55) && keys@[0]@[1] == key_at(bytes, 63) && keys@[1]@[0]
                == key_at(bytes, 71) && keys@[1]@[1] == key_at(bytes, 79) && keys@[2]@[0] == key_at(bytes, 87)
                && keys@[2]@[1] == key_at(bytes, 95));
        }
        let key = key_at(bytes, at);
        assert(key.0@[0] == bytes[at] && key.0@[1] == bytes[at + 1] && key.0@[2] == bytes[at + 2] && key.0@[3]
            == bytes[at + 3] && key.0@[4] == bytes[at + 4] && key.0@[5] == bytes[at + 5] && key.0@[6] == bytes[at
            + 6] && key.0@[7] == bytes[at + 7]);
    }
}

/// Settings are taken over only if they are there, their checksum holds and they are of this version; otherwise they are the
/// factory's. That they are there but cannot be taken over is a fault, which says why.
pub proof fn law_settings_are_taken_over_if_they_can_be(flash: Seq<u8>)
    requires
        flash.len() == NVRAM_LEN,
    ensures
        ({
            let blank = forall|i: int| 0 <= i < 168 ==> #[trigger] flash[i] == 0xff;
            let holds = codec::crc16_of(flash.take(110)) == flash[110] + 0x100 * flash[111];
            &&& settings_in(flash) == if !blank && holds && flash[0] == SETTINGS_VERSION {
                settings_at(flash)
            } else {
                Settings::factory()
            }
            &&& settings_fault(flash) == if blank {
                0u32
            } else if !holds {
                0x0004
            } else if flash[0] != SETTINGS_VERSION {
                0x0002
            } else {
                0
            }
        }),
{
    let front = flash.take(SETTINGS_LEN as int);
    assert(codec::blank(front) == (forall|i: int| 0 <= i < SETTINGS_LEN ==> #[trigger] flash[i] == 0xff)) by {
        if codec::blank(front) {
            assert forall|i: int| 0 <= i < SETTINGS_LEN implies #[trigger] flash[i] == 0xff by {
                assert(front[i] == 0xff);
            }
        }
    }
}

} // verus!
