//! What the machine knows after a power cut.
//!
//! Whenever the machine waits, for a customer, a dispenser, a hopper or an engineer, everything it knows is on
//! flash: switched off there and on again, it comes back with the same settings, the same money and the same
//! debts. If the power goes off while it writes, between two writes or in the middle of one, it comes back with
//! what was written last, and carries on from there. The one exception are settings that are cut short while they
//! are stored: their segment has been erased by then, so the factory's take their place.
use vstd::prelude::*;

use crate::config::HOPPER_COUNT;
use crate::error::{self, Errors};
use crate::event::{Button, Event};
use crate::hopper::HopperError;
use crate::menu::{self, Item};
use crate::nvram::codec;
use crate::nvram::event_log::{self, EventLog, EVENT_LOG_AT, EVENT_LOG_ENTRIES, EVENT_RECORD};
use crate::nvram::flash::{NVRAM_LEN, SEGMENT};
use crate::nvram::journal::{self, Journal, RECORDS};
use crate::nvram::record::{self, RECORD};
use crate::nvram::ring;
use crate::nvram::stored::{self, SETTINGS_RECORD};
use crate::report;
use crate::state::{
    Accounting, AppState, Cash, Counters, EventKind, HopperSettings, Settings, COUNTERS_VERSION,
    SETTINGS_VERSION,
};
use crate::vending::world::{self, World};
use crate::vending::{Effect, Input, Machine, Place, Purpose, ReportKind, Stage};

verus! {

/// The region after what is to be done has been done.
pub open spec fn flash_after(out: Seq<Effect>, flash: Seq<u8>) -> Seq<u8>
    decreases out.len(),
{
    if out.len() == 0 {
        flash
    } else {
        let before = flash_after(out.drop_last(), flash);
        match out.last() {
            Effect::Save(save) => save.applied(before),
            Effect::Log(write) => write.applied(before),
            Effect::Store(settings) => stored::settings_applied(
                before,
                stored::settings_record(settings),
            ),
            _ => before,
        }
    }
}

/// The counters are the same, but perhaps for where serving the customer had got to.
pub open spec fn same_count(a: Counters, b: Counters) -> bool {
    b == (Counters { app_state: b.app_state, ..a })
}

/// The region is as this machine keeps it: its journal and its log carry on from what is there, and its
/// settings are the stored ones.
#[verifier::opaque]
pub open spec fn in_step(m: Machine, flash: Seq<u8>) -> bool {
    &&& flash.len() == NVRAM_LEN
    &&& m.journal.keeps(flash)
    &&& m.events.keeps(flash)
    &&& EventLog::opened(flash) == m.events
    &&& stored::settings_in(flash) == m.settings
    &&& m.settings.version == SETTINGS_VERSION
    &&& m.counters.version == COUNTERS_VERSION
}

/// Switching the machine on with this region gives back what it knows.
pub open spec fn remembered(m: Machine, flash: Seq<u8>) -> bool {
    &&& in_step(m, flash)
    &&& Journal::opened(flash).0 == m.journal
    &&& same_count(Journal::opened(flash).1, m.counters)
}

/// A machine that has been switched on with this region, before it does anything.
pub open spec fn restored(flash: Seq<u8>) -> Machine {
    Machine {
        settings: stored::settings_in(flash),
        counters: Journal::opened(flash).1,
        journal: Journal::opened(flash).0,
        events: EventLog::opened(flash),
        stage: Stage::Idle,
    }
}

/// The journal and the log of this region can be carried on by a machine that is switched on with it.
#[verifier::opaque]
pub open spec fn sound(flash: Seq<u8>) -> bool {
    &&& flash.len() == NVRAM_LEN
    &&& Journal::opened(flash).0.keeps(flash)
    &&& EventLog::opened(flash).keeps(flash)
}

/// What is to be done carries on from what this region holds.
pub open spec fn carries_on(e: Effect, flash: Seq<u8>) -> bool {
    match e {
        Effect::Save(save) => {
            &&& save == Journal::opened(flash).0.saving(save.counters)
            &&& save.counters.version == COUNTERS_VERSION
        },
        Effect::Log(write) => write == EventLog::opened(flash).recording(
            write.entry.kind,
            write.entry.value,
        ),
        Effect::Store(settings) => settings.version == SETTINGS_VERSION,
        _ => true,
    }
}

/// The counters that were written down last, if `before` were written down before anything was done.
pub open spec fn last_saved(out: Seq<Effect>, before: Counters) -> Counters
    decreases out.len(),
{
    if out.len() == 0 {
        before
    } else {
        match out.last() {
            Effect::Save(save) => save.counters,
            _ => last_saved(out.drop_last(), before),
        }
    }
}

/// The settings that were stored last, if `before` were stored before anything was done.
pub open spec fn last_stored(out: Seq<Effect>, before: Settings) -> Settings
    decreases out.len(),
{
    if out.len() == 0 {
        before
    } else {
        match out.last() {
            Effect::Store(settings) => settings,
            _ => last_stored(out.drop_last(), before),
        }
    }
}

/// If the power goes off after these things have been done, the region gives back the counters that were written
/// down last, and the settings that were stored last, and can be carried on. The last of them carried on from what
/// the others had left.
#[verifier::opaque]
pub open spec fn recovers(done: Seq<Effect>, flash: Seq<u8>) -> bool {
    let region = flash_after(done, flash);
    &&& Journal::opened(region).1 == last_saved(done, Journal::opened(flash).1)
    &&& stored::settings_in(region) == last_stored(done, stored::settings_in(flash))
    &&& sound(region)
    &&& done.len() > 0 ==> carries_on(done.last(), flash_after(done.drop_last(), flash))
}

/// Once what is to be done has been done, the region remembers what the machine knows; and however far it has been
/// done, the region gives back what was written last.
#[verifier::opaque]
pub open spec fn safe(w: World, flash: Seq<u8>) -> bool {
    &&& remembered(w.m, flash_after(w.out, flash))
    &&& forall|k: int| 0 <= k <= w.out.len() ==> recovers(#[trigger] w.out.take(k), flash)
}

/// The settings depend on their own segment alone.
proof fn lemma_settings_local(a: Seq<u8>, b: Seq<u8>)
    requires
        a.len() == NVRAM_LEN,
        b.len() == NVRAM_LEN,
        forall|i: int| 0 <= i < SEGMENT ==> #[trigger] a[i] == b[i],
    ensures
        stored::settings_in(a) == stored::settings_in(b),
{
    assert(a.take(168) =~= b.take(168));
    assert(a.take(110) =~= b.take(110));
    assert(a[110] == b[110] && a[111] == b[111]);
    if stored::settings_in(a) != Settings::factory() || stored::settings_in(b) != Settings::factory() {
        lemma_settings_at_local(a, b);
    }
}

/// So does the fault that reading them finds.
proof fn lemma_settings_fault_local(a: Seq<u8>, b: Seq<u8>)
    requires
        a.len() == NVRAM_LEN,
        b.len() == NVRAM_LEN,
        forall|i: int| 0 <= i < SEGMENT ==> #[trigger] a[i] == b[i],
    ensures
        stored::settings_fault(a) == stored::settings_fault(b),
{
    assert(a.take(168) =~= b.take(168));
    assert(a.take(110) =~= b.take(110));
    assert(a[110] == b[110] && a[111] == b[111]);
}

/// What a record spells depends on its bytes alone.
proof fn lemma_settings_at_local(a: Seq<u8>, b: Seq<u8>)
    requires
        forall|i: int| 0 <= i < SEGMENT ==> #[trigger] a[i] == b[i],
    ensures
        stored::settings_at(a) == stored::settings_at(b),
{
    assert(forall|at: int| 0 <= at < 500 ==> #[trigger] codec::u16_at(a, at) == codec::u16_at(b, at));
    assert(forall|at: int| 0 <= at < 500 ==> #[trigger] codec::u32_at(a, at) == codec::u32_at(b, at));
    assert(stored::values_at(a, 8) =~= stored::values_at(b, 8));
    assert(stored::hopper_at(a, 33) == stored::hopper_at(b, 33));
    assert(stored::hopper_at(a, 44) == stored::hopper_at(b, 44));
    assert forall|at: int| 0 <= at < 500 implies #[trigger] stored::key_at(a, at) == stored::key_at(
        b,
        at,
    ) by {
        assert(stored::key_at(a, at).0 =~= stored::key_at(b, at).0);
    }
    let ka = stored::keys_at(a, 55);
    let kb = stored::keys_at(b, 55);
    assert(ka@[0] =~= kb@[0]);
    assert(ka@[1] =~= kb@[1]);
    assert(ka@[2] =~= kb@[2]);
    assert(ka =~= kb);
    assert(stored::settings_at(a).coin_hoppers =~= stored::settings_at(b).coin_hoppers);
}

/// The journal depends on its own segments alone.
proof fn lemma_journal_local(journal: Journal, a: Seq<u8>, b: Seq<u8>)
    requires
        a.len() == NVRAM_LEN,
        b.len() == NVRAM_LEN,
        forall|i: int| SEGMENT <= i < EVENT_LOG_AT ==> #[trigger] a[i] == b[i],
        journal.keeps(a),
    ensures
        Journal::opened(a) == Journal::opened(b),
        journal.keeps(b),
{
    assert forall|slot: int| 0 <= slot < RECORDS implies #[trigger] journal::slot_bytes(a, slot)
        == journal::slot_bytes(b, slot) by {
        assert(journal::slot_bytes(a, slot) =~= journal::slot_bytes(b, slot));
    }
    assert(journal::journal_seqs(a) =~= journal::journal_seqs(b)) by {
        assert forall|slot: int| 0 <= slot < RECORDS implies journal::journal_seqs(a)[slot]
            == journal::journal_seqs(b)[slot] by {
            assert(journal::slot_bytes(a, slot) == journal::slot_bytes(b, slot));
        }
    }
    assert(journal::written_slots(a) =~= journal::written_slots(b)) by {
        assert forall|slot: int| 0 <= slot < RECORDS implies journal::written_slots(a)[slot]
            == journal::written_slots(b)[slot] by {
            assert(journal::slot_bytes(a, slot) == journal::slot_bytes(b, slot));
        }
    }
    ring::lemma_newest_holds(journal::journal_seqs(a));
    if let Some(slot) = ring::newest(journal::journal_seqs(a)) {
        assert(journal::slot_bytes(a, slot) == journal::slot_bytes(b, slot));
    }
    assert forall|slot: int|
        journal.slot < slot < RECORDS && slot / journal::RECORDS_PER_SEGMENT as int == journal.slot
            / journal::RECORDS_PER_SEGMENT implies codec::blank(
        #[trigger] journal::slot_bytes(b, slot),
    ) by {
        assert(codec::blank(journal::slot_bytes(a, slot)));
    }
}

/// The event log depends on its own segment alone.
proof fn lemma_log_local(log: EventLog, a: Seq<u8>, b: Seq<u8>)
    requires
        a.len() == NVRAM_LEN,
        b.len() == NVRAM_LEN,
        forall|i: int| EVENT_LOG_AT <= i < NVRAM_LEN ==> #[trigger] a[i] == b[i],
        log.keeps(a),
    ensures
        EventLog::opened(a) == EventLog::opened(b),
        log.keeps(b),
{
    assert forall|slot: int| 0 <= slot < EVENT_LOG_ENTRIES implies #[trigger] event_log::event_bytes(
        a,
        slot,
    ) == event_log::event_bytes(b, slot) by {
        assert(event_log::event_bytes(a, slot) =~= event_log::event_bytes(b, slot));
    }
    assert(event_log::log_seqs(a) =~= event_log::log_seqs(b)) by {
        assert forall|slot: int| 0 <= slot < EVENT_LOG_ENTRIES implies event_log::log_seqs(a)[slot]
            == event_log::log_seqs(b)[slot] by {
            assert(event_log::event_bytes(a, slot) == event_log::event_bytes(b, slot));
        }
    }
    assert(event_log::written_entries(a) =~= event_log::written_entries(b)) by {
        assert forall|slot: int| 0 <= slot < EVENT_LOG_ENTRIES implies event_log::written_entries(a)[slot]
            == event_log::written_entries(b)[slot] by {
            assert(event_log::event_bytes(a, slot) == event_log::event_bytes(b, slot));
        }
    }
    ring::lemma_newest_holds(event_log::log_seqs(a));
    if let Some(slot) = ring::newest(event_log::log_seqs(a)) {
        assert(event_log::event_bytes(a, slot) == event_log::event_bytes(b, slot));
    }
    assert forall|slot: int| log.slot < slot < EVENT_LOG_ENTRIES implies codec::blank(
        #[trigger] event_log::event_bytes(b, slot),
    ) by {
        assert(codec::blank(event_log::event_bytes(a, slot)));
    }
}

/// Writing the counters down makes the region remember them, and disturbs nothing else.
proof fn lemma_save(m: Machine, flash: Seq<u8>)
    requires
        in_step(m, flash),
    ensures
        ({
            let after = m.journal.saving(m.counters).applied(flash);
            let m1 = Machine { journal: m.journal.advanced(), ..m };
            in_step(m1, after) && Journal::opened(after) == (m1.journal, m.counters)
        }),
{
    reveal(in_step);
    let save = m.journal.saving(m.counters);
    let after = save.applied(flash);
    let m1 = Machine { journal: m.journal.advanced(), ..m };
    journal::law_open_returns_last_save(m.journal, m.counters, flash);
    assert forall|i: int| 0 <= i < SEGMENT implies #[trigger] after[i] == flash[i] by {
        journal::law_save_keeps_out_of_other_segments(save, flash, 0, i);
    }
    assert forall|i: int| EVENT_LOG_AT <= i < NVRAM_LEN implies #[trigger] after[i] == flash[i] by {
        journal::law_save_keeps_out_of_other_segments(save, flash, 0, i);
    }
    lemma_settings_local(after, flash);
    lemma_log_local(m.events, flash, after);
}

/// Remembering an event disturbs neither the counters nor the settings.
proof fn lemma_log(m: Machine, kind: EventKind, value: u32, flash: Seq<u8>)
    requires
        in_step(m, flash),
    ensures
        ({
            let after = m.events.recording(kind, value).applied(flash);
            let m1 = Machine { events: m.events.advanced(), ..m };
            in_step(m1, after) && Journal::opened(after) == Journal::opened(flash)
        }),
{
    reveal(in_step);
    let write = m.events.recording(kind, value);
    let after = write.applied(flash);
    event_log::law_log_continues(m.events, kind, value, flash);
    assert forall|i: int| 0 <= i < EVENT_LOG_AT implies #[trigger] after[i] == flash[i] by {
        event_log::law_log_keeps_to_its_segment(write, flash, 0, i);
    }
    lemma_settings_local(after, flash);
    lemma_journal_local(m.journal, flash, after);
}

/// Storing the settings disturbs neither the counters nor the log.
proof fn lemma_store(m: Machine, settings: Settings, flash: Seq<u8>)
    requires
        in_step(m, flash),
        settings.version == SETTINGS_VERSION,
    ensures
        ({
            let after = stored::settings_applied(flash, stored::settings_record(settings));
            let m1 = Machine { settings, ..m };
            in_step(m1, after) && Journal::opened(after) == Journal::opened(flash)
        }),
{
    reveal(in_step);
    let after = stored::settings_applied(flash, stored::settings_record(settings));
    stored::law_settings_round_trip(settings, flash);
    assert forall|i: int| SEGMENT <= i < NVRAM_LEN implies #[trigger] after[i] == flash[i] by {
        stored::law_settings_keep_to_their_segment(settings, flash, 0, i);
    }
    lemma_journal_local(m.journal, flash, after);
    lemma_log_local(m.events, flash, after);
}

/// What one more thing to do does to the region.
proof fn lemma_doing(w: World, e: Effect, flash: Seq<u8>)
    ensures
        flash_after(w.doing(e).out, flash) == (match e {
            Effect::Save(save) => save.applied(flash_after(w.out, flash)),
            Effect::Log(write) => write.applied(flash_after(w.out, flash)),
            Effect::Store(settings) => stored::settings_applied(
                flash_after(w.out, flash),
                stored::settings_record(settings),
            ),
            _ => flash_after(w.out, flash),
        }),
{
    assert(w.out.push(e).drop_last() =~= w.out);
}

/// A region that a machine remembers by can be carried on.
proof fn lemma_remembered_is_sound(m: Machine, flash: Seq<u8>)
    requires
        remembered(m, flash),
    ensures
        sound(flash),
{
    reveal(in_step);
    reveal(sound);
}

/// Before anything is done, a machine whose region remembers what it knows is safe.
proof fn lemma_start(w: World, flash: Seq<u8>)
    requires
        w.out.len() == 0,
        remembered(w.m, flash),
    ensures
        safe(w, flash),
{
    reveal(safe);
    reveal(recovers);
    lemma_remembered_is_sound(w.m, flash);
    assert forall|k: int| 0 <= k <= w.out.len() implies recovers(#[trigger] w.out.take(k), flash) by {
        assert(w.out.take(k) =~= w.out);
    }
}

/// One more thing to do is as safe as what it leaves on flash.
proof fn lemma_one_more(w: World, v: World, e: Effect, flash: Seq<u8>)
    requires
        safe(w, flash),
        v.out == w.out.push(e),
        remembered(v.m, flash_after(v.out, flash)),
        carries_on(e, flash_after(w.out, flash)),
        ({
            let before = flash_after(w.out, flash);
            let after = flash_after(v.out, flash);
            &&& Journal::opened(after).1 == (match e {
                Effect::Save(save) => save.counters,
                _ => Journal::opened(before).1,
            })
            &&& stored::settings_in(after) == (match e {
                Effect::Store(settings) => settings,
                _ => stored::settings_in(before),
            })
        }),
    ensures
        safe(v, flash),
{
    reveal(safe);
    let out = w.out;
    assert(out.take(out.len() as int) =~= out);
    assert(recovers(out, flash));
    lemma_remembered_is_sound(v.m, flash_after(v.out, flash));
    assert(recovers(v.out, flash)) by {
        reveal(recovers);
        assert(v.out.drop_last() =~= out);
    }
    assert forall|k: int| 0 <= k <= v.out.len() implies recovers(#[trigger] v.out.take(k), flash) by {
        if k <= out.len() {
            assert(v.out.take(k) =~= out.take(k));
        } else {
            assert(v.out.take(k) =~= v.out);
        }
    }
}

/// A machine in step with its region has settings and counters of the versions it writes, and goes on with the log
/// that is there.
proof fn lemma_in_step_version(m: Machine, flash: Seq<u8>)
    requires
        in_step(m, flash),
    ensures
        m.settings.version == SETTINGS_VERSION,
        m.counters.version == COUNTERS_VERSION,
        EventLog::opened(flash) == m.events,
{
    reveal(in_step);
}

/// What is known of a machine that is safe.
proof fn lemma_known(w: World, flash: Seq<u8>)
    requires
        safe(w, flash),
    ensures
        remembered(w.m, flash_after(w.out, flash)),
{
    reveal(safe);
}

/// What is not on flash does not matter to it.
proof fn lemma_in_step(m: Machine, v: Machine, flash: Seq<u8>)
    requires
        in_step(m, flash),
        v.settings == m.settings,
        v.journal == m.journal,
        v.events == m.events,
        v.counters.version == m.counters.version,
    ensures
        in_step(v, flash),
        stored::settings_in(flash) == m.settings,
{
    reveal(in_step);
}

/// Changing nothing that is on flash is safe.
proof fn lemma_beside(w: World, v: World, flash: Seq<u8>)
    requires
        safe(w, flash),
        v.out == w.out,
        v.m.settings == w.m.settings,
        v.m.journal == w.m.journal,
        v.m.events == w.m.events,
        same_count(w.m.counters, v.m.counters),
    ensures
        safe(v, flash),
{
    reveal(safe);
    lemma_in_step(w.m, v.m, flash_after(w.out, flash));
}

/// Counting and then writing down is safe.
proof fn lemma_counted(w: World, c: Counters, flash: Seq<u8>)
    requires
        safe(w, flash),
        c.version == w.m.counters.version,
    ensures
        safe(w.counting(c).persisted(), flash),
{
    lemma_known(w, flash);
    let m = w.counting(c).m;
    let e = Effect::Save(m.journal.saving(c));
    let region = flash_after(w.out, flash);
    let v = w.counting(c).persisted();
    lemma_in_step_version(w.m, region);
    lemma_in_step(w.m, m, region);
    lemma_save(m, region);
    lemma_doing(w, e, flash);
    lemma_in_step(v.m, v.m, flash_after(v.out, flash));
    lemma_one_more(w, v, e, flash);
}

/// Writing down is safe.
proof fn lemma_persisted(w: World, flash: Seq<u8>)
    requires
        safe(w, flash),
    ensures
        safe(w.persisted(), flash),
{
    lemma_counted(w, w.m.counters, flash);
    assert(w.counting(w.m.counters) == w);
}

/// Remembering an event is safe.
proof fn lemma_logged(w: World, kind: EventKind, value: u32, flash: Seq<u8>)
    requires
        safe(w, flash),
    ensures
        safe(w.logged(kind, value), flash),
{
    lemma_known(w, flash);
    let e = Effect::Log(w.m.events.recording(kind, value));
    let region = flash_after(w.out, flash);
    let v = w.logged(kind, value);
    lemma_in_step_version(w.m, region);
    lemma_log(w.m, kind, value, region);
    lemma_doing(w, e, flash);
    lemma_in_step(w.m, w.m, region);
    lemma_in_step(v.m, v.m, flash_after(v.out, flash));
    lemma_one_more(w, v, e, flash);
}

/// Showing something is safe.
proof fn lemma_shown(w: World, e: Effect, flash: Seq<u8>)
    requires
        safe(w, flash),
        e is Show || e is ShowStage || e is Inhibit,
    ensures
        safe(w.doing(e), flash),
{
    lemma_known(w, flash);
    lemma_doing(w, e, flash);
    lemma_one_more(w, w.doing(e), e, flash);
}

/// Changing the settings and storing them is safe.
proof fn lemma_stored(w: World, settings: Settings, flash: Seq<u8>)
    requires
        safe(w, flash),
        settings.version == w.m.settings.version,
    ensures
        safe(
            World { m: Machine { settings, ..w.m }, ..w }.doing(Effect::Store(settings)),
            flash,
        ),
{
    lemma_known(w, flash);
    let e = Effect::Store(settings);
    let region = flash_after(w.out, flash);
    let v = World { m: Machine { settings, ..w.m }, ..w }.doing(e);
    lemma_in_step_version(w.m, region);
    lemma_store(w.m, settings, region);
    lemma_doing(World { m: Machine { settings, ..w.m }, ..w }, e, flash);
    lemma_in_step(v.m, v.m, flash_after(v.out, flash));
    lemma_one_more(w, v, e, flash);
}

/// Raising a fault is safe.
proof fn lemma_raised(w: World, mask: u32, flash: Seq<u8>)
    requires
        safe(w, flash),
    ensures
        safe(w.raised(mask), flash),
{
    let w1 = World { faults: w.faults.with(mask), ..w };
    lemma_beside(w, w1, flash);
    lemma_logged(w1, EventKind::ErrorRaised, mask, flash);
}

/// Turning to waiting is safe.
proof fn lemma_finished(w: World, flash: Seq<u8>)
    requires
        safe(w, flash),
    ensures
        safe(w.finished(), flash),
{
    reveal(World::finished);
    lemma_counted(w, Counters { app_state: AppState::AcceptCash, ..w.m.counters }, flash);
    let w1 = w.serving(AppState::AcceptCash).persisted();
    lemma_shown(w1, Effect::Show(w1.situation()), flash);
    lemma_beside(w1.refreshed(), w.finished(), flash);
}

/// Thanking is safe.
proof fn lemma_change_taken(w: World, flash: Seq<u8>)
    requires
        safe(w, flash),
    ensures
        safe(w.change_taken(), flash),
{
    reveal(World::change_taken);
    if w.m.counters.cash == 0 {
        let thanks = Effect::Show(crate::ui::Screen::Thanks);
        lemma_shown(w, thanks, flash);
        lemma_beside(w.doing(thanks), w.change_taken(), flash);
    } else {
        lemma_finished(w, flash);
    }
}

/// Showing what has been paid is safe.
proof fn lemma_change_paid(w: World, owed: Cash, flash: Seq<u8>)
    requires
        safe(w, flash),
    ensures
        safe(w.change_paid(owed), flash),
{
    reveal(World::change_paid);
    if owed > 0 {
        let message = Effect::Show(
            crate::ui::Screen::TakeChange { amount: owed, currency: w.m.settings.currency },
        );
        lemma_shown(w, message, flash);
        lemma_beside(w.doing(message), w.change_paid(owed), flash);
    } else {
        lemma_change_taken(w, flash);
    }
}

/// Turning to the next hopper is safe.
proof fn lemma_paying(w: World, low: Seq<bool>, i: int, owed: Cash, flash: Seq<u8>)
    requires
        safe(w, flash),
    ensures
        safe(w.paying(low, i, owed), flash),
{
    reveal(World::paying);
    match world::next_debt(w.m.counters, i) {
        Some(h) => {
            world::lemma_passed(w, low, i, h);
            lemma_beside(w, w.paying(low, i, owed), flash);
        },
        None => {
            world::lemma_passed(w, low, i, HOPPER_COUNT as int);
            lemma_beside(w, w.passed(low, i, HOPPER_COUNT as int), flash);
            lemma_change_paid(w.passed(low, i, HOPPER_COUNT as int), owed, flash);
        },
    }
}

/// Turning what is left into change is safe.
proof fn lemma_residual(w: World, low: Seq<bool>, flash: Seq<u8>)
    requires
        safe(w, flash),
    ensures
        safe(w.residual(low), flash),
{
    reveal(World::residual);
    if w.m.counters.cash == 0 {
        lemma_finished(w, flash);
    } else {
        let s = w.m.settings;
        let c = w.m.counters;
        lemma_counted(w, world::change_planned(s, c), flash);
        let w0 = w.counting(world::change_planned(s, c)).persisted();
        let w1 = w0.flagged(error::CANNOT_PAYOUT, world::change_short(s, c) > 0);
        lemma_beside(w0, w1, flash);
        lemma_paying(w1, low, 0, world::change_owed(s, c), flash);
    }
}

/// Going on after the debts is safe.
proof fn lemma_resumed(w: World, low: Seq<bool>, flash: Seq<u8>)
    requires
        safe(w, flash),
    ensures
        safe(w.resumed(low), flash),
{
    reveal(World::resumed);
    if w.m.counters.cash > 0 {
        lemma_residual(w, low, flash);
    } else {
        lemma_shown(w, Effect::Show(w.situation()), flash);
        lemma_beside(w.refreshed(), w.resumed(low), flash);
    }
}

/// Turning to the next hopper is safe.
proof fn lemma_repaying(w: World, low: Seq<bool>, i: int, flash: Seq<u8>)
    requires
        safe(w, flash),
    ensures
        safe(w.repaying(low, i), flash),
{
    reveal(World::repaying);
    match world::next_debt(w.m.counters, i) {
        Some(h) => {
            world::lemma_passed(w, low, i, h);
            lemma_beside(w, w.repaying(low, i), flash);
        },
        None => {
            world::lemma_passed(w, low, i, HOPPER_COUNT as int);
            lemma_beside(w, w.passed(low, i, HOPPER_COUNT as int), flash);
            lemma_resumed(w.passed(low, i, HOPPER_COUNT as int), low, flash);
        },
    }
}

/// Turning to something else and showing it is safe.
proof fn lemma_stage_shown(w: World, stage: Stage, flash: Seq<u8>)
    requires
        safe(w, flash),
    ensures
        safe(w.at(stage).doing(Effect::ShowStage), flash),
{
    lemma_beside(w, w.at(stage), flash);
    lemma_shown(w.at(stage), Effect::ShowStage, flash);
}

/// Leaving the menu is safe.
proof fn lemma_left_menu(w: World, flash: Seq<u8>)
    requires
        safe(w, flash),
    ensures
        safe(w.left_menu(), flash),
{
    reveal(World::left_menu);
    lemma_logged(w, EventKind::ServiceExited, 0, flash);
    let w1 = w.logged(EventKind::ServiceExited, 0);
    lemma_shown(w1, Effect::Inhibit(false), flash);
    let w2 = w1.doing(Effect::Inhibit(false));
    lemma_shown(w2, Effect::Show(w2.situation()), flash);
    lemma_beside(w2.refreshed(), w.left_menu(), flash);
}

/// Showing the menu is safe.
proof fn lemma_listed(w: World, place: Place, flash: Seq<u8>)
    requires
        safe(w, flash),
    ensures
        safe(w.listed(place), flash),
{
    reveal(World::listed);
    if menu::visible(place.access).len() == 0 {
        lemma_left_menu(w, flash);
    } else {
        lemma_stage_shown(w, w.listed(place).m.stage, flash);
    }
}

/// Going on after covers have been dispensed is safe.
proof fn lemma_items_paid(w: World, purpose: Purpose, low: Seq<bool>, flash: Seq<u8>)
    requires
        safe(w, flash),
    ensures
        safe(w.items_paid(purpose, low), flash),
{
    reveal(World::items_paid);
    match purpose {
        Purpose::Resume => lemma_repaying(w, low, 0, flash),
        Purpose::Sale => lemma_residual(w, low, flash),
        Purpose::Free(place) => {
            lemma_shown(w, Effect::Show(w.situation()), flash);
            lemma_listed(w.refreshed(), place, flash);
        },
    }
}

/// Asking the dispenser for the next pair is safe.
proof fn lemma_dispensing(w: World, purpose: Purpose, low: Seq<bool>, flash: Seq<u8>)
    requires
        safe(w, flash),
    ensures
        safe(w.dispensing(purpose, low), flash),
{
    reveal(World::dispensing);
    if world::owes_items(w.m.counters) {
        let message = Effect::Show(crate::ui::Screen::Dispensing);
        lemma_shown(w, message, flash);
        lemma_beside(w.doing(message), w.dispensing(purpose, low), flash);
    } else {
        lemma_counted(
            w,
            Counters { app_state: AppState::ProcessResidual, ..w.m.counters },
            flash,
        );
        lemma_items_paid(w.serving(AppState::ProcessResidual).persisted(), purpose, low, flash);
    }
}

/// Acting on the dispenser's answer is safe.
proof fn lemma_item_answered(
    w: World,
    purpose: Purpose,
    count: u16,
    failure: Option<HopperError>,
    low: Seq<bool>,
    flash: Seq<u8>,
)
    requires
        safe(w, flash),
    ensures
        safe(w.item_answered(purpose, count, failure, low), flash),
{
    reveal(World::item_answered);
    let counted = if count > 0 {
        w.pair_counted()
    } else {
        w
    };
    if count > 0 {
        reveal(World::pair_counted);
        lemma_counted(w, world::pair_out(w.m.counters), flash);
        lemma_logged(
            w.counting(world::pair_out(w.m.counters)).persisted(),
            EventKind::ItemDispensed,
            if world::next_is_free(w.m.counters) {
                0
            } else {
                1
            },
            flash,
        );
    }
    if failure is Some {
        reveal(World::item_failed);
        lemma_raised(counted, error::ITEM_DISPENSER, flash);
        lemma_persisted(counted.raised(error::ITEM_DISPENSER), flash);
        lemma_items_paid(
            counted.raised(error::ITEM_DISPENSER).persisted(),
            purpose,
            low,
            flash,
        );
    } else {
        reveal(World::item_came);
        let w1 = counted.flagged(
            error::ITEM_DISPENSER_EMPTY,
            counted.m.counters.item_level <= counted.m.settings.item_dispenser.min_level,
        );
        lemma_beside(counted, w1, flash);
        lemma_dispensing(w1, purpose, low, flash);
    }
}

/// Acting on a hopper's answer is safe.
proof fn lemma_coin_answered(
    w: World,
    hopper: int,
    owed: Option<Cash>,
    count: u16,
    failure: Option<HopperError>,
    low: Seq<bool>,
    flash: Seq<u8>,
)
    requires
        safe(w, flash),
    ensures
        safe(w.coin_answered(hopper, owed, count, failure, low), flash),
{
    reveal(World::coin_answered);
    let counted = if count > 0 {
        w.coin_counted(hopper)
    } else {
        w
    };
    if count > 0 {
        reveal(World::coin_counted);
        let c = world::coin_out(
            w.m.counters,
            hopper,
            w.m.settings.coin_hoppers@[hopper].unit_value,
        );
        lemma_counted(w, c, flash);
        lemma_logged(w.counting(c).persisted(), EventKind::HopperPayout, hopper as u32, flash);
    }
    if failure is Some {
        reveal(World::coin_failed);
        lemma_raised(counted, error::COIN_HOPPER, flash);
        lemma_persisted(counted.raised(error::COIN_HOPPER), flash);
        let stopped = counted.raised(error::COIN_HOPPER).persisted();
        match owed {
            Some(owed) => lemma_change_paid(stopped, owed, flash),
            None => lemma_resumed(stopped, low, flash),
        }
    } else {
        match owed {
            Some(owed) => lemma_paying(counted, low, hopper, owed, flash),
            None => lemma_repaying(counted, low, hopper, flash),
        }
    }
}

/// A sale is safe.
proof fn lemma_sold(w: World, low: Seq<bool>, flash: Seq<u8>)
    requires
        safe(w, flash),
    ensures
        safe(w.sold(low), flash),
{
    reveal(World::sold);
    if !(w.m.counters.cash < w.price() || w.faults.has(error::FATAL)) {
        let c = world::pair_bought(w.m.counters, w.price());
        lemma_counted(w, c, flash);
        lemma_dispensing(w.counting(c).persisted(), Purpose::Sale, low, flash);
    }
}

/// Serving customers is safe.
proof fn lemma_served(w: World, event: Event, low: Seq<bool>, flash: Seq<u8>)
    requires
        safe(w, flash),
    ensures
        safe(w.served(event, low), flash),
{
    reveal(World::served);
    lemma_shown(w, Effect::Show(w.situation()), flash);
    match event {
        Event::Coin { value, .. } => {
            reveal(World::accepted);
            let c = world::coin_taken(w.m.counters, value);
            lemma_counted(w, c, flash);
            let w1 = w.counting(c).persisted();
            lemma_logged(w1, EventKind::Coin, value, flash);
            let w2 = w1.logged(EventKind::Coin, value);
            lemma_shown(w2, Effect::Show(w2.situation()), flash);
            lemma_sold(w2.refreshed(), low, flash);
        },
        Event::Button(Button::Accept) => lemma_sold(w, low, flash),
        Event::Button(Button::Cancel) => lemma_residual(w, low, flash),
        Event::Button(_) => {},
        Event::Door { .. } => {},
        Event::Key(key) => {
            reveal(World::keyed);
            lemma_stage_shown(w, Stage::UnknownKey, flash);
            if let Some(access) = menu::access_of(key, w.m.settings) {
                lemma_shown(w, Effect::Inhibit(true), flash);
                let w1 = w.doing(Effect::Inhibit(true));
                lemma_logged(w1, EventKind::ServiceEntered, access.level() as u32, flash);
                lemma_listed(
                    w1.logged(EventKind::ServiceEntered, access.level() as u32),
                    Place { access, cursor: 0 },
                    flash,
                );
            }
        },
    }
}

/// Opening a report is safe.
proof fn lemma_reading(w: World, place: Place, kind: ReportKind, lines: nat, flash: Seq<u8>)
    requires
        safe(w, flash),
    ensures
        safe(w.reading(place, kind, lines), flash),
{
    reveal(World::reading);
    lemma_listed(w, place, flash);
    lemma_stage_shown(w, Stage::Report { place, kind, at: 0, lines: lines as usize }, flash);
}

/// Editing a number is safe.
proof fn lemma_editing(w: World, place: Place, item: Item, flash: Seq<u8>)
    requires
        safe(w, flash),
    ensures
        safe(w.editing(place, item), flash),
{
    reveal(World::editing);
    lemma_stage_shown(
        w,
        Stage::Edit { place, item, value: item.edit_start(w.m.settings, w.m.counters) },
        flash,
    );
}

/// Choosing an item is safe.
proof fn lemma_chosen(
    w: World,
    place: Place,
    item: Item,
    low: Seq<bool>,
    log_lines: nat,
    flash: Seq<u8>,
)
    requires
        safe(w, flash),
    ensures
        safe(w.chosen(place, item, low, log_lines), flash),
{
    reveal(World::chosen);
    match item {
        Item::Accounting => lemma_reading(
            w,
            place,
            ReportKind::Accounting,
            menu::lines(report::accounting_report(w.m.counters, w.m.settings)).len(),
            flash,
        ),
        Item::State => lemma_reading(
            w,
            place,
            ReportKind::State(w.faults),
            menu::lines(report::state_report(w.m.counters, w.m.settings, w.faults)).len(),
            flash,
        ),
        Item::EventLog => lemma_reading(w, place, ReportKind::Events, log_lines, flash),
        Item::RefillHopper(i) => {
            lemma_editing(w, place, item, flash);
            lemma_listed(w, place, flash);
        },
        Item::FreeItem => {
            reveal(World::given);
            let c = world::pair_given(w.m.counters);
            lemma_counted(w, c, flash);
            lemma_dispensing(w.counting(c).persisted(), Purpose::Free(place), low, flash);
        },
        Item::ClearPeriod => {
            let c = Counters { period: Accounting::zero(), ..w.m.counters };
            lemma_counted(w, c, flash);
            lemma_listed(w.counting(c).persisted(), place, flash);
        },
        Item::Keys => lemma_stage_shown(w, Stage::Keys { place, slot: 0 }, flash),
        _ => lemma_editing(w, place, item, flash),
    }
}

/// Taking over a number that was edited is safe.
proof fn lemma_edited(w: World, item: Item, value: u32, flash: Seq<u8>)
    requires
        safe(w, flash),
    ensures
        safe(w.edited(item, value), flash),
{
    reveal(World::edited);
    let max = item.edit_max(w.m.settings);
    let clamped = if value <= max {
        value
    } else {
        max
    };
    match item {
        Item::RefillItems => {
            let c = Counters { item_level: clamped as u16, ..w.m.counters };
            lemma_counted(w, c, flash);
            lemma_beside(w.counting(c).persisted(), w.edited(item, value), flash);
        },
        Item::RefillHopper(i) => {
            let c = Counters {
                coin_levels: vstd::array::spec_array_update(
                    w.m.counters.coin_levels,
                    i as int,
                    clamped as u16,
                ),
                ..w.m.counters
            };
            lemma_counted(w, c, flash);
            lemma_beside(w.counting(c).persisted(), w.edited(item, value), flash);
        },
        _ => {
            let item_dispenser = HopperSettings { unit_value: value, ..w.m.settings.item_dispenser };
            lemma_stored(w, Settings { item_dispenser, ..w.m.settings }, flash);
        },
    }
}

/// Filling or clearing a slot of the key table is safe.
proof fn lemma_enrolled(w: World, slot: u8, key: crate::state::IbuttonKey, flash: Seq<u8>)
    requires
        safe(w, flash),
    ensures
        safe(w.enrolled(slot, key), flash),
{
    reveal(World::enrolled);
    let settings = w.enrolled(slot, key).m.settings;
    lemma_stored(w, settings, flash);
    lemma_shown(
        World { m: Machine { settings, ..w.m }, ..w }.doing(Effect::Store(settings)),
        Effect::ShowStage,
        flash,
    );
}

/// A button while the menu is listed is safe.
proof fn lemma_menu_pressed(
    w: World,
    place: Place,
    button: Option<Button>,
    low: Seq<bool>,
    log_lines: nat,
    flash: Seq<u8>,
)
    requires
        safe(w, flash),
    ensures
        safe(w.menu_pressed(place, button, low, log_lines), flash),
{
    reveal(World::menu_pressed);
    let items = menu::visible(place.access);
    match button {
        None => lemma_left_menu(w, flash),
        Some(Button::Cancel) => lemma_left_menu(w, flash),
        Some(Button::Next) => lemma_listed(
            w,
            Place { cursor: ((place.cursor + 1) % items.len() as int) as usize, ..place },
            flash,
        ),
        Some(Button::Prev) => lemma_listed(
            w,
            Place {
                cursor: if place.cursor == 0 {
                    (items.len() - 1) as usize
                } else {
                    (place.cursor - 1) as usize
                },
                ..place
            },
            flash,
        ),
        Some(Button::Accept) => lemma_chosen(
            w,
            place,
            Item::all()[items[place.cursor as int] as int],
            low,
            log_lines,
            flash,
        ),
    }
}

/// A button while a number is edited is safe.
proof fn lemma_edit_pressed(
    w: World,
    place: Place,
    item: Item,
    value: u32,
    button: Option<Button>,
    flash: Seq<u8>,
)
    requires
        safe(w, flash),
    ensures
        safe(w.edit_pressed(place, item, value, button), flash),
{
    reveal(World::edit_pressed);
    match button {
        Some(Button::Next) => lemma_stage_shown(
            w,
            w.edit_pressed(place, item, value, button).m.stage,
            flash,
        ),
        Some(Button::Prev) => lemma_stage_shown(
            w,
            w.edit_pressed(place, item, value, button).m.stage,
            flash,
        ),
        Some(Button::Accept) => {
            lemma_edited(w, item, value, flash);
            lemma_listed(w.edited(item, value), place, flash);
        },
        _ => lemma_listed(w, place, flash),
    }
}

/// A button while the key table is looked through is safe.
proof fn lemma_keys_pressed(w: World, place: Place, slot: u8, button: Option<Button>, flash: Seq<u8>)
    requires
        safe(w, flash),
    ensures
        safe(w.keys_pressed(place, slot, button), flash),
{
    reveal(World::keys_pressed);
    match button {
        Some(Button::Cancel) => lemma_enrolled(w, slot, crate::state::no_key(), flash),
        Some(Button::Next) => lemma_stage_shown(w, w.keys_pressed(place, slot, button).m.stage, flash),
        Some(Button::Prev) => lemma_stage_shown(w, w.keys_pressed(place, slot, button).m.stage, flash),
        _ => lemma_listed(w, place, flash),
    }
}

/// A button in the menu is safe.
proof fn lemma_pressed(
    w: World,
    button: Option<Button>,
    low: Seq<bool>,
    log_lines: nat,
    flash: Seq<u8>,
)
    requires
        safe(w, flash),
    ensures
        safe(w.pressed(button, low, log_lines), flash),
{
    reveal(World::pressed);
    match w.m.stage {
        Stage::Menu(place) => lemma_menu_pressed(w, place, button, low, log_lines, flash),
        Stage::Edit { place, item, value } => lemma_edit_pressed(w, place, item, value, button, flash),
        Stage::Report { place, kind, at, lines } => {
            reveal(World::report_pressed);
            lemma_listed(w, place, flash);
            lemma_stage_shown(w, Stage::Report { place, kind, at: (at + 2) as usize, lines }, flash);
        },
        Stage::Keys { place, slot } => lemma_keys_pressed(w, place, slot, button, flash),
        _ => {},
    }
}

/// Every step is safe.
proof fn lemma_stepped(w: World, input: Input, low: Seq<bool>, log_lines: nat, flash: Seq<u8>)
    requires
        safe(w, flash),
    ensures
        safe(w.stepped(input, low, log_lines), flash),
{
    reveal(World::stepped);
    match input {
        Input::Happened(event) => {
            reveal(World::handled);
            if w.m.stage is Idle {
                lemma_served(w, event, low, flash);
            } else {
                match event {
                    Event::Button(b) => lemma_pressed(w, Some(b), low, log_lines, flash),
                    Event::Key(key) => match w.m.stage {
                        Stage::Keys { slot, .. } => lemma_enrolled(w, slot, key, flash),
                        _ => {},
                    },
                    _ => {},
                }
            }
        },
        Input::Elapsed => {
            reveal(World::elapsed);
            match w.m.stage {
                Stage::Idle => if w.m.counters.cash > 0 {
                    lemma_residual(w, low, flash)
                },
                Stage::TakeChange => lemma_change_taken(w, flash),
                Stage::Thanks => lemma_finished(w, flash),
                Stage::UnknownKey => {
                    lemma_shown(w, Effect::Show(w.situation()), flash);
                    lemma_beside(w.refreshed(), w.elapsed(low, log_lines), flash);
                },
                _ => lemma_pressed(w, None, low, log_lines, flash),
            }
        },
        Input::Dispensed { count, failure } => match w.m.stage {
            Stage::Items(purpose) => lemma_item_answered(w, purpose, count, failure, low, flash),
            Stage::Coins { hopper, owed } => lemma_coin_answered(
                w,
                hopper as int,
                owed,
                count,
                failure,
                low,
                flash,
            ),
            _ => {},
        },
    }
}

/// Switching on is safe.
proof fn lemma_started(w: World, low: Seq<bool>, flash: Seq<u8>)
    requires
        safe(w, flash),
    ensures
        safe(w.started(low), flash),
{
    reveal(World::started);
    if w.m.counters.owes() {
        lemma_dispensing(w, Purpose::Resume, low, flash);
    } else {
        let w1 = w.serving(AppState::AcceptCash);
        lemma_beside(w, w1, flash);
        lemma_shown(w1, Effect::Show(w1.situation()), flash);
        lemma_beside(w1.refreshed(), w.started(low), flash);
    }
}

/// A power cut loses nothing. If the region remembers what the machine knows, it still does after any step,
/// once what the step asks for has been done: opening the journal and reading the settings gives back the same
/// counters, the same debts and the same settings, up to where serving the customer had got to. And if the power
/// goes off between two writes, when only some of it has been done, what comes back is what was written last.
/// [`law_cut_write_is_harmless`] says what comes back if it goes off in the middle of a write.
pub proof fn law_power_cut_loses_nothing(
    w: World,
    input: Input,
    low: Seq<bool>,
    log_lines: nat,
    flash: Seq<u8>,
)
    requires
        w.out.len() == 0,
        remembered(w.m, flash),
    ensures
        ({
            let after = w.stepped(input, low, log_lines);
            &&& remembered(after.m, flash_after(after.out, flash))
            &&& forall|k: int| 0 <= k <= after.out.len() ==> recovers(#[trigger] after.out.take(k), flash)
        }),
{
    lemma_start(w, flash);
    lemma_stepped(w, input, low, log_lines, flash);
    reveal(safe);
}

/// Switching the machine on loses nothing either.
pub proof fn law_switching_on_loses_nothing(w: World, low: Seq<bool>, flash: Seq<u8>)
    requires
        w.out.len() == 0,
        remembered(w.m, flash),
    ensures
        ({
            let after = w.started(low);
            &&& remembered(after.m, flash_after(after.out, flash))
            &&& forall|k: int| 0 <= k <= after.out.len() ==> recovers(#[trigger] after.out.take(k), flash)
        }),
{
    lemma_start(w, flash);
    lemma_started(w, low, flash);
    reveal(safe);
}

/// How many words writing something takes.
pub open spec fn words_of(e: Effect) -> int {
    match e {
        Effect::Save(_) => RECORD as int / 2,
        Effect::Log(_) => EVENT_RECORD as int / 2,
        Effect::Store(_) => SETTINGS_RECORD as int / 2,
        _ => 0,
    }
}

/// The region if the power goes off after `words` words of a write.
pub open spec fn cut_short(e: Effect, flash: Seq<u8>, words: int) -> Seq<u8> {
    match e {
        Effect::Save(save) => save.torn(flash, words),
        Effect::Log(write) => write.torn(flash, words),
        Effect::Store(settings) => stored::settings_torn(
            flash,
            stored::settings_record(settings),
            words,
        ),
        _ => flash,
    }
}

/// A machine that is switched on with a region that can be carried on is remembered by it.
proof fn lemma_restored(flash: Seq<u8>)
    requires
        sound(flash),
    ensures
        remembered(restored(flash), flash),
{
    reveal(sound);
    reveal(in_step);
    reveal(record::record_contents);
    stored::law_settings_are_of_this_version(flash);
    ring::lemma_newest_holds(journal::journal_seqs(flash));
}

/// A save that is cut short leaves a region that can be carried on.
proof fn lemma_cut_save(save: journal::JournalSave, flash: Seq<u8>, words: int)
    requires
        sound(flash),
        carries_on(Effect::Save(save), flash),
        0 <= words <= RECORD / 2,
    ensures
        ({
            let cut = save.torn(flash, words);
            let there = record::record_contents(journal::slot_bytes(cut, save.slot as int));
            &&& sound(cut)
            &&& there is None ==> Journal::opened(cut).1 == Journal::opened(flash).1
            &&& there == Some((save.seq, save.counters)) ==> Journal::opened(cut).1 == save.counters
            &&& stored::settings_in(cut) == stored::settings_in(flash)
        }),
{
    reveal(sound);
    let journal = Journal::opened(flash).0;
    let cut = save.torn(flash, words);
    let there = record::record_contents(journal::slot_bytes(cut, save.slot as int));
    journal::law_every_save_keeps_the_journal(journal, save.counters, flash, words);
    journal::law_opening_keeps_the_journal(journal.advanced(), cut);
    assert forall|i: int| 0 <= i < SEGMENT implies #[trigger] cut[i] == flash[i] by {
        journal::law_save_keeps_out_of_other_segments(save, flash, words, i);
    }
    assert forall|i: int| EVENT_LOG_AT <= i < NVRAM_LEN implies #[trigger] flash[i] == cut[i] by {
        journal::law_save_keeps_out_of_other_segments(save, flash, words, i);
    }
    lemma_settings_local(cut, flash);
    lemma_log_local(EventLog::opened(flash), flash, cut);
    if there is None {
        journal::lemma_unreadable_save(
            journal,
            Journal::opened(flash).1,
            save.counters,
            flash,
            words,
        );
    } else if there == Some((save.seq, save.counters)) {
        journal::lemma_opened_at(journal.advanced(), save.counters, cut);
    }
}

/// An entry of the log that is cut short leaves a region that can be carried on, with the same counters and
/// settings.
proof fn lemma_cut_entry(write: event_log::EventWrite, flash: Seq<u8>, words: int)
    requires
        sound(flash),
        carries_on(Effect::Log(write), flash),
        0 <= words <= EVENT_RECORD / 2,
    ensures
        ({
            let cut = write.torn(flash, words);
            &&& sound(cut)
            &&& Journal::opened(cut) == Journal::opened(flash)
            &&& stored::settings_in(cut) == stored::settings_in(flash)
        }),
{
    reveal(sound);
    let log = EventLog::opened(flash);
    let cut = write.torn(flash, words);
    event_log::law_torn_entry_is_harmless(log, write.entry.kind, write.entry.value, flash, words);
    assert forall|i: int| 0 <= i < EVENT_LOG_AT implies #[trigger] cut[i] == flash[i] by {
        event_log::law_log_keeps_to_its_segment(write, flash, words, i);
    }
    lemma_settings_local(cut, flash);
    lemma_journal_local(Journal::opened(flash).0, flash, cut);
}

/// Settings that are cut short leave a region that can be carried on, with the same counters.
proof fn lemma_cut_settings(settings: Settings, flash: Seq<u8>, words: int)
    requires
        sound(flash),
        carries_on(Effect::Store(settings), flash),
        0 <= words <= SETTINGS_RECORD / 2,
    ensures
        ({
            let cut = stored::settings_torn(flash, stored::settings_record(settings), words);
            &&& sound(cut)
            &&& Journal::opened(cut) == Journal::opened(flash)
            &&& words == 0 || !stored::settings_checksum_holds(cut) ==> stored::settings_in(cut)
                == Settings::factory()
            &&& words == SETTINGS_RECORD / 2 ==> stored::settings_in(cut) == settings
        }),
{
    reveal(sound);
    stored::law_torn_settings(settings, flash, words);
    let cut = stored::settings_torn(flash, stored::settings_record(settings), words);
    assert forall|i: int| SEGMENT <= i < NVRAM_LEN implies #[trigger] flash[i] == cut[i] by {
        stored::law_settings_keep_to_their_segment(settings, flash, words, i);
    }
    stored::law_settings_keep_to_their_segment(settings, flash, words, SEGMENT as int);
    lemma_journal_local(Journal::opened(flash).0, flash, cut);
    lemma_log_local(EventLog::opened(flash), flash, cut);
}

/// If `done` has been done and the power goes off after `words` words of writing `e`, the machine comes back with
/// the counters and the settings that were written last, and everything it does from then on is remembered again.
///
/// Counters that were being written down are found if enough of their record was written, and those before them
/// otherwise. Settings that were being stored are found if their record was finished, and the factory's if what
/// was written of it fails its checksum.
pub open spec fn survives(done: Seq<Effect>, e: Effect, flash: Seq<u8>, words: int) -> bool {
    let cut = cut_short(e, flash_after(done, flash), words);
    let before = last_saved(done, Journal::opened(flash).1);
    &&& remembered(restored(cut), cut)
    &&& match e {
        Effect::Save(save) => {
            let there = record::record_contents(journal::slot_bytes(cut, save.slot as int));
            &&& there is None ==> restored(cut).counters == before
            &&& there == Some((save.seq, save.counters)) ==> restored(cut).counters == save.counters
        },
        _ => restored(cut).counters == before,
    }
    &&& match e {
        Effect::Store(settings) => {
            &&& words == 0 || !stored::settings_checksum_holds(cut) ==> restored(cut).settings
                == Settings::factory()
            &&& words == words_of(e) ==> restored(cut).settings == settings
        },
        _ => restored(cut).settings == last_stored(done, stored::settings_in(flash)),
    }
}

/// A write that a power cut interrupts is harmless, whichever of the writes it is.
proof fn lemma_survives(w: World, flash: Seq<u8>, k: int, words: int)
    requires
        safe(w, flash),
        0 <= k < w.out.len(),
        0 <= words <= words_of(w.out[k]),
    ensures
        survives(w.out.take(k), w.out[k], flash, words),
{
    let done = w.out.take(k);
    let e = w.out[k];
    let region = flash_after(done, flash);
    reveal(safe);
    reveal(recovers);
    assert(recovers(done, flash));
    assert(recovers(w.out.take(k + 1), flash));
    assert(w.out.take(k + 1).drop_last() =~= done);
    assert(carries_on(e, region));
    match e {
        Effect::Save(save) => lemma_cut_save(save, region, words),
        Effect::Log(write) => lemma_cut_entry(write, region, words),
        Effect::Store(settings) => lemma_cut_settings(settings, region, words),
        _ => {},
    }
    lemma_restored(cut_short(e, region, words));
}

/// A power cut in the middle of a write is harmless too. Whichever of the writes that a step asks for it
/// interrupts, and however far that had got, the machine that is switched on again is remembered by its region,
/// and knows what was written last.
pub proof fn law_cut_write_is_harmless(
    w: World,
    input: Input,
    low: Seq<bool>,
    log_lines: nat,
    flash: Seq<u8>,
    k: int,
    words: int,
)
    requires
        w.out.len() == 0,
        remembered(w.m, flash),
        0 <= k < w.stepped(input, low, log_lines).out.len(),
        0 <= words <= words_of(w.stepped(input, low, log_lines).out[k]),
    ensures
        ({
            let out = w.stepped(input, low, log_lines).out;
            survives(out.take(k), out[k], flash, words)
        }),
{
    lemma_start(w, flash);
    lemma_stepped(w, input, low, log_lines, flash);
    lemma_survives(w.stepped(input, low, log_lines), flash, k, words);
}

/// So is one in the middle of a write that the machine makes when it is switched on.
pub proof fn law_cut_write_at_the_start_is_harmless(
    w: World,
    low: Seq<bool>,
    flash: Seq<u8>,
    k: int,
    words: int,
)
    requires
        w.out.len() == 0,
        remembered(w.m, flash),
        0 <= k < w.started(low).out.len(),
        0 <= words <= words_of(w.started(low).out[k]),
    ensures
        survives(w.started(low).out.take(k), w.started(low).out[k], flash, words),
{
    lemma_start(w, flash);
    lemma_started(w, low, flash);
    lemma_survives(w.started(low), flash, k, words);
}

/// A machine restored from a blank region starts with what the region remembers.
pub proof fn law_new_machine_is_remembered(flash: Seq<u8>)
    requires
        flash.len() == NVRAM_LEN,
        codec::blank(flash),
    ensures
        remembered(restored(flash), flash),
        Journal::opened(flash).1 == Counters::fresh(),
        stored::settings_in(flash) == Settings::factory(),
{
    reveal(sound);
    assert forall|slot: int| 0 <= slot < RECORDS implies codec::blank(
        #[trigger] journal::slot_bytes(flash, slot),
    ) by {}
    assert forall|slot: int| 0 <= slot < EVENT_LOG_ENTRIES implies codec::blank(
        #[trigger] event_log::event_bytes(flash, slot),
    ) by {}
    assert(codec::blank(flash.take(SEGMENT as int)));
    journal::law_blank_region_opens_fresh(flash, Errors { bits: 0 });
    event_log::law_blank_log_opens_empty(flash);
    stored::law_blank_settings_are_the_factorys(flash);
    lemma_restored(flash);
}

/// One turn of a machine's life.
pub struct Turn {
    /// What the machine is told, or nothing if it is switched off and on again.
    pub told: Option<Input>,
    /// The faults at that time.
    pub faults: Errors,
    /// Which hoppers are running low.
    pub low: Seq<bool>,
    /// How many lines the log takes to read.
    pub log_lines: nat,
    /// Where the power goes off, if it does: so many things done, and so many words of the next one written.
    pub cut: Option<(nat, nat)>,
}

/// What the machine does in a turn.
pub open spec fn turned(m: Machine, flash: Seq<u8>, turn: Turn) -> World {
    match turn.told {
        Some(input) => world::of(m, turn.faults, Seq::empty()).stepped(input, turn.low, turn.log_lines),
        None => world::of(restored(flash), turn.faults, Seq::empty()).started(turn.low),
    }
}

/// The machine and its region after a turn. If the power goes off, the machine is the one that is switched on next.
pub open spec fn after_turn(m: Machine, flash: Seq<u8>, turn: Turn) -> (Machine, Seq<u8>) {
    let w = turned(m, flash, turn);
    match turn.cut {
        Some((done, words)) => if done < w.out.len() && words <= words_of(w.out[done as int]) {
            let region = cut_short(
                w.out[done as int],
                flash_after(w.out.take(done as int), flash),
                words as int,
            );
            (restored(region), region)
        } else {
            (w.m, flash_after(w.out, flash))
        },
        None => (w.m, flash_after(w.out, flash)),
    }
}

/// The machine and its region after a life that began with this region.
pub open spec fn after_life(flash: Seq<u8>, turns: Seq<Turn>) -> (Machine, Seq<u8>)
    decreases turns.len(),
{
    if turns.len() == 0 {
        (restored(flash), flash)
    } else {
        let (m, region) = after_life(flash, turns.drop_last());
        after_turn(m, region, turns.last())
    }
}

/// From a blank region on, whatever the machine is told, and however often the power goes off, while it waits,
/// between two writes or in the middle of one: the region remembers what the machine knows.
pub proof fn law_a_whole_life_is_remembered(flash: Seq<u8>, turns: Seq<Turn>)
    requires
        flash.len() == NVRAM_LEN,
        codec::blank(flash),
    ensures
        remembered(after_life(flash, turns).0, after_life(flash, turns).1),
    decreases turns.len(),
{
    if turns.len() == 0 {
        law_new_machine_is_remembered(flash);
    } else {
        law_a_whole_life_is_remembered(flash, turns.drop_last());
        let (m, region) = after_life(flash, turns.drop_last());
        let turn = turns.last();
        lemma_remembered_is_sound(m, region);
        lemma_restored(region);
        match turn.told {
            Some(input) => {
                let w = world::of(m, turn.faults, Seq::empty());
                lemma_start(w, region);
                lemma_stepped(w, input, turn.low, turn.log_lines, region);
            },
            None => {
                let w = world::of(restored(region), turn.faults, Seq::empty());
                lemma_start(w, region);
                lemma_started(w, turn.low, region);
            },
        }
        let w = turned(m, region, turn);
        lemma_known(w, region);
        if let Some((done, words)) = turn.cut {
            if done < w.out.len() && words <= words_of(w.out[done as int]) {
                lemma_survives(w, region, done as int, words as int);
            }
        }
    }
}

/// Switching on gives back what was written last: settings `s` from their segment and counters `c` from the journal's,
/// in whichever order they were written and whatever was logged meanwhile, and a journal whose next save goes to the
/// same slot under the same number as that of the journal that saved them.
///
/// It finds no fault where every slot of the journal was blank or could be read; a corrupt older slot is a fault. The
/// settings were written when the region was `set`, and the counters when it was `saved`.
pub proof fn law_restoring_gives_back_what_was_written(
    s: Settings,
    set: Seq<u8>,
    c: Counters,
    journal: Journal,
    saved: Seq<u8>,
    region: Seq<u8>,
    faults: Errors,
)
    requires
        s.version == SETTINGS_VERSION,
        set.len() == NVRAM_LEN,
        c.version == COUNTERS_VERSION,
        journal.keeps(saved),
        region.len() == NVRAM_LEN,
        forall|i: int|
            0 <= i < SEGMENT ==> #[trigger] region[i] == stored::settings_applied(
                set,
                stored::settings_record(s),
            )[i],
        forall|i: int|
            SEGMENT <= i < EVENT_LOG_AT ==> #[trigger] region[i] == journal.saving(c).applied(saved)[i],
    ensures
        stored::settings_in(region) == s,
        Journal::opened(region) == (journal.advanced(), c),
        (forall|slot: int|
            0 <= slot < RECORDS ==> record::record_fault(#[trigger] journal::slot_bytes(saved, slot)) == 0)
            ==> journal::faults_after_scan(
            faults.with(stored::settings_fault(region)),
            region,
            RECORDS as nat,
        ) == faults,
{
    lemma_settings_read(s, set, region);
    journal::law_open_returns_last_save(journal, c, saved);
    let after = journal.saving(c).applied(saved);
    lemma_journal_local(journal.advanced(), after, region);
    let b = faults.bits;
    assert(b | 0 == b) by (bit_vector);
    if forall|slot: int|
        0 <= slot < RECORDS ==> record::record_fault(#[trigger] journal::slot_bytes(saved, slot)) == 0 {
        journal::law_save_leaves_no_fault(journal, c, saved, faults);
        lemma_scan_local(after, region, faults, RECORDS as nat);
    }
}

/// Settings are read from a region whose segment for them is as they were written.
proof fn lemma_settings_read(s: Settings, set: Seq<u8>, region: Seq<u8>)
    requires
        s.version == SETTINGS_VERSION,
        set.len() == NVRAM_LEN,
        region.len() == NVRAM_LEN,
        forall|i: int|
            0 <= i < SEGMENT ==> #[trigger] region[i] == stored::settings_applied(
                set,
                stored::settings_record(s),
            )[i],
    ensures
        stored::settings_in(region) == s,
        stored::settings_fault(region) == 0,
{
    let after = stored::settings_applied(set, stored::settings_record(s));
    stored::law_settings_round_trip(s, set);
    lemma_settings_local(region, after);
    lemma_settings_fault_local(region, after);
}

/// The faults that a scan of the journal finds depend on its own segments alone.
proof fn lemma_scan_local(a: Seq<u8>, b: Seq<u8>, faults: Errors, n: nat)
    requires
        n <= RECORDS,
        a.len() == NVRAM_LEN,
        b.len() == NVRAM_LEN,
        forall|i: int| SEGMENT <= i < EVENT_LOG_AT ==> #[trigger] b[i] == a[i],
    ensures
        journal::faults_after_scan(faults, a, n) == journal::faults_after_scan(faults, b, n),
    decreases n,
{
    if n > 0 {
        lemma_scan_local(a, b, faults, (n - 1) as nat);
        assert(journal::slot_bytes(a, n - 1) =~= journal::slot_bytes(b, n - 1));
    }
}

} // verus!
