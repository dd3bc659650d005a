//! The flash region and its controller.
//!
//! Flash can only clear bits, so writing over bytes that are not erased gives the bitwise "and" of the
//! two; and only a whole segment can be erased. What the controller has to be told for an erase or for a
//! write is worked out here as a [`FlashProgram`], a list of register writes, and so is which of them comes
//! next. The writes themselves are made elsewhere.
use vstd::prelude::*;

use crate::error::{self, Errors};

verus! {

/// Flash segment size on this device.
pub const SEGMENT: usize = 512;

/// Where the region starts.
pub const NVRAM_BASE: u16 = 0x3100;

/// How long the region is: one segment for the settings, three for the journal, one for the event log.
pub const NVRAM_LEN: usize = 2560;

/// Flash controller: mode.
pub const FCTL1: u16 = 0x0128;

/// Flash controller: timing.
pub const FCTL2: u16 = 0x012a;

/// Flash controller: lock and status.
pub const FCTL3: u16 = 0x012c;

/// The write key. Any access without it resets the chip, which is the point of it.
pub const FWKEY: u16 = 0xa500;

/// [`FCTL1`]: the next write erases the segment it falls in.
pub const ERASE: u16 = 0x0002;

/// [`FCTL1`]: writes program words.
pub const WRT: u16 = 0x0040;

/// [`FCTL3`]: nothing can be erased or written.
pub const LOCK: u16 = 0x0010;

/// [`FCTL3`]: the controller is at work.
pub const BUSY: u16 = 0x0001;

/// How many times to read [`BUSY`] before giving up on the flash controller.
///
/// The bound is the point. Interrupts are off for the whole of an erase, and the watchdog is stopped, so
/// a controller that never cleared `BUSY` would leave the machine dead with nothing able to notice.
pub const BUSY_LIMIT: u32 = 1_000_000;

/// The region after the segment that holds offset `at` was erased.
pub open spec fn erased(flash: Seq<u8>, at: int) -> Seq<u8> {
    Seq::new(
        flash.len(),
        |i: int| if i / SEGMENT as int == at / SEGMENT as int { 0xff } else { flash[i] },
    )
}

/// The region after `data` was written at offset `at`.
pub open spec fn programmed(flash: Seq<u8>, at: int, data: Seq<u8>) -> Seq<u8> {
    Seq::new(
        flash.len(),
        |i: int| if at <= i < at + data.len() { flash[i] & data[i - at] } else { flash[i] },
    )
}

/// Register writes that make up one erase or one write.
///
/// They are made in this order: `unlock`; then `words`, each followed by a wait for the controller,
/// stopping at the first that the controller does not finish, because carrying on would leave a hole in
/// the record; then, whatever happened, `lock`. [`FlashProgram::next`] says which is next.
pub struct FlashProgram {
    /// Sets the timing, opens the lock and chooses the mode.
    pub unlock: Vec<(u16, u16)>,
    /// What is written to flash itself: address and word.
    pub words: Vec<(u16, u16)>,
    /// Leaves the mode and closes the lock.
    pub lock: Vec<(u16, u16)>,
}

/// One register write to make.
#[derive(Copy, Clone, Debug, Eq, PartialEq, Structural)]
pub struct FlashStep {
    /// Where to write.
    pub addr: u16,
    /// What to write.
    pub value: u16,
    /// Whether to wait for the controller afterwards.
    pub wait: bool,
}

/// How far a program has got.
#[derive(Copy, Clone, Debug, Eq, PartialEq, Structural)]
pub struct FlashRun {
    /// How many of the program's words are to be written: all, until the controller does not finish one.
    pub words: usize,
    /// How many register writes have been made.
    pub made: usize,
}

impl FlashProgram {
    /// The register writes of a run, if `words` of the program's words are written.
    pub open spec fn script(self, words: int) -> Seq<(u16, u16)> {
        self.unlock@ + self.words@.take(words) + self.lock@
    }

    /// The register writes can be counted.
    pub open spec fn wf(self) -> bool {
        self.unlock@.len() + self.words@.len() + self.lock@.len() <= usize::MAX
    }

    /// The run is one of this program.
    pub open spec fn runs(self, run: FlashRun) -> bool {
        &&& run.words <= self.words@.len()
        &&& run.made <= self.script(run.words as int).len()
    }

    /// The register writes that have been made.
    pub open spec fn made(self, run: FlashRun) -> Seq<(u16, u16)> {
        self.script(run.words as int).take(run.made as int)
    }

    /// Nothing has been done yet.
    pub open spec fn started(self) -> FlashRun {
        FlashRun { words: self.words@.len() as usize, made: 0 }
    }

    /// Was the last register write one of the words?
    pub open spec fn writing(self, run: FlashRun) -> bool {
        self.unlock@.len() < run.made <= self.unlock@.len() + run.words
    }

    /// How many words are written, now that it is known whether the controller finished the last write: no more,
    /// if that was a word which it did not finish.
    pub open spec fn told(self, run: FlashRun, finished: bool) -> FlashRun {
        if !finished && self.writing(run) {
            FlashRun { words: (run.made - self.unlock@.len()) as usize, ..run }
        } else {
            run
        }
    }

    /// The next register write, if there is one.
    pub open spec fn step(self, run: FlashRun) -> Option<FlashStep> {
        let script = self.script(run.words as int);
        if run.made < script.len() {
            let (addr, value) = script[run.made as int];
            Some(
                FlashStep {
                    addr,
                    value,
                    wait: self.unlock@.len() <= run.made < self.unlock@.len() + run.words,
                },
            )
        } else {
            None
        }
    }

    /// The run after that write.
    pub open spec fn stepped(self, run: FlashRun) -> FlashRun {
        match self.step(run) {
            Some(_) => FlashRun { made: (run.made + 1) as usize, ..run },
            None => run,
        }
    }

    /// Begin.
    pub fn start(&self) -> (run: FlashRun)
        ensures
            run == self.started(),
            self.runs(run),
    {
        assert(self.script(self.words@.len() as int).len() >= 0);
        FlashRun { words: self.words.len(), made: 0 }
    }

    /// The next register write to make, or `None` if all have been made. `finished` says whether the controller
    /// finished the last one; before the first it does not matter.
    ///
    /// Words stop at the first that does not take. Carrying on would write the rest of the record after a hole in
    /// it, and a record with a hole passes no checksum but takes the slot a good one could have had.
    pub fn next(&self, run: &mut FlashRun, finished: bool) -> (step: Option<FlashStep>)
        requires
            self.wf(),
            self.runs(*old(run)),
        ensures
            step == self.step(self.told(*old(run), finished)),
            *final(run) == self.stepped(self.told(*old(run), finished)),
            self.runs(*final(run)),
            step matches Some(s) ==> self.made(*final(run)) == self.made(*old(run)).push((s.addr, s.value)),
            step is None ==> self.made(*final(run)) == self.made(*old(run)),
    {
        let ghost start = *run;
        let opening: usize = self.unlock.len();
        if !finished && run.made > opening && run.made <= opening + run.words {
            run.words = run.made - opening;
            assert(self.script(run.words as int).take(run.made as int) =~= self.made(start));
        }
        let ghost told = *run;
        let ghost script = self.script(run.words as int);
        let at: usize = run.made;
        let (write, wait) = if at < opening {
            (self.unlock[at], false)
        } else if at < opening + run.words {
            (self.words[at - opening], true)
        } else if at < opening + run.words + self.lock.len() {
            (self.lock[at - opening - run.words], false)
        } else {
            return None;
        };
        assert(write == script[at as int]);
        run.made = at + 1;
        assert(script.take(at + 1) =~= script.take(at as int).push(write));
        Some(FlashStep { addr: write.0, value: write.1, wait })
    }
}

/// A run of a program that was asked for its next write once for every answer in `finished`.
pub open spec fn asked(p: FlashProgram, finished: Seq<bool>) -> FlashRun
    decreases finished.len(),
{
    if finished.len() == 0 {
        p.started()
    } else {
        p.stepped(p.told(asked(p, finished.drop_last()), finished.last()))
    }
}

/// While the controller finishes every word, the writes go on one after another, to the end.
proof fn lemma_run_goes_on(p: FlashProgram, finished: Seq<bool>)
    requires
        p.wf(),
        forall|j: int|
            p.unlock@.len() < j <= p.unlock@.len() + p.words@.len() && j < finished.len()
                ==> #[trigger] finished[j],
    ensures
        asked(p, finished).words == p.words@.len(),
        asked(p, finished).made == (if finished.len() < p.script(p.words@.len() as int).len() {
            finished.len() as int
        } else {
            p.script(p.words@.len() as int).len() as int
        }),
    decreases finished.len(),
{
    if finished.len() > 0 {
        let front = finished.drop_last();
        assert forall|j: int|
            p.unlock@.len() < j <= p.unlock@.len() + p.words@.len() && j < front.len() implies #[trigger] front[j] by {
            assert(finished[j]);
        }
        lemma_run_goes_on(p, front);
        if p.writing(asked(p, front)) && front.len() <= p.unlock@.len() + p.words@.len() {
            assert(finished[front.len() as int]);
        }
    }
}

/// Writing stops at the first word that does not take. If the controller finishes every word before word `k` and not
/// that one, then whatever it answers afterwards, no word behind it is written: the run ends with `k + 1` words, and
/// the lock closed.
pub proof fn law_writing_stops_at_the_first_word_that_does_not_take(
    p: FlashProgram,
    finished: Seq<bool>,
    k: int,
)
    requires
        p.wf(),
        0 <= k < p.words@.len(),
        forall|j: int|
            p.unlock@.len() < j <= p.unlock@.len() + k && j < finished.len() ==> #[trigger] finished[j],
        finished.len() > p.unlock@.len() + k + 1,
        !finished[p.unlock@.len() + k + 1],
    ensures
        asked(p, finished).words == k + 1,
        p.made(asked(p, finished)) == p.script(k + 1).take(asked(p, finished).made as int),
        finished.len() >= p.script(k + 1).len() ==> p.made(asked(p, finished)) == p.script(k + 1),
{
    lemma_run_stops(p, finished, k);
    let full = p.script(k + 1);
    assert(full.take(full.len() as int) =~= full);
}

/// The run after the first word that did not take.
proof fn lemma_run_stops(p: FlashProgram, finished: Seq<bool>, k: int)
    requires
        p.wf(),
        0 <= k < p.words@.len(),
        forall|j: int|
            p.unlock@.len() < j <= p.unlock@.len() + k && j < finished.len() ==> #[trigger] finished[j],
        finished.len() > p.unlock@.len() + k + 1,
        !finished[p.unlock@.len() + k + 1],
    ensures
        asked(p, finished).words == k + 1,
        asked(p, finished).made == (if finished.len() < p.script(k + 1).len() {
            finished.len() as int
        } else {
            p.script(k + 1).len() as int
        }),
    decreases finished.len(),
{
    let front = finished.drop_last();
    let stop = p.unlock@.len() + k + 1;
    assert(p.script(k + 1).len() == stop + p.lock@.len());
    if front.len() > stop {
        assert forall|j: int|
            p.unlock@.len() < j <= p.unlock@.len() + k && j < front.len() implies #[trigger] front[j] by {
            assert(finished[j]);
        }
        lemma_run_stops(p, front, k);
    } else {
        lemma_run_reaches(p, front, k);
    }
}

/// The run up to word `k`, if every word before it takes.
proof fn lemma_run_reaches(p: FlashProgram, finished: Seq<bool>, k: int)
    requires
        p.wf(),
        0 <= k < p.words@.len(),
        forall|j: int|
            p.unlock@.len() < j <= p.unlock@.len() + k && j < finished.len() ==> #[trigger] finished[j],
        finished.len() <= p.unlock@.len() + k + 1,
    ensures
        asked(p, finished).words == p.words@.len(),
        asked(p, finished).made == finished.len(),
    decreases finished.len(),
{
    assert forall|j: int|
        p.unlock@.len() < j <= p.unlock@.len() + p.words@.len() && j < finished.len() implies #[trigger] finished[j] by {}
    lemma_run_goes_on(p, finished);
}

/// The divider that the timing generator needs for a clock of `smclk` hertz, in 1 to 64.
pub open spec fn divider_for(smclk: u32) -> int {
    let d = (smclk + 399_999) / 400_000;
    if d < 1 {
        1
    } else if d > 64 {
        64
    } else {
        d
    }
}

/// What to tell the timing generator: the key, SMCLK as its source, and the divider less one.
pub open spec fn timing_word(smclk: u32) -> u16 {
    (FWKEY + 0x0040 + divider_for(smclk) - 1) as u16
}

/// The flash timing generator's setting for a clock of `smclk` hertz.
///
/// The divider is rounded up, so the result is never above the top of the range: too slow only makes the
/// write take longer, while too fast can leave a bit half-programmed.
pub fn set_timing(smclk: u32) -> (write: (u16, u16))
    requires
        smclk <= u32::MAX - 399_999,
    ensures
        write == (FCTL2, timing_word(smclk)),
{
    let wanted: u32 = (smclk + 399_999) / 400_000;
    let divider: u16 = if wanted < 1 {
        1
    } else if wanted > 64 {
        64
    } else {
        wanted as u16
    };
    let less_one: u16 = divider - 1;
    assert(0xa500u16 | 0x0040u16 | less_one == 0xa540u16 + less_one) by (bit_vector)
        requires
            less_one < 64,
    ;
    (FCTL2, FWKEY | 0x0040 | less_one)
}

/// The timing generator never runs faster than 400 kHz, and for any clock from 800 kHz up to 25.6 MHz it
/// runs at more than 257 kHz, as the controller asks.
pub proof fn law_timing_in_range(smclk: u32)
    ensures
        smclk <= 25_600_000 ==> smclk <= divider_for(smclk) * 400_000,
        800_000 <= smclk <= 25_600_000 ==> smclk > divider_for(smclk) * 257_000,
        1 <= divider_for(smclk) <= 64,
{
}

/// The unlocking register writes for a mode.
pub open spec fn unlock_writes(mode: u16, smclk: u32) -> Seq<(u16, u16)> {
    seq![(FCTL2, timing_word(smclk)), (FCTL3, FWKEY), (FCTL1, FWKEY | mode)]
}

/// The locking register writes.
pub open spec fn lock_writes() -> Seq<(u16, u16)> {
    seq![(FCTL1, FWKEY), (FCTL3, FWKEY | LOCK)]
}

/// The words that writing `data` at `addr` takes: pairs of bytes, least significant first, a missing last
/// byte left as erased.
pub open spec fn data_words(addr: u16, data: Seq<u8>) -> Seq<(u16, u16)> {
    Seq::new(
        ((data.len() + 1) / 2) as nat,
        |i: int|
            (
                (addr + 2 * i) as u16,
                (data[2 * i] + 0x100 * (if 2 * i + 1 < data.len() { data[2 * i + 1] } else { 0xff }))
                    as u16,
            ),
    )
}

/// The register writes that open the controller for a mode.
fn unlock_for(mode: u16, smclk: u32) -> (writes: Vec<(u16, u16)>)
    requires
        smclk <= u32::MAX - 399_999,
    ensures
        writes@ == unlock_writes(mode, smclk),
{
    let mut writes: Vec<(u16, u16)> = Vec::new();
    writes.push(set_timing(smclk));
    writes.push((FCTL3, FWKEY));
    writes.push((FCTL1, FWKEY | mode));
    assert(writes@ =~= unlock_writes(mode, smclk));
    writes
}

/// The register writes that close the controller.
fn lock_again() -> (writes: Vec<(u16, u16)>)
    ensures
        writes@ == lock_writes(),
{
    let mut writes: Vec<(u16, u16)> = Vec::new();
    writes.push((FCTL1, FWKEY));
    writes.push((FCTL3, FWKEY | LOCK));
    assert(writes@ =~= lock_writes());
    writes
}

/// How to erase the segment containing `addr`, with a clock of `smclk` hertz.
///
/// The one word written is a dummy: it says which segment, and starts the erase.
pub fn erase_segment(addr: u16, smclk: u32) -> (p: FlashProgram)
    requires
        smclk <= u32::MAX - 399_999,
    ensures
        p.unlock@ == unlock_writes(ERASE, smclk),
        p.words@ == seq![(addr, 0u16)],
        p.lock@ == lock_writes(),
        p.wf(),
{
    let mut words: Vec<(u16, u16)> = Vec::new();
    words.push((addr, 0));
    assert(words@ =~= seq![(addr, 0u16)]);
    FlashProgram { unlock: unlock_for(ERASE, smclk), words, lock: lock_again() }
}

/// How to write `data` at `addr`, which must already be erased, with a clock of `smclk` hertz.
pub fn write_bytes(addr: u16, data: &[u8], smclk: u32) -> (p: FlashProgram)
    requires
        smclk <= u32::MAX - 399_999,
        addr + data@.len() <= 0xffff,
    ensures
        p.unlock@ == unlock_writes(WRT, smclk),
        p.words@ == data_words(addr, data@),
        p.lock@ == lock_writes(),
        p.wf(),
{
    let mut words: Vec<(u16, u16)> = Vec::new();
    let mut at: usize = 0;
    while at < data.len()
        invariant
            addr + data@.len() <= 0xffff,
            at % 2 == 0,
            at <= data@.len() + 1,
            words@ == data_words(addr, data@).take((at / 2) as int),
        decreases data@.len() + 1 - at,
    {
        let high: u16 = if at + 1 < data.len() {
            data[at + 1] as u16
        } else {
            0xff
        };
        words.push((addr + at as u16, data[at] as u16 + 0x100 * high));
        at += 2;
        assert(words@ =~= data_words(addr, data@).take((at / 2) as int));
    }
    assert(data_words(addr, data@).take((at / 2) as int) =~= data_words(addr, data@));
    FlashProgram { unlock: unlock_for(WRT, smclk), words, lock: lock_again() }
}

/// Judge one reading of the controller's status, the `reads`th since the wait began.
///
/// `None` means to read again. Otherwise the wait is over, and the result says whether the controller
/// finished; giving up on it is recorded as a fault, which is worse than succeeding and far better than
/// hanging.
pub fn wait_done(status: u16, reads: u32, faults: &mut Errors) -> (over: Option<bool>)
    ensures
        over == (if status & BUSY == 0 {
            Some(true)
        } else if reads >= BUSY_LIMIT {
            Some(false)
        } else {
            None
        }),
        *final(faults) == (if over == Some(false) {
            old(faults).with(error::NVRAM_CORRUPTED)
        } else {
            *old(faults)
        }),
{
    if status & BUSY == 0 {
        Some(true)
    } else if reads >= BUSY_LIMIT {
        error::raise(faults, error::NVRAM_CORRUPTED);
        Some(false)
    } else {
        None
    }
}

/// The controller and the region it looks after, as register writes see them.
pub struct Controller {
    /// The region.
    pub flash: Seq<u8>,
    /// The mode, as last written to [`FCTL1`].
    pub mode: u16,
    /// Whether the lock is closed.
    pub locked: bool,
}

impl Controller {
    /// What one register write does.
    pub open spec fn after(self, write: (u16, u16)) -> Controller {
        let (addr, value) = write;
        if addr == FCTL1 {
            Controller { mode: value, ..self }
        } else if addr == FCTL2 {
            self
        } else if addr == FCTL3 {
            Controller { locked: value & LOCK != 0, ..self }
        } else if self.locked || !(NVRAM_BASE <= addr < NVRAM_BASE + NVRAM_LEN) {
            self
        } else if self.mode & ERASE != 0 {
            Controller { flash: erased(self.flash, addr - NVRAM_BASE), ..self }
        } else if self.mode & WRT != 0 {
            Controller {
                flash: programmed(
                    self.flash,
                    addr - NVRAM_BASE,
                    seq![(value % 0x100) as u8, (value / 0x100) as u8],
                ),
                ..self
            }
        } else {
            self
        }
    }

    /// What a list of register writes does.
    pub open spec fn run(self, writes: Seq<(u16, u16)>) -> Controller
        decreases writes.len(),
    {
        if writes.len() == 0 {
            self
        } else {
            self.run(writes.drop_last()).after(writes.last())
        }
    }

    /// What performing a program does when the controller gives up after `done` words.
    pub open spec fn perform(
        self,
        unlock: Seq<(u16, u16)>,
        words: Seq<(u16, u16)>,
        lock: Seq<(u16, u16)>,
        done: int,
    ) -> Controller {
        self.run(unlock).run(words.take(done)).run(lock)
    }
}

/// A run that has ended has done what its program says, with as many words as it wrote.
pub proof fn law_run_performs_its_program(c: Controller, p: FlashProgram, run: FlashRun)
    requires
        p.runs(run),
        p.step(run) is None,
    ensures
        c.run(p.made(run)) == c.perform(p.unlock@, p.words@, p.lock@, run.words as int),
{
    let words = p.words@.take(run.words as int);
    let script = p.script(run.words as int);
    assert(p.made(run) =~= script);
    lemma_run_in_parts(c, p.unlock@ + words, p.lock@);
    lemma_run_in_parts(c, p.unlock@, words);
}

/// Register writes may be made in two parts.
proof fn lemma_run_in_parts(c: Controller, a: Seq<(u16, u16)>, b: Seq<(u16, u16)>)
    ensures
        c.run(a + b) == c.run(a).run(b),
    decreases b.len(),
{
    if b.len() == 0 {
        assert(a + b =~= a);
    } else {
        lemma_run_in_parts(c, a, b.drop_last());
        assert((a + b).drop_last() =~= a + b.drop_last());
        assert((a + b).last() == b.last());
    }
}

/// Erasing a segment and then writing into it, both to the end, leaves the segment blank but for what was written, and
/// every other segment as it was.
pub proof fn law_erase_and_write(c: Controller, addr: u16, data: Seq<u8>, smclk: u32)
    requires
        NVRAM_BASE <= addr,
        addr + data.len() <= NVRAM_BASE + NVRAM_LEN,
        0 < data.len(),
        data.len() % 2 == 0,
        c.flash.len() == NVRAM_LEN,
    ensures
        ({
            let clear = c.perform(unlock_writes(ERASE, smclk), seq![(addr, 0u16)], lock_writes(), 1);
            let words = data_words(addr, data);
            let end = clear.perform(unlock_writes(WRT, smclk), words, lock_writes(), words.len() as int);
            &&& end.flash == programmed(erased(c.flash, addr - NVRAM_BASE), addr - NVRAM_BASE, data)
            &&& end.locked
        }),
{
    law_erase_program(c, addr, smclk);
    let clear = c.perform(unlock_writes(ERASE, smclk), seq![(addr, 0u16)], lock_writes(), 1);
    let half = data.len() as int / 2;
    law_write_program(clear, addr, data, smclk, half);
    assert(data.take(2 * half) =~= data);
    assert(data_words(addr, data).len() == half);
}

/// An erase program erases the segment it names and nothing else, and leaves the controller locked.
pub proof fn law_erase_program(c: Controller, addr: u16, smclk: u32)
    requires
        NVRAM_BASE <= addr < NVRAM_BASE + NVRAM_LEN,
    ensures
        ({
            let end = c.perform(unlock_writes(ERASE, smclk), seq![(addr, 0u16)], lock_writes(), 1);
            &&& end.flash == erased(c.flash, addr - NVRAM_BASE)
            &&& end.locked
        }),
{
    reveal_with_fuel(Controller::run, 5);
    let u = unlock_writes(ERASE, smclk);
    lemma_unlock(c, ERASE, smclk);
    let open = c.run(u);
    assert((0xa500u16 | 0x0002u16) & 0x0002u16 != 0) by (bit_vector);
    let one = seq![(addr, 0u16)];
    assert(one.take(1) =~= one);
    assert(one.drop_last() =~= Seq::empty());
    assert(one.last() == (addr, 0u16));
    lemma_lock(open.run(one));
}

/// A write program that is cut short after `done` words has written the first `2 * done` bytes and nothing
/// else, and leaves the controller locked; one that runs to its end has written all the data.
pub proof fn law_write_program(c: Controller, addr: u16, data: Seq<u8>, smclk: u32, done: int)
    requires
        NVRAM_BASE <= addr,
        addr + data.len() <= NVRAM_BASE + NVRAM_LEN,
        data.len() % 2 == 0,
        c.flash.len() == NVRAM_LEN,
        0 <= done <= data.len() / 2,
    ensures
        ({
            let end = c.perform(
                unlock_writes(WRT, smclk),
                data_words(addr, data),
                lock_writes(),
                done,
            );
            &&& end.flash == programmed(c.flash, addr - NVRAM_BASE, data.take(2 * done))
            &&& end.locked
        }),
{
    lemma_unlock(c, WRT, smclk);
    let open = c.run(unlock_writes(WRT, smclk));
    lemma_words(open, addr, data, done);
    lemma_lock(open.run(data_words(addr, data).take(done)));
}

/// The unlocking writes open the lock, set the mode, and touch nothing else.
proof fn lemma_unlock(c: Controller, mode: u16, smclk: u32)
    ensures
        c.run(unlock_writes(mode, smclk)) == (Controller {
            flash: c.flash,
            mode: FWKEY | mode,
            locked: false,
        }),
{
    reveal_with_fuel(Controller::run, 4);
    let u = unlock_writes(mode, smclk);
    assert(u.drop_last().drop_last().drop_last() =~= Seq::empty());
    assert(u.drop_last().drop_last().last() == u[0]);
    assert(u.drop_last().last() == u[1]);
    assert(0xa500u16 & 0x0010u16 == 0) by (bit_vector);
}

/// The locking writes close the lock and do not touch the flash.
proof fn lemma_lock(c: Controller)
    ensures
        c.run(lock_writes()) == (Controller { flash: c.flash, mode: FWKEY, locked: true }),
{
    reveal_with_fuel(Controller::run, 3);
    let u = lock_writes();
    assert(u.drop_last().drop_last() =~= Seq::empty());
    assert(u.drop_last().last() == u[0]);
    assert((0xa500u16 | 0x0010u16) & 0x0010u16 != 0) by (bit_vector);
}

/// Words written one after another write the bytes they are made of.
proof fn lemma_words(c: Controller, addr: u16, data: Seq<u8>, done: int)
    requires
        NVRAM_BASE <= addr,
        addr + data.len() <= NVRAM_BASE + NVRAM_LEN,
        data.len() % 2 == 0,
        c.flash.len() == NVRAM_LEN,
        !c.locked,
        c.mode == FWKEY | WRT,
        0 <= done <= data.len() / 2,
    ensures
        c.run(data_words(addr, data).take(done)) == (Controller {
            flash: programmed(c.flash, addr - NVRAM_BASE, data.take(2 * done)),
            ..c
        }),
    decreases done,
{
    let words = data_words(addr, data);
    if done == 0 {
        assert(words.take(0) =~= Seq::empty());
        assert(programmed(c.flash, addr - NVRAM_BASE, data.take(0)) =~= c.flash);
    } else {
        lemma_words(c, addr, data, done - 1);
        assert(words.take(done).drop_last() =~= words.take(done - 1));
        assert(words.take(done).last() == words[done - 1]);
        assert((0xa500u16 | 0x0040u16) & 0x0002u16 == 0) by (bit_vector);
        assert((0xa500u16 | 0x0040u16) & 0x0040u16 != 0) by (bit_vector);
        let w = words[done - 1];
        let before = programmed(c.flash, addr - NVRAM_BASE, data.take(2 * (done - 1)));
        let pair = seq![(w.1 % 0x100) as u8, (w.1 / 0x100) as u8];
        assert(pair[0] == data[2 * (done - 1)]);
        assert(pair[1] == data[2 * (done - 1) + 1]);
        assert(programmed(before, w.0 - NVRAM_BASE, pair) =~= programmed(
            c.flash,
            addr - NVRAM_BASE,
            data.take(2 * done),
        ));
    }
}

/// An erase sets every bit of one segment of 512 bytes, and no other; a write clears the bits that are clear in what is written,
/// and no other.
pub proof fn law_erasing_and_writing(flash: Seq<u8>, at: int, data: Seq<u8>, i: int)
    requires
        0 <= i < flash.len(),
    ensures
        erased(flash, at).len() == flash.len(),
        erased(flash, at)[i] == (if i / 512 == at / 512 {
            0xff
        } else {
            flash[i]
        }),
        programmed(flash, at, data).len() == flash.len(),
        programmed(flash, at, data)[i] == (if at <= i < at + data.len() {
            flash[i] & data[i - at]
        } else {
            flash[i]
        }),
{
}

/// What the controller is told: first the timing, with SMCLK as its clock and one less than the divider, then that the lock is
/// open, then the mode; and at the end that there is no mode and the lock is shut. The key goes with each.
pub proof fn law_controller_is_told(smclk: u32)
    ensures
        timing_word(smclk) == 0xa540 + divider_for(smclk) - 1,
        unlock_writes(ERASE, smclk) == seq![
            (0x012au16, timing_word(smclk)),
            (0x012cu16, 0xa500u16),
            (0x0128u16, 0xa502u16),
        ],
        unlock_writes(WRT, smclk) == seq![
            (0x012au16, timing_word(smclk)),
            (0x012cu16, 0xa500u16),
            (0x0128u16, 0xa540u16),
        ],
        lock_writes() == seq![(0x0128u16, 0xa500u16), (0x012cu16, 0xa510u16)],
        NVRAM_BASE == 0x3100 && NVRAM_LEN == 5 * 512,
{
    assert(0xa500u16 | 0x0002u16 == 0xa502u16 && 0xa500u16 | 0x0040u16 == 0xa540u16 && 0xa500u16 | 0x0010u16
        == 0xa510u16) by (bit_vector);
}

/// Bytes are written two at a time, the first of each pair as the lower half of a word, one word after another; a byte without a
/// partner goes with one that is left as erased.
pub proof fn law_words_are_pairs_of_bytes(addr: u16, data: Seq<u8>, i: int)
    requires
        0 <= i,
        2 * i < data.len(),
        addr + data.len() <= 0xffff,
    ensures
        data_words(addr, data).len() == (data.len() + 1) / 2,
        data_words(addr, data)[i].0 == addr + 2 * i,
        data_words(addr, data)[i].1 == data[2 * i] + 256 * (if 2 * i + 1 < data.len() {
            data[2 * i + 1]
        } else {
            255
        }),
{
}

} // verus!
