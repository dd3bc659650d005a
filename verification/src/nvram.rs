//! Keeping settings and counters across a power cut.
//!
//! Both live in on-chip flash, below the code. They are kept differently, because they are written at
//! wildly different rates.
//!
//! [`Settings`](crate::state::Settings) change when an engineer changes them, a few dozen times in a
//! machine's life, so they are simply rewritten into their own segment.
//!
//! [`Counters`](crate::state::Counters) change on every coin. Flash endures about ten thousand erases,
//! and a busy machine would burn through that in a season if each save erased a segment. So counters
//! are *journalled*: each save appends a fresh record after the last one, and a segment is erased only
//! when the journal comes round to it again.
//!
//! Every record carries a checksum, and the reader takes the newest one that passes. A save interrupted
//! by the power going off leaves a half-written record that fails its checksum, and the previous record,
//! still intact because nothing overwrote it, is what comes back.

pub mod codec;
pub mod event_log;
pub mod flash;
pub mod journal;
pub mod record;
pub mod ring;
pub mod stored;

pub use crate::nvram::event_log::{EventLog, EventLogEntry, EventWrite, EVENT_LOG_ENTRIES};
pub use crate::nvram::journal::{Journal, JournalSave};
pub use crate::nvram::stored::{load_settings, save_settings, SettingsWrite};
