//! Vault event records: which events there are, which verbosity shows
//! them, and the text each one is reported with. Printing them (with a
//! timestamp and colors) is left to the caller.

use vstd::prelude::*;

use crate::primitives::{hex_encode, hex_encode_spec};

verus! {

/// `s.push_str(t)`: appends the string slice.
#[verifier::external_body]
pub(crate) fn string_push_str(s: &mut String, t: &str)
    ensures
        final(s)@ == old(s)@ + t@,
{
    s.push_str(t);
}

/// Vault event types for structured logging.
#[derive(Debug, Clone)]
pub enum VaultEvent {
    /// A new vault was created.
    VaultCreated {
        /// Vault ID
        vid: [u8; 16],
    },
    /// Vault was unlocked.
    VaultUnlocked {
        /// Vault ID
        vid: [u8; 16],
    },
    /// Vault was locked.
    VaultLocked {
        /// Vault ID
        vid: [u8; 16],
    },
    /// Object was added.
    ObjectAdded {
        /// Vault ID
        vid: [u8; 16],
        /// Object ID
        object_id: [u8; 16],
    },
    /// Object was read.
    ObjectRead {
        /// Vault ID
        vid: [u8; 16],
        /// Object ID
        object_id: [u8; 16],
    },
    /// Object was deleted.
    ObjectDeleted {
        /// Vault ID
        vid: [u8; 16],
        /// Object ID
        object_id: [u8; 16],
    },
    /// An error occurred.
    Error {
        /// Error message
        message: String,
    },
}

/// Log verbosity level.
#[derive(Debug, Clone, Copy, PartialEq, Eq, Structural)]
pub enum LogLevel {
    /// No output
    Silent,
    /// Errors only
    Error,
    /// Informational
    Info,
    /// Verbose debug
    Debug,
}

impl Default for LogLevel {
    fn default() -> (l: Self)
        ensures
            l == LogLevel::Silent,
    {
        LogLevel::Silent
    }
}

/// A rendered event: whether it is an error, and its message.
pub struct LogRecord {
    /// Reported at error level (else at info level).
    pub is_error: bool,
    /// Message text.
    pub message: String,
}

/// Message of an event: an action and the lowercase hex of the ids, or an
/// error's own message.
pub open spec fn event_message(e: VaultEvent) -> Seq<char> {
    match e {
        VaultEvent::VaultCreated { vid } => "Vault CREATED (VID="@ + hex_encode_spec(vid@) + ")"@,
        VaultEvent::VaultUnlocked { vid } => "Vault UNLOCKED (VID="@ + hex_encode_spec(vid@)
            + ")"@,
        VaultEvent::VaultLocked { vid } => "Vault LOCKED (VID="@ + hex_encode_spec(vid@) + ")"@,
        VaultEvent::ObjectAdded { vid, object_id } => "Object ADDED (VID="@ + hex_encode_spec(vid@)
            + " OID="@ + hex_encode_spec(object_id@) + ")"@,
        VaultEvent::ObjectRead { vid, object_id } => "Object READ (VID="@ + hex_encode_spec(vid@)
            + " OID="@ + hex_encode_spec(object_id@) + ")"@,
        VaultEvent::ObjectDeleted { vid, object_id } => "Object DELETED (VID="@ + hex_encode_spec(
            vid@,
        ) + " OID="@ + hex_encode_spec(object_id@) + ")"@,
        VaultEvent::Error { message } => message@,
    }
}

fn vid_message(prefix: &str, vid: &[u8; 16]) -> (r: String)
    ensures
        r@ == prefix@ + hex_encode_spec(vid@) + ")"@,
{
    let mut m = prefix.to_owned();
    let h = hex_encode(vid);
    string_push_str(&mut m, h.as_str());
    string_push_str(&mut m, ")");
    m
}

fn object_message(prefix: &str, vid: &[u8; 16], object_id: &[u8; 16]) -> (r: String)
    ensures
        r@ == prefix@ + hex_encode_spec(vid@) + " OID="@ + hex_encode_spec(object_id@) + ")"@,
{
    let mut m = prefix.to_owned();
    let h = hex_encode(vid);
    string_push_str(&mut m, h.as_str());
    string_push_str(&mut m, " OID=");
    let o = hex_encode(object_id);
    string_push_str(&mut m, o.as_str());
    string_push_str(&mut m, ")");
    m
}

/// Render an event as `event_message` states; errors are marked as such.
pub fn render_event(event: &VaultEvent) -> (r: LogRecord)
    ensures
        r.message@ == event_message(*event),
        r.is_error == (event is Error),
{
    match event {
        VaultEvent::VaultCreated { vid } => LogRecord {
            is_error: false,
            message: vid_message("Vault CREATED (VID=", vid),
        },
        VaultEvent::VaultUnlocked { vid } => LogRecord {
            is_error: false,
            message: vid_message("Vault UNLOCKED (VID=", vid),
        },
        VaultEvent::VaultLocked { vid } => LogRecord {
            is_error: false,
            message: vid_message("Vault LOCKED (VID=", vid),
        },
        VaultEvent::ObjectAdded { vid, object_id } => LogRecord {
            is_error: false,
            message: object_message("Object ADDED (VID=", vid, object_id),
        },
        VaultEvent::ObjectRead { vid, object_id } => LogRecord {
            is_error: false,
            message: object_message("Object READ (VID=", vid, object_id),
        },
        VaultEvent::ObjectDeleted { vid, object_id } => LogRecord {
            is_error: false,
            message: object_message("Object DELETED (VID=", vid, object_id),
        },
        VaultEvent::Error { message } => LogRecord { is_error: true, message: message.clone() },
    }
}

/// Logger of vault events: what to report for an event (none when the
/// level hides it); the caller prints it.
pub trait VaultLogger {
    /// The record to report for an event, if any.
    fn log(&self, event: &VaultEvent) -> Option<LogRecord>;

    /// Set the verbosity.
    fn set_level(&mut self, level: LogLevel);
}

/// Logger that reports every event unless silenced.
pub struct SimpleLogger {
    level: LogLevel,
}

impl SimpleLogger {
    /// The verbosity.
    pub closed spec fn spec_level(&self) -> LogLevel {
        self.level
    }

    /// A logger at `Info` level.
    pub fn new() -> (l: Self)
        ensures
            l.spec_level() == LogLevel::Info,
    {
        Self { level: LogLevel::Info }
    }
}

impl Default for SimpleLogger {
    fn default() -> (l: Self)
        ensures
            l.spec_level() == LogLevel::Info,
    {
        Self::new()
    }
}

impl VaultLogger for SimpleLogger {
    fn log(&self, event: &VaultEvent) -> (r: Option<LogRecord>)
        ensures
            r is None <==> self.spec_level() == LogLevel::Silent,
            r matches Some(rec) ==> rec.message@ == event_message(*event) && rec.is_error == (
            event is Error),
    {
        if self.level == LogLevel::Silent {
            return None;
        }
        Some(render_event(event))
    }

    fn set_level(&mut self, level: LogLevel)
        ensures
            final(self).spec_level() == level,
    {
        self.level = level;
    }
}

/// Logger that reports nothing.
pub struct NullLogger;

impl VaultLogger for NullLogger {
    fn log(&self, event: &VaultEvent) -> (r: Option<LogRecord>)
        ensures
            r is None,
    {
        None
    }

    fn set_level(&mut self, level: LogLevel) {
    }
}

} // verus!
