//! Log filtering for the download daemon: DEBUG events only when the
//! operator asked for them, Android shim events on the same sink.
use vstd::prelude::*;

use crate::logging::{android_log_level, android_log_message, android_message, priority_level, LogRecord};
use crate::text::{ascii_lower, contains, contains_chars, lower_chars, str_chars};

verus! {

/// Whether the `WRAPPER_LOG` setting asks for DEBUG events: it mentions
/// `debug` in any case.
pub open spec fn debug_asked(value: Option<Seq<char>>) -> bool {
    match value {
        Some(v) => contains(ascii_lower(v), "debug"@),
        None => false,
    }
}

/// Reads the `WRAPPER_LOG` setting.
pub fn debug_requested(value: Option<&str>) -> (b: bool)
    ensures
        b == debug_asked(match value { Some(v) => Some(v@), None => None }),
{
    match value {
        Some(v) => {
            let c = str_chars(v);
            let l = lower_chars(&c);
            contains_chars(&l, &str_chars("debug"))
        },
        None => false,
    }
}

/// INFO, WARN and ERROR are always written; DEBUG when asked for.
pub open spec fn daemon_shown(level: Seq<char>, debug_enabled: bool) -> bool {
    level == "INFO"@ || level == "WARN"@ || level == "ERROR"@ || (debug_enabled && level == "DEBUG"@)
}

/// Whether an event at `level` is written.
pub fn should_emit(level: &str, debug_enabled: bool) -> (b: bool)
    ensures
        b == daemon_shown(level@, debug_enabled),
{
    let l = str_chars(level);
    crate::text::chars_eq_str(&l, "INFO") || crate::text::chars_eq_str(&l, "WARN")
        || crate::text::chars_eq_str(&l, "ERROR") || (debug_enabled && crate::text::chars_eq_str(&l, "DEBUG"))
}

/// The event that an Android log call produces under `target`, or `None`
/// when its level is not written.
pub fn emit_android_log(prio: i32, target: &str, message: &str, debug_enabled: bool) -> (r: Option<LogRecord>)
    ensures
        daemon_shown(priority_level(prio), debug_enabled) ==> (r matches Some(rec) && rec.level@
            == priority_level(prio) && rec.target@ == target@ && rec.message@ == android_message(prio, message@)),
        !daemon_shown(priority_level(prio), debug_enabled) ==> r is None,
{
    let level = android_log_level(prio);
    if should_emit(level, debug_enabled) {
        Some(LogRecord { level, target: target.to_string(), message: android_log_message(prio, message) })
    } else {
        None
    }
}

/// Law: without DEBUG asked for, only priorities above 3 are written; with
/// it, every priority is.
pub proof fn law_android_priorities_shown(prio: i32, debug_enabled: bool)
    ensures
        daemon_shown(priority_level(prio), debug_enabled) <==> (prio > 3 || debug_enabled),
{
    reveal_strlit("DEBUG");
    reveal_strlit("INFO");
    reveal_strlit("WARN");
    reveal_strlit("ERROR");
    assert("DEBUG"@.len() != "INFO"@.len());
    assert("DEBUG"@.len() != "WARN"@.len());
    assert("DEBUG"@[0] != "ERROR"@[0]);
    assert("DEBUG"@ != "INFO"@ && "DEBUG"@ != "WARN"@ && "DEBUG"@ != "ERROR"@);
}

} // verus!
