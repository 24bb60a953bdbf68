//! Log filtering and formatting for the native decryptor: Android log
//! priorities, the levels shown for each target, and the written line.
use vstd::prelude::*;

use crate::text::{chars_to_string, decimal, push_all, push_decimal, push_signed_decimal, push_str, signed_decimal, starts_with, str_chars};

verus! {

/// The level of an Android log priority: up to 3 is DEBUG, 4 INFO, 5 WARN,
/// and 6 and above ERROR.
pub open spec fn priority_level(prio: i32) -> Seq<char> {
    if prio <= 3 {
        "DEBUG"@
    } else if prio == 4 {
        "INFO"@
    } else if prio == 5 {
        "WARN"@
    } else {
        "ERROR"@
    }
}

/// The level of an Android log priority.
pub fn android_log_level(prio: i32) -> (level: &'static str)
    ensures
        level@ == priority_level(prio),
{
    if prio <= 3 {
        "DEBUG"
    } else if prio == 4 {
        "INFO"
    } else if prio == 5 {
        "WARN"
    } else {
        "ERROR"
    }
}

/// Native targets log their INFO events at DEBUG.
pub open spec fn effective_level_of(level: Seq<char>, target: Seq<char>) -> Seq<char> {
    if starts_with(target, "ffi::"@) && level == "INFO"@ {
        "DEBUG"@
    } else {
        level
    }
}

/// The level an event is written at.
pub fn effective_level<'a>(level: &'a str, target: &str) -> (r: &'a str)
    ensures
        r@ == effective_level_of(level@, target@),
{
    let t = str_chars(target);
    let l = str_chars(level);
    if crate::text::starts_with_chars(&t, &str_chars("ffi::")) && crate::text::chars_eq_str(&l, "INFO") {
        "DEBUG"
    } else {
        level
    }
}

/// DEBUG is written for native targets only; INFO, WARN and ERROR always;
/// other levels never.
pub open spec fn shown(level: Seq<char>, target: Seq<char>) -> bool {
    if level == "DEBUG"@ {
        starts_with(target, "ffi::"@)
    } else {
        level == "INFO"@ || level == "WARN"@ || level == "ERROR"@
    }
}

/// Whether an event at `level` for `target` is written.
pub fn should_emit(level: &str, target: &str) -> (b: bool)
    ensures
        b == shown(level@, target@),
{
    let l = str_chars(level);
    if crate::text::chars_eq_str(&l, "DEBUG") {
        let t = str_chars(target);
        crate::text::starts_with_chars(&t, &str_chars("ffi::"))
    } else {
        crate::text::chars_eq_str(&l, "INFO") || crate::text::chars_eq_str(&l, "WARN")
            || crate::text::chars_eq_str(&l, "ERROR")
    }
}

/// An event to write: its level, target and message.
#[derive(Debug)]
pub struct LogRecord {
    pub level: &'static str,
    pub target: String,
    pub message: String,
}

/// The message of an Android log event.
pub open spec fn android_message(prio: i32, message: Seq<char>) -> Seq<char> {
    "prio="@ + signed_decimal(prio as int) + " "@ + message
}

/// The target of an Android log event.
pub open spec fn android_target(target: Seq<char>) -> Seq<char> {
    "ffi::android::"@ + target
}

/// Builds the message of an Android log event.
pub fn android_log_message(prio: i32, message: &str) -> (s: String)
    ensures
        s@ == android_message(prio, message@),
{
    let mut out: Vec<char> = Vec::new();
    push_str(&mut out, "prio=");
    push_signed_decimal(&mut out, prio as i64);
    push_str(&mut out, " ");
    push_str(&mut out, message);
    assert(out@ =~= android_message(prio, message@));
    chars_to_string(&out)
}

/// The event that an Android log call produces, under the native target
/// scope, or `None` when its level is not written.
pub fn emit_android_log(prio: i32, target: &str, message: &str) -> (r: Option<LogRecord>)
    ensures
        ({
            let t = android_target(target@);
            let level = effective_level_of(priority_level(prio), t);
            if shown(level, t) {
                r matches Some(rec) && rec.level@ == level && rec.target@ == t && rec.message@
                    == android_message(prio, message@)
            } else {
                r is None
            }
        }),
{
    let scoped = crate::text::concat2("ffi::android::", target);
    let base = android_log_level(prio);
    let level: &'static str = effective_level(base, scoped.as_str());
    assert(level@ == effective_level_of(priority_level(prio), android_target(target@)));
    if should_emit(level, scoped.as_str()) {
        Some(LogRecord { level, target: scoped, message: android_log_message(prio, message) })
    } else {
        None
    }
}

/// Law: every Android log event is written: its target is native, so its
/// level is shown.
pub proof fn law_android_events_always_written(prio: i32, target: Seq<char>)
    ensures
        shown(effective_level_of(priority_level(prio), android_target(target)), android_target(target)),
{
    reveal_strlit("ffi::");
    reveal_strlit("ffi::android::");
    let t = android_target(target);
    assert(t.subrange(0, 5) =~= "ffi::"@);
    assert(starts_with(t, "ffi::"@));
}

/// `n` right-aligned in `width` columns.
pub open spec fn right_aligned(s: Seq<char>, width: nat) -> Seq<char> {
    if s.len() >= width {
        s
    } else {
        Seq::new((width - s.len()) as nat, |i: int| ' ') + s
    }
}

/// `s` left-aligned in `width` columns.
pub open spec fn left_aligned(s: Seq<char>, width: nat) -> Seq<char> {
    if s.len() >= width {
        s
    } else {
        s + Seq::new((width - s.len()) as nat, |i: int| ' ')
    }
}

/// `s` padded with leading zeros to `width` digits.
pub open spec fn zero_padded(s: Seq<char>, width: nat) -> Seq<char> {
    if s.len() >= width {
        s
    } else {
        Seq::new((width - s.len()) as nat, |i: int| '0') + s
    }
}

/// A written log line: time, level, thread, target and message.
pub open spec fn log_line(secs: u64, millis: u32, level: Seq<char>, thread: Seq<char>, target: Seq<char>, message: Seq<char>) -> Seq<char> {
    "["@ + right_aligned(decimal(secs as nat), 10) + "."@ + zero_padded(decimal(millis as nat), 3) + "] ["@
        + left_aligned(level, 5) + "] ["@ + thread + "] ["@ + target + "] "@ + message
}

fn push_fill(out: &mut Vec<char>, c: char, n: usize)
    ensures
        final(out)@ == old(out)@ + Seq::new(n as nat, |i: int| c),
{
    let mut k: usize = 0;
    while k < n
        invariant
            k <= n,
            out@ == old(out)@ + Seq::new(k as nat, |i: int| c),
        decreases n - k,
    {
        out.push(c);
        assert(old(out)@ + Seq::new((k + 1) as nat, |i: int| c) =~= (old(out)@ + Seq::new(k as nat, |i: int| c)).push(c));
        k += 1;
    }
}

fn push_right_aligned(out: &mut Vec<char>, s: &Vec<char>, width: usize)
    ensures
        final(out)@ == old(out)@ + right_aligned(s@, width as nat),
{
    if s.len() < width {
        push_fill(out, ' ', width - s.len());
    }
    push_all(out, s);
    assert(out@ =~= old(out)@ + right_aligned(s@, width as nat));
}

fn push_zero_padded(out: &mut Vec<char>, s: &Vec<char>, width: usize)
    ensures
        final(out)@ == old(out)@ + zero_padded(s@, width as nat),
{
    if s.len() < width {
        push_fill(out, '0', width - s.len());
    }
    push_all(out, s);
    assert(out@ =~= old(out)@ + zero_padded(s@, width as nat));
}

fn push_left_aligned(out: &mut Vec<char>, s: &Vec<char>, width: usize)
    ensures
        final(out)@ == old(out)@ + left_aligned(s@, width as nat),
{
    push_all(out, s);
    if s.len() < width {
        push_fill(out, ' ', width - s.len());
    }
    assert(out@ =~= old(out)@ + left_aligned(s@, width as nat));
}

/// Writes one log line.
pub fn format_log_line(secs: u64, millis: u32, level: &str, thread: &str, target: &str, message: &str) -> (s: String)
    ensures
        s@ == log_line(secs, millis, level@, thread@, target@, message@),
{
    let mut d: Vec<char> = Vec::new();
    push_decimal(&mut d, secs);
    assert(d@ =~= decimal(secs as nat));
    let mut m: Vec<char> = Vec::new();
    push_decimal(&mut m, millis as u64);
    assert(m@ =~= decimal(millis as nat));
    let lv = str_chars(level);
    let mut out: Vec<char> = Vec::new();
    push_str(&mut out, "[");
    push_right_aligned(&mut out, &d, 10);
    push_str(&mut out, ".");
    push_zero_padded(&mut out, &m, 3);
    push_str(&mut out, "] [");
    push_left_aligned(&mut out, &lv, 5);
    push_str(&mut out, "] [");
    push_str(&mut out, thread);
    push_str(&mut out, "] [");
    push_str(&mut out, target);
    push_str(&mut out, "] ");
    push_str(&mut out, message);
    assert(out@ =~= log_line(secs, millis, level@, thread@, target@, message@));
    chars_to_string(&out)
}

} // verus!
