//! What the chroot launcher decides: whether the process may open a new PID
//! namespace (its effective capabilities hold `CAP_SYS_ADMIN`), and the exit
//! code it reports for the server child.
use vstd::prelude::*;

use crate::text::{
    chars_range, chars_to_string, int_error_message, push_str, split_chars, split_on,
    starts_with, starts_with_chars, str_chars, trim, trim_chars, IntErrorKind, fields_view,
    strip_plus,
};

verus! {

/// The bit of `CAP_SYS_ADMIN` in a capability mask.
pub const CAP_SYS_ADMIN_BIT: u64 = 0x20_0000;

/// The value of a hexadecimal digit, if `c` is one.
pub open spec fn hex_digit(c: char) -> Option<nat> {
    if '0' <= c && c <= '9' {
        Some((c as nat - '0' as nat) as nat)
    } else if 'a' <= c && c <= 'f' {
        Some((c as nat - 'a' as nat + 10) as nat)
    } else if 'A' <= c && c <= 'F' {
        Some((c as nat - 'A' as nat + 10) as nat)
    } else {
        None
    }
}

/// The number of leading hexadecimal digits of `s`.
pub open spec fn hex_run(s: Seq<char>) -> nat
    decreases s.len(),
{
    if s.len() > 0 && hex_digit(s[0]) is Some {
        1 + hex_run(s.drop_first())
    } else {
        0
    }
}

/// The value of a sequence of hexadecimal digits.
pub open spec fn hex_value(s: Seq<char>) -> nat
    decreases s.len(),
{
    if s.len() == 0 {
        0
    } else {
        hex_value(s.drop_last()) * 16 + match hex_digit(s.last()) {
            Some(d) => d,
            None => 0,
        }
    }
}

/// What `u64::from_str_radix(s, 16)` gives: an optional `+`, then
/// hexadecimal digits read left to right; the first digit that takes the
/// value past `u64::MAX` is an overflow, the first other character an
/// invalid digit.
pub open spec fn parse_hex_u64(s: Seq<char>) -> Result<nat, IntErrorKind> {
    if s.len() == 0 {
        Err(IntErrorKind::Empty)
    } else {
        let d = strip_plus(s);
        if d.len() == 0 {
            Err(IntErrorKind::InvalidDigit)
        } else if hex_value(d.subrange(0, hex_run(d) as int)) > u64::MAX {
            Err(IntErrorKind::PosOverflow)
        } else if hex_run(d) < d.len() {
            Err(IntErrorKind::InvalidDigit)
        } else {
            Ok(hex_value(d))
        }
    }
}

proof fn lemma_hex_run_at(s: Seq<char>, i: int)
    requires
        0 <= i <= s.len(),
        forall|k: int| 0 <= k < i ==> hex_digit(#[trigger] s[k]) is Some,
        i == s.len() || hex_digit(s[i]) is None,
    ensures
        hex_run(s) == i,
    decreases i,
{
    if i > 0 {
        lemma_hex_run_at(s.drop_first(), i - 1);
    }
}

proof fn lemma_hex_run_covers(s: Seq<char>, i: int)
    requires
        0 <= i <= s.len(),
        forall|k: int| 0 <= k < i ==> hex_digit(#[trigger] s[k]) is Some,
    ensures
        i <= hex_run(s) <= s.len(),
    decreases s.len(),
{
    if s.len() > 0 {
        if i > 0 {
            assert(hex_digit(s[0]) is Some);
            assert forall|k: int| 0 <= k < i - 1 implies hex_digit(#[trigger] s.drop_first()[k]) is Some by {
                assert(s.drop_first()[k] == s[k + 1]);
            }
            lemma_hex_run_covers(s.drop_first(), i - 1);
        } else if hex_digit(s[0]) is Some {
            lemma_hex_run_covers(s.drop_first(), 0);
        }
    }
}

proof fn lemma_hex_value_grows(s: Seq<char>, i: int, j: int)
    requires
        0 <= i <= j <= s.len(),
    ensures
        hex_value(s.subrange(0, i)) <= hex_value(s.subrange(0, j)),
    decreases j - i,
{
    if i < j {
        lemma_hex_value_grows(s, i, j - 1);
        let p = s.subrange(0, j);
        assert(p.drop_last() =~= s.subrange(0, j - 1));
    }
}

/// Reads a hexadecimal `u64` as `u64::from_str_radix(s, 16)` does.
pub fn parse_hex_u64_chars(s: &Vec<char>) -> (r: Result<u64, IntErrorKind>)
    ensures
        match parse_hex_u64(s@) {
            Ok(v) => v <= u64::MAX && r == Ok::<u64, IntErrorKind>(v as u64),
            Err(k) => r == Err::<u64, IntErrorKind>(k),
        },
{
    if s.len() == 0 {
        return Err(IntErrorKind::Empty);
    }
    let start: usize = if s[0] == '+' {
        1
    } else {
        0
    };
    let ghost d = strip_plus(s@);
    assert(d =~= s@.subrange(start as int, s@.len() as int));
    if start == s.len() {
        return Err(IntErrorKind::InvalidDigit);
    }
    let mut acc: u64 = 0;
    let mut i: usize = start;
    while i < s.len()
        invariant
            start <= i <= s@.len(),
            start < s@.len(),
            d == strip_plus(s@),
            d == s@.subrange(start as int, s@.len() as int),
            forall|k: int| 0 <= k < i - start ==> hex_digit(#[trigger] d[k]) is Some,
            acc as nat == hex_value(d.subrange(0, i - start)),
        decreases s.len() - i,
    {
        let c = s[i];
        let ghost k = (i - start) as int;
        proof {
            assert(d[k] == c);
        }
        let digit: u64 = if '0' <= c && c <= '9' {
            (c as u32 - '0' as u32) as u64
        } else if 'a' <= c && c <= 'f' {
            (c as u32 - 'a' as u32 + 10) as u64
        } else if 'A' <= c && c <= 'F' {
            (c as u32 - 'A' as u32 + 10) as u64
        } else {
            proof {
                lemma_hex_run_at(d, k);
                assert(d.subrange(0, k) =~= d.subrange(0, hex_run(d) as int));
            }
            return Err(IntErrorKind::InvalidDigit);
        };
        proof {
            assert(hex_digit(c) == Some(digit as nat));
            let next = d.subrange(0, k + 1);
            assert(next.drop_last() =~= d.subrange(0, k));
            assert(next.last() == c);
        }
        if acc > (u64::MAX - digit) / 16 {
            proof {
                assert(acc * 16 + digit > u64::MAX) by (nonlinear_arith)
                    requires
                        acc > (u64::MAX - digit) / 16,
                        digit <= 15,
                ;
                let run = hex_run(d) as int;
                lemma_hex_run_covers(d, k + 1);
                lemma_hex_value_grows(d, k + 1, run);
            }
            return Err(IntErrorKind::PosOverflow);
        }
        proof {
            assert(acc * 16 + digit <= u64::MAX) by (nonlinear_arith)
                requires
                    acc <= (u64::MAX - digit) / 16,
                    digit <= 15,
            ;
        }
        acc = acc * 16 + digit;
        i += 1;
    }
    proof {
        lemma_hex_run_at(d, d.len() as int);
        assert(d.subrange(0, d.len() as int) =~= d);
    }
    Ok(acc)
}

/// The text after `CapEff:` on the first line of `lines` that starts with it.
pub open spec fn cap_eff_text(lines: Seq<Seq<char>>) -> Option<Seq<char>>
    decreases lines.len(),
{
    if lines.len() == 0 {
        None
    } else if starts_with(lines[0], "CapEff:"@) {
        Some(lines[0].subrange(7, lines[0].len() as int))
    } else {
        cap_eff_text(lines.drop_first())
    }
}

/// What the process status text says of `CAP_SYS_ADMIN`: whether the
/// effective mask holds it, or why the mask cannot be read. A carriage
/// return before a line's end is removed with the surrounding whitespace.
pub open spec fn cap_sys_admin_of(status: Seq<char>) -> Result<bool, Seq<char>> {
    match cap_eff_text(split_on(status, '\n')) {
        None => Err("CapEff missing from /proc/self/status"@),
        Some(text) => match parse_hex_u64(trim(text)) {
            Err(k) => Err("invalid CapEff value: "@ + int_error_message(k)),
            Ok(mask) => Ok((mask as u64) & CAP_SYS_ADMIN_BIT != 0),
        },
    }
}

/// Whether the process may open a new PID namespace, from the text of
/// `/proc/self/status`.
pub fn cap_sys_admin_granted(status: &str) -> (r: Result<bool, String>)
    ensures
        match cap_sys_admin_of(status@) {
            Ok(b) => r == Ok::<bool, String>(b),
            Err(m) => r matches Err(e) && e@ == m,
        },
{
    let v = str_chars(status);
    let lines = split_chars(&v, '\n');
    let ghost lv = fields_view(lines@);
    let prefix = str_chars("CapEff:");
    proof {
        reveal_strlit("CapEff:");
    }
    let mut i: usize = 0;
    assert(lv.subrange(0, lv.len() as int) =~= lv);
    while i < lines.len()
        invariant
            i <= lines@.len(),
            lv == fields_view(lines@),
            lv == split_on(status@, '\n'),
            lv.len() == lines@.len(),
            prefix@ == "CapEff:"@,
            prefix@.len() == 7,
            cap_eff_text(lv) == cap_eff_text(lv.subrange(i as int, lv.len() as int)),
        decreases lines.len() - i,
    {
        let ghost rest = lv.subrange(i as int, lv.len() as int);
        proof {
            assert(rest.drop_first() =~= lv.subrange(i + 1, lv.len() as int));
            assert(rest[0] == lines@[i as int]@);
        }
        if starts_with_chars(&lines[i], &prefix) {
            let text = chars_range(&lines[i], 7, lines[i].len());
            let trimmed = trim_chars(&text);
            proof {
                assert(cap_eff_text(lv) == Some(text@));
            }
            return match parse_hex_u64_chars(&trimmed) {
                Ok(mask) => {
                    assert(parse_hex_u64(trim(text@)) == Ok::<nat, IntErrorKind>(mask as nat));
                    Ok(mask & CAP_SYS_ADMIN_BIT != 0)
                },
                Err(k) => {
                    let mut m: Vec<char> = Vec::new();
                    push_str(&mut m, "invalid CapEff value: ");
                    push_str(&mut m, k.message());
                    proof {
                        reveal_strlit("invalid CapEff value: ");
                    }
                    Err(chars_to_string(&m))
                },
            };
        }
        i += 1;
    }
    Err("CapEff missing from /proc/self/status".to_string())
}

/// The exit code the launcher reports for its child: the child's own exit
/// code, 128 plus the signal that ended it, else 1.
pub fn child_exit_code(exit_code: Option<i32>, term_signal: Option<i32>) -> (code: i32)
    requires
        term_signal matches Some(s) ==> s <= i32::MAX - 128,
    ensures
        code == match exit_code {
            Some(c) => c as int,
            None => match term_signal {
                Some(s) => 128 + s,
                None => 1,
            },
        },
{
    match exit_code {
        Some(c) => c,
        None => match term_signal {
            Some(s) => 128 + s,
            None => 1,
        },
    }
}

} // verus!
