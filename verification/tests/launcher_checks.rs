use wrapper_rust::launcher::{cap_sys_admin_granted, child_exit_code, parse_hex_u64_chars};
use wrapper_rust::text::IntErrorKind;

fn chars(s: &str) -> Vec<char> {
    s.chars().collect()
}

#[test]
fn cap_eff_with_sys_admin_bit_is_granted() {
    let status = "Name:\twrapper\nCapInh:\t0000000000000000\nCapEff:\t000001ffffffffff\nCapBnd:\t0\n";
    assert_eq!(cap_sys_admin_granted(status), Ok(true));
}

#[test]
fn cap_eff_without_sys_admin_bit_is_refused() {
    assert_eq!(cap_sys_admin_granted("CapEff:\t00000000a80425fb\n"), Ok(false));
    assert_eq!(cap_sys_admin_granted("CapEff:\t0000000000000000"), Ok(false));
}

#[test]
fn cap_eff_line_with_carriage_return_is_read() {
    assert_eq!(cap_sys_admin_granted("Name: x\r\nCapEff:\t0000000000200000\r\n"), Ok(true));
}

#[test]
fn first_cap_eff_line_decides() {
    assert_eq!(
        cap_sys_admin_granted("CapEff:\t0\nCapEff:\t0000000000200000\n"),
        Ok(false)
    );
}

#[test]
fn missing_cap_eff_is_an_error() {
    assert_eq!(
        cap_sys_admin_granted("Name:\twrapper\nCapPrm:\t0000000000200000\n"),
        Err("CapEff missing from /proc/self/status".to_string())
    );
    assert_eq!(
        cap_sys_admin_granted(""),
        Err("CapEff missing from /proc/self/status".to_string())
    );
}

#[test]
fn malformed_cap_eff_reports_the_parse_error() {
    assert_eq!(
        cap_sys_admin_granted("CapEff:\tzz\n"),
        Err("invalid CapEff value: invalid digit found in string".to_string())
    );
    assert_eq!(
        cap_sys_admin_granted("CapEff:   \n"),
        Err("invalid CapEff value: cannot parse integer from empty string".to_string())
    );
    assert_eq!(
        cap_sys_admin_granted("CapEff:\t11112222333344445\n"),
        Err("invalid CapEff value: number too large to fit in target type".to_string())
    );
}

#[test]
fn hex_parsing_follows_from_str_radix() {
    assert_eq!(parse_hex_u64_chars(&chars("ff")), Ok(255));
    assert_eq!(parse_hex_u64_chars(&chars("+FF")), Ok(255));
    assert_eq!(parse_hex_u64_chars(&chars("ffffffffffffffff")), Ok(u64::MAX));
    assert_eq!(parse_hex_u64_chars(&chars("")), Err(IntErrorKind::Empty));
    assert_eq!(parse_hex_u64_chars(&chars("+")), Err(IntErrorKind::InvalidDigit));
    assert_eq!(parse_hex_u64_chars(&chars("-1")), Err(IntErrorKind::InvalidDigit));
    assert_eq!(parse_hex_u64_chars(&chars("1g")), Err(IntErrorKind::InvalidDigit));
    assert_eq!(
        parse_hex_u64_chars(&chars("10000000000000000")),
        Err(IntErrorKind::PosOverflow)
    );
    assert_eq!(
        parse_hex_u64_chars(&chars("10000000000000000zz")),
        Err(IntErrorKind::PosOverflow)
    );
}

#[test]
fn child_exit_code_prefers_exit_status_then_signal() {
    assert_eq!(child_exit_code(Some(0), None), 0);
    assert_eq!(child_exit_code(Some(3), None), 3);
    assert_eq!(child_exit_code(None, Some(9)), 137);
    assert_eq!(child_exit_code(None, Some(15)), 143);
    assert_eq!(child_exit_code(None, None), 1);
}
