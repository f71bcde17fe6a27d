use rtt_log::channel::Output;
use rtt_log::fault::{fault_meaning, handle_exception, handle_panic, u32_decimal, u32_hex, TriggerBacktrace};

#[test]
fn decimal_rendering() {
    assert_eq!(u32_decimal(0), b"0");
    assert_eq!(u32_decimal(7), b"7");
    assert_eq!(u32_decimal(42), b"42");
    assert_eq!(u32_decimal(1023), b"1023");
    assert_eq!(u32_decimal(u32::MAX), b"4294967295");
}

#[test]
fn hex_rendering() {
    assert_eq!(u32_hex(0), b"0");
    assert_eq!(u32_hex(9), b"9");
    assert_eq!(u32_hex(10), b"a");
    assert_eq!(u32_hex(0x1234), b"1234");
    assert_eq!(u32_hex(0xdeadbeef), b"deadbeef");
    assert_eq!(u32_hex(u32::MAX), b"ffffffff");
}

#[test]
fn meaning_table() {
    let expected: [&str; 16] = [
        "Instruction address misaligned",
        "Instruction access fault",
        "Illegal instruction",
        "Breakpoint",
        "Load address misaligned",
        "Load access fault",
        "Store/AMO address misaligned",
        "Store/AMO access fault",
        "Environment call from U-mode",
        "Environment call from S-mode",
        "Reserved",
        "Environment call from M-mode",
        "Instruction page fault",
        "Load page fault",
        "Reserved",
        "Store/AMO page fault",
    ];
    for (code, want) in expected.iter().enumerate() {
        assert_eq!(fault_meaning(code as u32), *want);
    }
    assert_eq!(fault_meaning(16), "Unknown");
    assert_eq!(fault_meaning(255), "Unknown");
    assert_eq!(fault_meaning(u32::MAX), "Unknown");
}

#[test]
fn cleared_record_is_not_faulted() {
    let rec = TriggerBacktrace::cleared();
    assert_eq!(rec.trigger, 0);
    assert_eq!(rec.mepc, 0);
    assert_eq!(rec.sp, 0);
}

#[test]
fn exception_capture_is_deterministic() {
    let mut out = Output::new();
    let mut rec = TriggerBacktrace::cleared();
    handle_exception(2, 0x1234, 0xbeef, &mut out, &mut rec);
    assert_eq!(rec.trigger, 1);
    assert_eq!(rec.mepc, 0x1234);
    assert_eq!(rec.sp, 0xbeef);
    let want = b"exception code 2 (Illegal instruction) at 1234\r\n";
    assert_eq!(&out.control.up.buf[..want.len()], &want[..]);
    assert_eq!(out.control.up.write_offset as usize, want.len());
}

#[test]
fn exception_unknown_code() {
    let mut out = Output::new();
    let mut rec = TriggerBacktrace::cleared();
    handle_exception(16, 0xabc, 0, &mut out, &mut rec);
    let want = b"exception code 16 (Unknown) at abc\r\n";
    assert_eq!(&out.control.up.buf[..want.len()], &want[..]);
    assert_eq!(rec.trigger, 1);
    assert_eq!(rec.mepc, 0xabc);
}

#[test]
fn exception_masks_low_byte_of_cause() {
    let mut out = Output::new();
    let mut rec = TriggerBacktrace::cleared();
    // Only the low byte of the raw cause code is mapped and printed.
    handle_exception(0x0000_0102, 0x40, 0, &mut out, &mut rec);
    let want = b"exception code 2 (Illegal instruction) at 40\r\n";
    assert_eq!(&out.control.up.buf[..want.len()], &want[..]);
}

#[test]
fn panic_emits_payload_and_triggers() {
    let mut out = Output::new();
    let mut rec = TriggerBacktrace::cleared();
    handle_panic(Some(b"index out of range"), &mut out, &mut rec);
    let want = b"PANIC! index out of range\r\n";
    assert_eq!(&out.control.up.buf[..want.len()], &want[..]);
    assert_eq!(rec.trigger, 1);
    // A panic has no trap frame: address and stack pointer stay zero.
    assert_eq!(rec.mepc, 0);
    assert_eq!(rec.sp, 0);
}

#[test]
fn panic_without_formattable_payload_still_triggers() {
    let mut out = Output::new();
    let mut rec = TriggerBacktrace::cleared();
    handle_panic(None, &mut out, &mut rec);
    let want = b"PANIC! \r\n";
    assert_eq!(&out.control.up.buf[..want.len()], &want[..]);
    assert_eq!(rec.trigger, 1);
}
