//! The fault-capture record and the terminal trap-handling logic.
//!
//! On an unrecoverable fault — an application panic or a hardware
//! exception — a trap handler emits a best-effort human-readable diagnostic
//! line through the channel writer, busy-waits so an attached reader can
//! drain it, records the last known execution state in a well-known record,
//! and leaves the processor to an idle loop that the caller provides. The
//! transition is terminal: `Running -> Faulted`, with `Faulted` absorbing.

use crate::channel::{write_spec, Output};
use vstd::prelude::*;
use vstd::string::StringSliceAdditionalSpecFns;

verus! {

/// Iterations of the busy-wait drain delay executed before halting.
pub const DRAIN_DELAY_STEPS: u32 = 50000;

/// The fault-capture record: a well-known memory location an external tool
/// inspects after the device has halted. Written at most once, by whichever
/// trap handler runs first; only a reboot clears it.
pub struct TriggerBacktrace {
    /// Zero while running; one once a trap handler has fired.
    pub trigger: u8,
    /// Faulting instruction address, as captured from the trap state.
    pub mepc: u32,
    /// Stack pointer at the moment of the fault.
    pub sp: u32,
}

impl TriggerBacktrace {
    /// The record is in the absorbing `Faulted` state of the
    /// `Running -> Faulted` transition; there is no way back.
    pub open spec fn is_faulted(self) -> bool {
        self.trigger == 1
    }

    /// The all-zero content the record holds from link time until a fault.
    pub fn cleared() -> (rec: TriggerBacktrace)
        ensures
            rec.trigger == 0u8,
            rec.mepc == 0u32,
            rec.sp == 0u32,
            !rec.is_faulted(),
    {
        TriggerBacktrace { trigger: 0, mepc: 0, sp: 0 }
    }
}

/// The decimal rendering of `n`: most significant digit first, no sign, no
/// leading zeroes (a lone `0` for zero).
pub open spec fn decimal_digits(n: nat) -> Seq<u8>
    decreases n,
{
    if n < 10 {
        seq![(n + 0x30) as u8]
    } else {
        decimal_digits(n / 10).push((n % 10 + 0x30) as u8)
    }
}

/// One lower-case hexadecimal digit for a value below sixteen.
pub open spec fn hex_digit(d: nat) -> u8 {
    if d < 10 {
        (d + 0x30) as u8
    } else {
        (d + 0x57) as u8
    }
}

/// The lower-case hexadecimal rendering of `n`: most significant digit
/// first, no prefix, no leading zeroes (a lone `0` for zero).
pub open spec fn hex_digits(n: nat) -> Seq<u8>
    decreases n,
{
    if n < 16 {
        seq![hex_digit(n)]
    } else {
        hex_digits(n / 16).push(hex_digit(n % 16))
    }
}

/// Render `n` in decimal.
pub fn u32_decimal(n: u32) -> (digits: Vec<u8>)
    ensures
        digits@ == decimal_digits(n as nat),
    decreases n,
{
    if n < 10 {
        let mut digits: Vec<u8> = Vec::new();
        digits.push(n as u8 + 0x30);
        digits
    } else {
        let mut digits = u32_decimal(n / 10);
        digits.push((n % 10) as u8 + 0x30);
        digits
    }
}

/// Render `n` in lower-case hexadecimal, as the diagnostic line shows the
/// faulting address.
pub fn u32_hex(n: u32) -> (digits: Vec<u8>)
    ensures
        digits@ == hex_digits(n as nat),
    decreases n,
{
    if n < 16 {
        let mut digits: Vec<u8> = Vec::new();
        let d = n as u8;
        if d < 10 {
            digits.push(d + 0x30);
        } else {
            digits.push(d + 0x57);
        }
        digits
    } else {
        let mut digits = u32_hex(n / 16);
        let d = (n % 16) as u8;
        if d < 10 {
            digits.push(d + 0x30);
        } else {
            digits.push(d + 0x57);
        }
        digits
    }
}

/// The human-readable meaning of an exception cause code, as bytes: the
/// fixed table for codes zero through fifteen, and "Unknown" for any other.
pub open spec fn fault_meaning_bytes(code: u32) -> Seq<u8> {
    if code == 0 {
        "Instruction address misaligned".spec_bytes()
    } else if code == 1 {
        "Instruction access fault".spec_bytes()
    } else if code == 2 {
        "Illegal instruction".spec_bytes()
    } else if code == 3 {
        "Breakpoint".spec_bytes()
    } else if code == 4 {
        "Load address misaligned".spec_bytes()
    } else if code == 5 {
        "Load access fault".spec_bytes()
    } else if code == 6 {
        "Store/AMO address misaligned".spec_bytes()
    } else if code == 7 {
        "Store/AMO access fault".spec_bytes()
    } else if code == 8 {
        "Environment call from U-mode".spec_bytes()
    } else if code == 9 {
        "Environment call from S-mode".spec_bytes()
    } else if code == 10 {
        "Reserved".spec_bytes()
    } else if code == 11 {
        "Environment call from M-mode".spec_bytes()
    } else if code == 12 {
        "Instruction page fault".spec_bytes()
    } else if code == 13 {
        "Load page fault".spec_bytes()
    } else if code == 14 {
        "Reserved".spec_bytes()
    } else if code == 15 {
        "Store/AMO page fault".spec_bytes()
    } else {
        "Unknown".spec_bytes()
    }
}

/// Map an exception cause code to its human-readable category.
pub fn fault_meaning(code: u32) -> (meaning: &'static str)
    ensures
        meaning.spec_bytes() == fault_meaning_bytes(code),
{
    match code {
        0 => "Instruction address misaligned",
        1 => "Instruction access fault",
        2 => "Illegal instruction",
        3 => "Breakpoint",
        4 => "Load address misaligned",
        5 => "Load access fault",
        6 => "Store/AMO address misaligned",
        7 => "Store/AMO access fault",
        8 => "Environment call from U-mode",
        9 => "Environment call from S-mode",
        10 => "Reserved",
        11 => "Environment call from M-mode",
        12 => "Instruction page fault",
        13 => "Load page fault",
        14 => "Reserved",
        15 => "Store/AMO page fault",
        _ => "Unknown",
    }
}

/// Append all of `src` to `dst`.
fn append_bytes(dst: &mut Vec<u8>, src: &[u8])
    ensures
        final(dst)@ == old(dst)@ + src@,
{
    let ghost pre = old(dst)@;
    let mut i: usize = 0;
    while i < src.len()
        invariant
            i <= src@.len(),
            dst@ == pre + src@.take(i as int),
        decreases src@.len() - i,
    {
        let b = *vstd::slice::slice_index_get(src, i);
        dst.push(b);
        i = i + 1;
        proof {
            assert(dst@ =~= pre + src@.take(i as int));
        }
    }
    proof {
        assert(pre + src@.take(src@.len() as int) =~= pre + src@);
    }
}

/// The diagnostic line a hardware exception emits: the numeric cause code,
/// its text meaning, and the faulting address, terminated like every line
/// the formatted-output layer produces.
pub open spec fn exception_line(code: u32, mepc: u32) -> Seq<u8> {
    "exception code ".spec_bytes() + decimal_digits(code as nat) + " (".spec_bytes()
        + fault_meaning_bytes(code) + ") at ".spec_bytes() + hex_digits(mepc as nat)
        + "\r\n".spec_bytes()
}

/// Render the hardware-exception diagnostic line.
pub fn render_exception_line(code: u32, mepc: u32) -> (line: Vec<u8>)
    ensures
        line@ == exception_line(code, mepc),
{
    let mut line: Vec<u8> = Vec::new();
    append_bytes(&mut line, "exception code ".as_bytes());
    let mut digits = u32_decimal(code);
    line.append(&mut digits);
    append_bytes(&mut line, " (".as_bytes());
    append_bytes(&mut line, fault_meaning(code).as_bytes());
    append_bytes(&mut line, ") at ".as_bytes());
    let mut address = u32_hex(mepc);
    line.append(&mut address);
    append_bytes(&mut line, "\r\n".as_bytes());
    line
}

/// The diagnostic line a panic emits: the fixed prefix, then the formatted
/// payload where one could be produced — a payload that cannot be formatted
/// is simply left out rather than allowed to fault again — then the line
/// terminator.
pub open spec fn panic_line(payload: Option<Seq<u8>>) -> Seq<u8> {
    match payload {
        Option::Some(p) => "PANIC! ".spec_bytes() + p + "\r\n".spec_bytes(),
        Option::None => "PANIC! ".spec_bytes() + "\r\n".spec_bytes(),
    }
}

/// The panic line for the payload as the handler receives it.
pub open spec fn panic_line_of(payload: Option<&[u8]>) -> Seq<u8> {
    match payload {
        Option::Some(p) => panic_line(Option::Some(p@)),
        Option::None => panic_line(Option::None),
    }
}

/// The fixed busy-wait executed after the diagnostic has been emitted, to
/// give an attached reader a window to drain the channel before the device
/// stops responding. Empirically sized, not time-calibrated.
fn drain_delay()
{
    let mut i: u32 = 0;
    while i < DRAIN_DELAY_STEPS
        invariant
            i <= DRAIN_DELAY_STEPS,
        decreases DRAIN_DELAY_STEPS - i,
    {
        i = i + 1;
    }
}

/// Terminal handling of an application panic, up to the point of halting:
/// emit the diagnostic line, busy-wait for the reader, then set the
/// fault-capture trigger. The caller then parks the processor for good.
///
/// The record's trigger is set for every payload — including one that could
/// not be formatted (`None`), which is dropped from the line rather than
/// retried, so reporting a fault can never fault again. A panic has no trap
/// frame, so the saved program counter and stack pointer keep their prior
/// (zero) values.
pub fn handle_panic(payload: Option<&[u8]>, out: &mut Output, rec: &mut TriggerBacktrace)
    requires
        old(out).control.wf(),
    ensures
        final(rec).trigger == 1u8,
        final(rec).is_faulted(),
        final(rec).mepc == old(rec).mepc,
        final(rec).sp == old(rec).sp,
        final(out).control.wf(),
        final(out).control.up.buf@ == write_spec(
            old(out).control.up.buf@,
            old(out).control.up.write_offset as int,
            panic_line_of(payload),
        ).0,
        final(out).control.up.write_offset as int == write_spec(
            old(out).control.up.buf@,
            old(out).control.up.write_offset as int,
            panic_line_of(payload),
        ).1,
        final(out).control.id == old(out).control.id,
        final(out).control.up_buffers == old(out).control.up_buffers,
        final(out).control.down_buffers == old(out).control.down_buffers,
        final(out).control.up.name == old(out).control.up.name,
        final(out).control.up.size_of_buffer == old(out).control.up.size_of_buffer,
        final(out).control.up.read_offset == old(out).control.up.read_offset,
        final(out).control.up.flags == old(out).control.up.flags,
{
    let mut line: Vec<u8> = Vec::new();
    append_bytes(&mut line, "PANIC! ".as_bytes());
    match payload {
        Option::Some(p) => append_bytes(&mut line, p),
        Option::None => (),
    }
    append_bytes(&mut line, "\r\n".as_bytes());
    proof {
        assert(line@ =~= panic_line_of(payload));
    }
    out.write(line.as_slice());
    drain_delay();
    rec.trigger = 1;
}

/// Terminal handling of a hardware exception, up to the point of halting:
/// map the low byte of the raw cause code through the fixed category table,
/// emit the diagnostic line with the numeric code, its meaning, and the
/// faulting address, busy-wait for the reader, then populate the whole
/// fault-capture record from the trap state. The caller then parks the
/// processor for good.
///
/// Deterministic: for a cause with low byte `c` and faulting address `a`,
/// the record ends with `trigger == 1`, `mepc == a`, `sp` as captured from
/// the trap frame, and the channel has received exactly
/// `exception_line(c, a)`, whose text is the table's entry for `c` (or
/// "Unknown" outside the mapped set of zero through fifteen).
pub fn handle_exception(cause: u32, mepc: u32, sp: u32, out: &mut Output, rec: &mut TriggerBacktrace)
    requires
        old(out).control.wf(),
    ensures
        final(rec).trigger == 1u8,
        final(rec).is_faulted(),
        final(rec).mepc == mepc,
        final(rec).sp == sp,
        final(out).control.wf(),
        final(out).control.up.buf@ == write_spec(
            old(out).control.up.buf@,
            old(out).control.up.write_offset as int,
            exception_line(cause & 0xff, mepc),
        ).0,
        final(out).control.up.write_offset as int == write_spec(
            old(out).control.up.buf@,
            old(out).control.up.write_offset as int,
            exception_line(cause & 0xff, mepc),
        ).1,
        final(out).control.id == old(out).control.id,
        final(out).control.up_buffers == old(out).control.up_buffers,
        final(out).control.down_buffers == old(out).control.down_buffers,
        final(out).control.up.name == old(out).control.up.name,
        final(out).control.up.size_of_buffer == old(out).control.up.size_of_buffer,
        final(out).control.up.read_offset == old(out).control.up.read_offset,
        final(out).control.up.flags == old(out).control.up.flags,
{
    let code = cause & 0xff;
    let line = render_exception_line(code, mepc);
    out.write(line.as_slice());
    drain_delay();
    rec.trigger = 1;
    rec.mepc = mepc;
    rec.sp = sp;
}

} // verus!
