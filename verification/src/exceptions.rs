//! The CPU exceptions that the kernel handles, and the lines that their
//! handlers report.

use vstd::prelude::*;
use vstd::string::StringExecFns;

verus! {

/// The digit that stands for a number below sixteen, in upper case.
pub open spec fn hex_digit(nibble: u8) -> Seq<char> {
    if nibble == 0 {
        "0"@
    } else if nibble == 1 {
        "1"@
    } else if nibble == 2 {
        "2"@
    } else if nibble == 3 {
        "3"@
    } else if nibble == 4 {
        "4"@
    } else if nibble == 5 {
        "5"@
    } else if nibble == 6 {
        "6"@
    } else if nibble == 7 {
        "7"@
    } else if nibble == 8 {
        "8"@
    } else if nibble == 9 {
        "9"@
    } else if nibble == 10 {
        "A"@
    } else if nibble == 11 {
        "B"@
    } else if nibble == 12 {
        "C"@
    } else if nibble == 13 {
        "D"@
    } else if nibble == 14 {
        "E"@
    } else {
        "F"@
    }
}

/// A byte as `0x` and two hexadecimal digits.
pub open spec fn hex_byte(code: u8) -> Seq<char> {
    "0x"@ + hex_digit(code / 16) + hex_digit(code % 16)
}

/// What every report starts with: the mnemonic and the vector number.
pub open spec fn banner_text(mnemonic: Seq<char>, code: u8) -> Seq<char> {
    "(#"@ + mnemonic + ", "@ + hex_byte(code) + ")"@
}

/// The report of an exception without an error code.
pub open spec fn plain_report(mnemonic: Seq<char>, code: u8, stack_frame: Seq<char>) -> Seq<char> {
    banner_text(mnemonic, code) + " @ "@ + stack_frame
}

/// The report of an exception with an error code.
pub open spec fn coded_report(
    mnemonic: Seq<char>,
    code: u8,
    stack_frame: Seq<char>,
    err_code: Seq<char>,
) -> Seq<char> {
    plain_report(mnemonic, code, stack_frame) + ", E="@ + err_code
}

/// The hexadecimal digits of a number, the lowest first.
pub open spec fn low_digits(value: u64) -> Seq<u8>
    decreases value,
{
    if value < 16 {
        seq![value as u8]
    } else {
        seq![(value % 16) as u8] + low_digits(value / 16)
    }
}

/// How the digit at a place is written: the digit, and behind it an
/// underscore where the place is a fourth place but the lowest, so that
/// the digits stand in groups of four.
pub open spec fn piece(digit: u8, place: int) -> Seq<char> {
    if place > 0 && place % 4 == 0 {
        hex_digit(digit) + "_"@
    } else {
        hex_digit(digit)
    }
}

/// The digits from a place upwards as text, the highest first.
pub open spec fn places_from(digits: Seq<u8>, place: int) -> Seq<char>
    decreases digits.len() - place,
{
    if place < 0 || place >= digits.len() {
        Seq::empty()
    } else {
        places_from(digits, place + 1) + piece(digits[place], place)
    }
}

/// An address as text: `0x` and its hexadecimal digits in upper case,
/// without leading zeros, in groups of four from the right with an
/// underscore between the groups.
pub open spec fn hex_address(value: u64) -> Seq<char> {
    "0x"@ + places_from(low_digits(value), 0)
}

/// The report of an exception with an error code and a faulting address.
pub open spec fn fault_report(
    mnemonic: Seq<char>,
    code: u8,
    stack_frame: Seq<char>,
    err_code: Seq<char>,
    addr: u64,
) -> Seq<char> {
    coded_report(mnemonic, code, stack_frame, err_code) + ", ADDR="@ + hex_address(addr)
}

fn digit(nibble: u8) -> (text: &'static str)
    requires
        nibble < 16,
    ensures
        text@ == hex_digit(nibble),
{
    if nibble == 0 {
        "0"
    } else if nibble == 1 {
        "1"
    } else if nibble == 2 {
        "2"
    } else if nibble == 3 {
        "3"
    } else if nibble == 4 {
        "4"
    } else if nibble == 5 {
        "5"
    } else if nibble == 6 {
        "6"
    } else if nibble == 7 {
        "7"
    } else if nibble == 8 {
        "8"
    } else if nibble == 9 {
        "9"
    } else if nibble == 10 {
        "A"
    } else if nibble == 11 {
        "B"
    } else if nibble == 12 {
        "C"
    } else if nibble == 13 {
        "D"
    } else if nibble == 14 {
        "E"
    } else {
        "F"
    }
}

/// What every report starts with: `(#`, the mnemonic, the vector number as
/// `0x` and two upper-case hexadecimal digits, and `)`.
pub fn banner(mnemonic: &str, code: u8) -> (text: String)
    ensures
        text@ == banner_text(mnemonic@, code),
{
    let mut text = String::from_str("(#");
    text.append(mnemonic);
    text.append(", ");
    text.append("0x");
    text.append(digit(code / 16));
    text.append(digit(code % 16));
    text.append(")");
    proof {
        assert(text@ =~= banner_text(mnemonic@, code));
    }
    text
}

fn plain(mnemonic: &str, code: u8, stack_frame: &str) -> (report: String)
    ensures
        report@ == plain_report(mnemonic@, code, stack_frame@),
{
    let mut report = banner(mnemonic, code);
    report.append(" @ ");
    report.append(stack_frame);
    report
}

fn coded(mnemonic: &str, code: u8, stack_frame: &str, err_code: &str) -> (report: String)
    ensures
        report@ == coded_report(mnemonic@, code, stack_frame@, err_code@),
{
    let mut report = plain(mnemonic, code, stack_frame);
    report.append(", E=");
    report.append(err_code);
    report
}

/// An address as text: `0x` and its hexadecimal digits in upper case,
/// without leading zeros, in groups of four from the right with an
/// underscore between the groups.
pub fn address_text(value: u64) -> (text: String)
    ensures
        text@ == hex_address(value),
{
    let mut digits: Vec<u8> = Vec::new();
    let mut rest: u64 = value;
    while rest >= 16
        invariant
            low_digits(value) == digits@ + low_digits(rest),
            forall|k: int| 0 <= k < digits@.len() ==> digits@[k] < 16,
        decreases rest,
    {
        proof {
            assert(digits@.push((rest % 16) as u8) + low_digits(rest / 16) =~= digits@ + low_digits(
                rest,
            ));
        }
        digits.push((rest % 16) as u8);
        rest = rest / 16;
    }
    proof {
        assert(digits@.push(rest as u8) =~= digits@ + low_digits(rest));
    }
    digits.push(rest as u8);
    let mut text = String::from_str("0x");
    let mut place: usize = digits.len();
    proof {
        assert(text@ + places_from(digits@, place as int) =~= text@);
    }
    while place > 0
        invariant
            place <= digits@.len(),
            forall|k: int| 0 <= k < digits@.len() ==> digits@[k] < 16,
            text@ == "0x"@ + places_from(digits@, place as int),
        decreases place,
    {
        place -= 1;
        let ghost before = text@;
        text.append(digit(digits[place]));
        if place > 0 && place % 4 == 0 {
            text.append("_");
        }
        proof {
            assert(text@ =~= before + piece(digits@[place as int], place as int));
            assert(text@ =~= "0x"@ + places_from(digits@, place as int));
        }
    }
    text
}

fn fault(mnemonic: &str, code: u8, stack_frame: &str, err_code: &str, addr: u64) -> (report: String)
    ensures
        report@ == fault_report(mnemonic@, code, stack_frame@, err_code@, addr),
{
    let mut report = coded(mnemonic, code, stack_frame, err_code);
    report.append(", ADDR=");
    let address = address_text(addr);
    report.append(address.as_str());
    report
}

/// Division error, vector 0. Fatal.
pub struct DivisionError;

impl DivisionError {
    pub const CODE: u8 = 0x00;

    pub const MNEMONIC: &'static str = "DE";

    /// The line with which the kernel panics, given the stack frame as
    /// text.
    pub fn handler(stack_frame: &str) -> (report: String)
        ensures
            report@ == plain_report("DE"@, 0x00, stack_frame@),
    {
        plain("DE", 0x00, stack_frame)
    }
}

/// Breakpoint, vector 3. The handler logs one line and returns.
pub struct BreakpointException;

impl BreakpointException {
    pub const CODE: u8 = 0x03;

    pub const MNEMONIC: &'static str = "BP";

    /// The line that is logged, given the stack frame as text.
    pub fn handler(stack_frame: &str) -> (report: String)
        ensures
            report@ == plain_report("BP"@, 0x03, stack_frame@),
    {
        plain("BP", 0x03, stack_frame)
    }
}

/// Double fault, vector 8. Fatal; handled on a stack of its own.
pub struct DoubleFault;

impl DoubleFault {
    /// The entry of the interrupt stack table that holds the handler's
    /// stack.
    pub const IST_INDEX: usize = 0x0;

    pub const CODE: u8 = 0x08;

    pub const MNEMONIC: &'static str = "DF";

    /// The line with which the kernel panics, given the stack frame and
    /// the error code as text.
    pub fn handler(stack_frame: &str, err_code: &str) -> (report: String)
        ensures
            report@ == coded_report("DF"@, 0x08, stack_frame@, err_code@),
    {
        coded("DF", 0x08, stack_frame, err_code)
    }
}

/// General protection fault, vector 13. Fatal.
pub struct GeneralProtectionFault;

impl GeneralProtectionFault {
    pub const CODE: u8 = 0x0D;

    pub const MNEMONIC: &'static str = "GP";

    /// The line with which the kernel panics, given the stack frame and the
    /// error code as text, and the faulting address.
    pub fn handler(stack_frame: &str, err_code: &str, addr: u64) -> (report: String)
        ensures
            report@ == fault_report("GP"@, 0x0D, stack_frame@, err_code@, addr),
    {
        fault("GP", 0x0D, stack_frame, err_code, addr)
    }
}

/// Page fault, vector 14. Fatal.
pub struct PageFault;

impl PageFault {
    pub const CODE: u8 = 0x0E;

    pub const MNEMONIC: &'static str = "PF";

    /// The line with which the kernel panics, given the stack frame and the
    /// error code as text, and the faulting address.
    pub fn handler(stack_frame: &str, err_code: &str, addr: u64) -> (report: String)
        ensures
            report@ == fault_report("PF"@, 0x0E, stack_frame@, err_code@, addr),
    {
        fault("PF", 0x0E, stack_frame, err_code, addr)
    }
}

} // verus!
