use vstd::prelude::*;

use crate::box_filter::{check_kernel_size, InputError, MAX_KERNEL_SIZE};

verus! {

/// What a run was asked to do: the kernel size and the two image paths.
pub struct Arguments {
    pub kernel_size: u32,
    pub input_path: String,
    pub output_path: String,
}

/// What `str::trim` leaves of a text.
pub uninterp spec fn trimmed(s: Seq<char>) -> Seq<char>;

/// Relies on `str::trim`: the text without its leading and trailing white space.
#[verifier::external_body]
fn trim_text(s: &str) -> (r: &str)
    ensures
        r@ == trimmed(s@),
{
    s.trim()
}

pub open spec fn is_ascii_digit(c: char) -> bool {
    '0' <= c <= '9'
}

/// The value of a text made of decimal digits.
pub open spec fn digits_value(s: Seq<char>) -> nat
    decreases s.len(),
{
    if s.len() == 0 {
        0
    } else {
        digits_value(s.drop_last()) * 10 + (s.last() as nat - '0' as nat) as nat
    }
}

/// What `u32::from_str` accepts: an optional `+`, then one or more decimal digits whose
/// value fits in 32 bits.
pub open spec fn parsed_u32(s: Seq<char>) -> Option<u32> {
    let d = if s.len() > 0 && s[0] == '+' {
        s.drop_first()
    } else {
        s
    };
    if d.len() > 0 && (forall|i: int| 0 <= i < d.len() ==> is_ascii_digit(#[trigger] d[i]))
        && digits_value(d) <= u32::MAX {
        Some(digits_value(d) as u32)
    } else {
        None
    }
}

/// Relies on `u32::from_str` (through `str::parse`): an optional `+` followed by decimal
/// digits whose value fits in `u32`; any other text is an error.
#[verifier::external_body]
fn parse_u32(s: &str) -> (r: Option<u32>)
    ensures
        r == parsed_u32(s@),
{
    s.parse::<u32>().ok()
}

/// The kernel size that a text gives: `NotANumber` unless it is a decimal number that
/// fits 32 bits, then as `check_kernel_size` says.
pub open spec fn kernel_size_of(s: Seq<char>) -> Result<u32, InputError> {
    match parsed_u32(s) {
        None => Err(InputError::NotANumber),
        Some(k) => if k == 0 {
            Err(InputError::ZeroKernel)
        } else if k > MAX_KERNEL_SIZE {
            Err(InputError::KernelTooLarge)
        } else {
            Ok(k)
        },
    }
}

/// Reads a kernel size from a text that has already been trimmed.
pub fn parse_kernel_size(text: &str) -> (r: Result<u32, InputError>)
    ensures
        r == kernel_size_of(text@),
{
    match parse_u32(text) {
        None => Err(InputError::NotANumber),
        Some(k) => check_kernel_size(k),
    }
}

/// Reads the command line `<program> <kernel_size> <input_path> <output_path>`; the kernel
/// size may be surrounded by white space.
pub fn handle_inputs(args: Vec<String>) -> (r: Result<Arguments, InputError>)
    ensures
        args.len() < 4 ==> r == Err::<Arguments, InputError>(InputError::MissingArguments),
        args.len() >= 4 ==> match kernel_size_of(trimmed(args[1]@)) {
            Err(e) => r == Err::<Arguments, InputError>(e),
            Ok(k) => r matches Ok(a) && a.kernel_size == k && a.input_path@ == args[2]@
                && a.output_path@ == args[3]@,
        },
{
    if args.len() < 4 {
        return Err(InputError::MissingArguments);
    }
    let text = trim_text(args[1].as_str());
    match parse_kernel_size(text) {
        Err(e) => Err(e),
        Ok(k) => Ok(
            Arguments {
                kernel_size: k,
                input_path: args[2].clone(),
                output_path: args[3].clone(),
            },
        ),
    }
}

} // verus!
