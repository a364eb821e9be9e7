//! The arguments of the program: an optional `-n LEN` and one file name.

use vstd::prelude::*;
use vstd::string::*;

verus! {

/// What the command line asks for. A `size` of zero means the whole file.
pub struct CommandLineArgs {
    pub size: u32,
    pub file_path: String,
}

/// The option that announces a length.
pub open spec fn spec_len_flag() -> Seq<char> {
    seq!['-', 'n']
}

/// Whether a character is one of the ten decimal digits.
pub open spec fn spec_is_digit(c: char) -> bool {
    '0' <= c && c <= '9'
}

/// Whether every character is a decimal digit.
pub open spec fn spec_all_digits(text: Seq<char>) -> bool {
    forall|i: int| 0 <= i < text.len() ==> spec_is_digit(#[trigger] text[i])
}

/// The number that a sequence of decimal digits spells.
pub open spec fn spec_digits_value(digits: Seq<char>) -> nat
    decreases digits.len(),
{
    if digits.len() == 0 {
        0
    } else {
        10 * spec_digits_value(digits.drop_last()) + (digits.last() as nat - '0' as nat) as nat
    }
}

/// The length that a text spells: one or more decimal digits, a `+` before
/// them or not, whose value fits in 32 bits. Any other text spells none.
pub open spec fn spec_decimal_u32(text: Seq<char>) -> Option<u32> {
    let digits = if text.len() > 0 && text[0] == '+' {
        text.skip(1)
    } else {
        text
    };
    if digits.len() > 0 && spec_all_digits(digits) && spec_digits_value(digits) <= u32::MAX {
        Some(spec_digits_value(digits) as u32)
    } else {
        None
    }
}

/// Where the scan of the arguments stands: the length so far, the file name
/// if one was seen, and whether the next argument is a length.
pub struct ScanState {
    pub size: u32,
    pub file_path: Option<Seq<char>>,
    pub is_next_len: bool,
}

/// The scan after one more argument, or the code of the error it meets:
/// -1 for a length that is none, -2 for a second file name.
pub open spec fn spec_scan_step(state: ScanState, arg: Seq<char>) -> Result<ScanState, i32> {
    if arg == spec_len_flag() {
        Ok(ScanState { size: state.size, file_path: state.file_path, is_next_len: true })
    } else if state.is_next_len {
        match spec_decimal_u32(arg) {
            Some(size) => Ok(ScanState { size, file_path: state.file_path, is_next_len: false }),
            None => Err(-1i32),
        }
    } else if state.file_path is None {
        Ok(ScanState { size: state.size, file_path: Some(arg), is_next_len: false })
    } else {
        Err(-2i32)
    }
}

/// The scan after the first `count` arguments, or the first error met.
pub open spec fn spec_scan(args: Seq<Seq<char>>, count: nat) -> Result<ScanState, i32>
    decreases count,
{
    if count == 0 {
        Ok(ScanState { size: 0, file_path: None, is_next_len: false })
    } else {
        match spec_scan(args, (count - 1) as nat) {
            Ok(state) => spec_scan_step(state, args[count - 1]),
            Err(code) => Err(code),
        }
    }
}

/// What the arguments ask for, or an error code: 0 where there are no
/// arguments, -1 and -2 as the scan gives them, -3 where no file is named.
pub open spec fn spec_parse_args(args: Seq<Seq<char>>) -> Result<(u32, Seq<char>), i32> {
    if args.len() == 0 {
        Err(0i32)
    } else {
        match spec_scan(args, args.len()) {
            Ok(state) => match state.file_path {
                Some(file_path) => Ok((state.size, file_path)),
                None => Err(-3i32),
            },
            Err(code) => Err(code),
        }
    }
}

/// The text of each argument.
pub open spec fn spec_arg_texts(args: Seq<String>) -> Seq<Seq<char>> {
    Seq::new(args.len(), |i: int| args[i]@)
}

/// `str::parse::<u32>` reads an optional `+` and then decimal digits only.
/// It fails on an empty text, on a sign alone, on any other character and
/// on a value that does not fit in 32 bits.
#[verifier::external_body]
fn parse_len(text: &str) -> (size: Option<u32>)
    ensures
        size == spec_decimal_u32(text@),
{
    text.parse::<u32>().ok()
}

/// Reads the arguments that follow the program's name. On success the
/// result holds the length (zero for the whole file) and the file name;
/// otherwise it is the code of the error.
pub fn parse_cmd_line_args(args: &Vec<String>) -> (result: Result<CommandLineArgs, i32>)
    ensures
        match result {
            Ok(parsed) => spec_parse_args(spec_arg_texts(args@)) == Ok::<(u32, Seq<char>), i32>(
                (parsed.size, parsed.file_path@),
            ),
            Err(code) => spec_parse_args(spec_arg_texts(args@)) == Err::<(u32, Seq<char>), i32>(
                code,
            ),
        },
{
    let ghost texts = spec_arg_texts(args@);
    if args.len() == 0 {
        return Err(0);
    }
    let len_flag = String::from_str("-n");
    proof {
        reveal_strlit("-n");
        assert(len_flag@ =~= spec_len_flag());
    }
    let mut size: u32 = 0;
    let mut file_path: Option<String> = None;
    let mut is_next_len = false;
    let mut index: usize = 0;
    while index < args.len()
        invariant
            index <= args@.len(),
            texts == spec_arg_texts(args@),
            len_flag@ == spec_len_flag(),
            spec_scan(texts, index as nat) == Ok::<ScanState, i32>(
                ScanState {
                    size,
                    file_path: match file_path {
                        Some(path) => Some(path@),
                        None => None,
                    },
                    is_next_len,
                },
            ),
        ensures
            index == args@.len(),
        decreases args@.len() - index,
    {
        let curr_arg: &String = &args[index];
        assert(texts[index as int] == curr_arg@);
        if *curr_arg == len_flag {
            is_next_len = true;
        } else if is_next_len {
            match parse_len(curr_arg.as_str()) {
                Some(parsed) => {
                    size = parsed;
                },
                None => {
                    assert(spec_scan(texts, (index + 1) as nat) == Err::<ScanState, i32>(-1i32));
                    proof {
                        lemma_scan_error_stays(texts, (index + 1) as nat, texts.len());
                    }
                    return Err(-1);
                },
            }
            is_next_len = false;
        } else {
            if file_path.is_none() {
                file_path = Some(curr_arg.clone());
            } else {
                assert(spec_scan(texts, (index + 1) as nat) == Err::<ScanState, i32>(-2i32));
                proof {
                    lemma_scan_error_stays(texts, (index + 1) as nat, texts.len());
                }
                return Err(-2);
            }
        }
        index = index + 1;
    }
    match file_path {
        Some(path) => Ok(CommandLineArgs { size, file_path: path }),
        None => Err(-3),
    }
}

/// Once the scan has met an error, further arguments do not change it.
pub proof fn lemma_scan_error_stays(args: Seq<Seq<char>>, count: nat, later: nat)
    requires
        count <= later,
        spec_scan(args, count) is Err,
    ensures
        spec_scan(args, later) == spec_scan(args, count),
    decreases later,
{
    if count < later {
        lemma_scan_error_stays(args, count, (later - 1) as nat);
    }
}

/// How to call the program.
pub open spec fn spec_usage_string(program_name: Seq<char>) -> Seq<char> {
    "Usage: "@ + program_name + " [-n LEN] FILE"@
}

/// The complaint about a length that is no number of 32 bits.
pub open spec fn spec_invalid_len_error(program_name: Seq<char>) -> Seq<char> {
    program_name + ": Invalid parameter was specified for the len in the -n option"@
}

/// The complaint about a second file name.
pub open spec fn spec_ambiguous_file_name_error(program_name: Seq<char>) -> Seq<char> {
    program_name + ": More than one file name was specified"@
}

/// The complaint about a missing file name.
pub open spec fn spec_no_file_name_error(program_name: Seq<char>) -> Seq<char> {
    program_name + ": No file name was specified"@
}

/// The message that belongs to an error code of the argument parser; none
/// for any other code.
pub open spec fn spec_error_message(error_code: i32, program_name: Seq<char>) -> Option<
    Seq<char>,
> {
    if error_code == 0 {
        Some(spec_usage_string(program_name))
    } else if error_code == -1 {
        Some(spec_invalid_len_error(program_name))
    } else if error_code == -2 {
        Some(spec_ambiguous_file_name_error(program_name))
    } else if error_code == -3 {
        Some(spec_no_file_name_error(program_name))
    } else {
        None
    }
}

fn usage_string(program_name: &str) -> (text: String)
    ensures
        text@ == spec_usage_string(program_name@),
{
    let mut text = String::from_str("Usage: ");
    text.append(program_name);
    text.append(" [-n LEN] FILE");
    text
}

fn invalid_len_error(program_name: &str) -> (text: String)
    ensures
        text@ == spec_invalid_len_error(program_name@),
{
    let mut text = String::from_str(program_name);
    text.append(": Invalid parameter was specified for the len in the -n option");
    text
}

fn ambiguous_file_name_error(program_name: &str) -> (text: String)
    ensures
        text@ == spec_ambiguous_file_name_error(program_name@),
{
    let mut text = String::from_str(program_name);
    text.append(": More than one file name was specified");
    text
}

fn no_file_name_error(program_name: &str) -> (text: String)
    ensures
        text@ == spec_no_file_name_error(program_name@),
{
    let mut text = String::from_str(program_name);
    text.append(": No file name was specified");
    text
}

/// The message to show for an error code of the argument parser, under the
/// program's name. A code that the parser never gives has no message.
pub fn print_message_from_error_code(error_code: i32, program_name: &str) -> (message: Option<
    String,
>)
    ensures
        match message {
            Some(text) => spec_error_message(error_code, program_name@) == Some(text@),
            None => spec_error_message(error_code, program_name@) is None,
        },
{
    match error_code {
        0 => Some(usage_string(program_name)),
        -1 => Some(invalid_len_error(program_name)),
        -2 => Some(ambiguous_file_name_error(program_name)),
        -3 => Some(no_file_name_error(program_name)),
        _ => None,
    }
}

} // verus!
