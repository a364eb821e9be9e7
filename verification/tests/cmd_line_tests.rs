use hexdump::cmd_line::{parse_cmd_line_args, print_message_from_error_code, CommandLineArgs};

fn parse(args: &[&str]) -> Result<(u32, String), i32> {
    let owned: Vec<String> = args.iter().map(|arg| arg.to_string()).collect();
    match parse_cmd_line_args(&owned) {
        Ok(CommandLineArgs { size, file_path }) => Ok((size, file_path)),
        Err(code) => Err(code),
    }
}

#[test]
fn no_arguments_ask_for_usage() {
    assert_eq!(parse(&[]), Err(0));
}

#[test]
fn a_file_name_alone_means_the_whole_file() {
    assert_eq!(parse(&["data.bin"]), Ok((0, "data.bin".to_string())));
}

#[test]
fn a_length_before_or_after_the_file_name() {
    assert_eq!(parse(&["-n", "5", "data.bin"]), Ok((5, "data.bin".to_string())));
    assert_eq!(parse(&["data.bin", "-n", "5"]), Ok((5, "data.bin".to_string())));
}

#[test]
fn the_last_length_given_stands() {
    assert_eq!(parse(&["-n", "5", "f", "-n", "9"]), Ok((9, "f".to_string())));
    assert_eq!(parse(&["-n", "-n", "12", "f"]), Ok((12, "f".to_string())));
}

#[test]
fn a_length_flag_at_the_end_changes_nothing() {
    assert_eq!(parse(&["f", "-n"]), Ok((0, "f".to_string())));
    assert_eq!(parse(&["-n", "3", "f", "-n"]), Ok((3, "f".to_string())));
}

#[test]
fn lengths_that_are_read() {
    assert_eq!(parse(&["-n", "0", "f"]), Ok((0, "f".to_string())));
    assert_eq!(parse(&["-n", "+7", "f"]), Ok((7, "f".to_string())));
    assert_eq!(parse(&["-n", "007", "f"]), Ok((7, "f".to_string())));
    assert_eq!(parse(&["-n", "00000000000000000001", "f"]), Ok((1, "f".to_string())));
    assert_eq!(parse(&["-n", "+4294967295", "f"]), Ok((u32::MAX, "f".to_string())));
    assert_eq!(parse(&["-n", "4294967295", "f"]), Ok((u32::MAX, "f".to_string())));
    assert_eq!(parse(&["-n", "1234567890", "f"]), Ok((1234567890, "f".to_string())));
}

#[test]
fn lengths_that_are_refused() {
    assert_eq!(parse(&["-n", "abc", "f"]), Err(-1));
    assert_eq!(parse(&["-n", "", "f"]), Err(-1));
    assert_eq!(parse(&["-n", "+", "f"]), Err(-1));
    assert_eq!(parse(&["-n", "-1", "f"]), Err(-1));
    assert_eq!(parse(&["-n", "-0", "f"]), Err(-1));
    assert_eq!(parse(&["-n", " 5", "f"]), Err(-1));
    assert_eq!(parse(&["-n", "5 ", "f"]), Err(-1));
    assert_eq!(parse(&["-n", "0x10", "f"]), Err(-1));
    assert_eq!(parse(&["-n", "\u{663}", "f"]), Err(-1));
    assert_eq!(parse(&["-n", "1+", "f"]), Err(-1));
    assert_eq!(parse(&["-n", "1_000", "f"]), Err(-1));
    assert_eq!(parse(&["-n", "++1", "f"]), Err(-1));
    assert_eq!(parse(&["-n", "4294967296", "f"]), Err(-1));
    assert_eq!(parse(&["-n", "99999999999999999999", "f"]), Err(-1));
    assert_eq!(parse(&["f", "-n", "file"]), Err(-1));
}

#[test]
fn a_second_file_name_is_ambiguous() {
    assert_eq!(parse(&["a", "b"]), Err(-2));
    assert_eq!(parse(&["-n", "5", "a", "b"]), Err(-2));
    assert_eq!(parse(&["a", "5"]), Err(-2));
}

#[test]
fn the_first_error_met_is_the_one_given() {
    assert_eq!(parse(&["a", "b", "-n", "x"]), Err(-2));
    assert_eq!(parse(&["-n", "x", "a", "b"]), Err(-1));
}

#[test]
fn a_missing_file_name() {
    assert_eq!(parse(&["-n", "5"]), Err(-3));
    assert_eq!(parse(&["-n"]), Err(-3));
}

#[test]
fn messages_for_the_error_codes() {
    assert_eq!(
        print_message_from_error_code(0, "hexdump"),
        Some("Usage: hexdump [-n LEN] FILE".to_string())
    );
    assert_eq!(
        print_message_from_error_code(-1, "hexdump"),
        Some("hexdump: Invalid parameter was specified for the len in the -n option".to_string())
    );
    assert_eq!(
        print_message_from_error_code(-2, "hexdump"),
        Some("hexdump: More than one file name was specified".to_string())
    );
    assert_eq!(
        print_message_from_error_code(-3, "./hd"),
        Some("./hd: No file name was specified".to_string())
    );
}

#[test]
fn other_codes_have_no_message() {
    assert_eq!(print_message_from_error_code(1, "hexdump"), None);
    assert_eq!(print_message_from_error_code(-4, "hexdump"), None);
    assert_eq!(print_message_from_error_code(i32::MIN, "hexdump"), None);
}
