use nomster::decimal::scan_decimal;
use nomster::hex::parse_hex_id;
use nomster::small_words::skip_blanks;

fn chars(s: &str) -> Vec<char> {
    s.chars().collect()
}

const INPUTS: [&str; 16] = [
    "",
    "G",
    "1fG",
    "1F",
    "00ab\">",
    "abcdefABCDEF0123456789:",
    "FFFFFFFF\"",
    "12 34",
    "0x10",
    "999999999x",
    " \t\r\n x",
    "  ",
    "x  ",
    "\n",
    "７7",
    "٣3 ",
];

#[test]
fn hexadecimal_runs_are_those_of_nom() {
    for input in INPUTS {
        let ours = parse_hex_id(&chars(input), 0);
        match nom::hex_digit(input) {
            Ok((rest, digits)) => {
                // a number beyond 32 bits is no identifier
                let value = u32::from_str_radix(digits, 16).ok();
                assert_eq!(ours, value.map(|v| (v, digits.chars().count())), "{:?}", input);
                assert_eq!(rest, &input[digits.len()..]);
            }
            Err(_) => assert_eq!(ours, None, "{:?}", input),
        }
    }
}

#[test]
fn decimal_runs_are_those_of_nom() {
    for input in INPUTS {
        let (end, value) = scan_decimal(&chars(input), 0);
        match nom::digit1(input) {
            Ok((_, digits)) => {
                assert_eq!(end, digits.chars().count(), "{:?}", input);
                assert_eq!(value, digits.parse::<u32>().ok(), "{:?}", input);
            }
            // no digit at the start, or digits up to the end of the text
            Err(_) => assert!(end == 0 || end == input.chars().count(), "{:?}", input),
        }
    }
}

#[test]
fn blanks_are_those_of_nom() {
    for input in INPUTS {
        let ours = skip_blanks(&chars(input), 0);
        match nom::sp(input) {
            Ok((_, blanks)) => assert_eq!(ours, Some(blanks.chars().count()), "{:?}", input),
            Err(_) => assert_eq!(ours, None, "{:?}", input),
        }
    }
}
