use tiled::scalar::{read_flag, read_mark, read_real, read_text, read_u32};
use tiled::text::{
    chars_of, parse_bool, parse_hex_u32, parse_hex_u8, parse_i32, parse_u32, same_text,
    text_is_blank, text_is_real, why_no_i32, IntFault,
};
use tiled::{Attribute, Colour, Orientation, ParseTileError, Real};

fn chars(s: &str) -> Vec<char> {
    s.chars().collect()
}

fn attributes(pairs: &[(&str, &str)]) -> Vec<Attribute> {
    pairs.iter().map(|(n, v)| Attribute { name: n.to_string(), value: v.to_string() }).collect()
}

const SAMPLES: [&str; 60] = [
    "", "0", "7", "007", "+7", "-7", "+", "-", "+-7", "--7", "1.5", "1.", ".5", ".", "+.5", "-.5",
    "1e5", "1E5", "1e+5", "1e-5", "1e", "1e+", "e5", ".e5", "1.e5", "1.5e10", "1.5e1.0", "inf",
    "INF", "-inf", "+infinity", "Infinity", "infinit", "nan", "NaN", "-nan", "nanx", " 1", "1 ",
    "1_000", "0x10", "1,5", "4294967295", "4294967296", "2147483647", "2147483648", "-2147483648",
    "-2147483649", "99999999999999999999", "-99999999999999999999", "abc", "12a", "a12", "１２",
    "1\u{0661}", "true", "false", "+0", "-0", "1e400",
];

#[test]
fn unsigned_numbers_are_read_as_std_reads_them() {
    for s in SAMPLES {
        assert_eq!(parse_u32(&chars(s)), s.parse::<u32>().ok(), "{:?}", s);
    }
}

#[test]
fn signed_numbers_are_read_as_std_reads_them() {
    for s in SAMPLES {
        assert_eq!(parse_i32(&chars(s)), s.parse::<i32>().ok(), "{:?}", s);
    }
}

#[test]
fn what_is_wrong_with_a_number_is_what_std_finds_wrong() {
    let more = [
        "2147483647x", "2147483648x", "-2147483649x", "21474836470x", "+-7", "-+7", "99x",
        "000000000000000000000000000000000000002147483648", "-000000000000000000002147483649",
    ];
    for s in SAMPLES.iter().chain(more.iter()) {
        if let Err(e) = s.parse::<i32>() {
            let expected = match e.kind() {
                std::num::IntErrorKind::Empty => IntFault::Empty,
                std::num::IntErrorKind::InvalidDigit => IntFault::InvalidDigit,
                std::num::IntErrorKind::PosOverflow => IntFault::PosOverflow,
                std::num::IntErrorKind::NegOverflow => IntFault::NegOverflow,
                other => panic!("{:?}", other),
            };
            assert_eq!(why_no_i32(&chars(s)), expected, "{:?}", s);
        }
    }
}

#[test]
fn hexadecimal_numbers_are_read_as_std_reads_them() {
    let more = ["ff", "FF", "fF", "+ff", "-ff", "g", "100", "ffffffff", "100000000", "0f", "f0"];
    for s in SAMPLES.iter().chain(more.iter()) {
        assert_eq!(parse_hex_u32(&chars(s)), u32::from_str_radix(s, 16).ok(), "{:?}", s);
        assert_eq!(parse_hex_u8(&chars(s)), u8::from_str_radix(s, 16).ok(), "{:?}", s);
    }
}

#[test]
fn real_literals_are_told_as_std_tells_them() {
    for s in SAMPLES {
        assert_eq!(text_is_real(&chars(s)), s.parse::<f32>().is_ok(), "{:?}", s);
        assert_eq!(text_is_real(&chars(s)), s.parse::<f64>().is_ok(), "{:?}", s);
        assert_eq!(Real::parse(s).is_some(), s.parse::<f32>().is_ok(), "{:?}", s);
    }
}

#[test]
fn a_real_keeps_its_literal() {
    let r = Real::parse("-12.50e3").unwrap();
    assert_eq!(r.text(), "-12.50e3");
    assert_eq!(r.text().parse::<f32>().unwrap(), -12500.0f32);
    assert_eq!(Real::one().text().parse::<f32>().unwrap(), 1.0f32);
    assert_eq!(Real::zero().text().parse::<f32>().unwrap(), 0.0f32);
    assert_eq!(r.clone(), r);
}

#[test]
fn booleans_are_two_words() {
    assert_eq!(parse_bool("true"), Some(true));
    assert_eq!(parse_bool("false"), Some(false));
    for s in ["1", "0", "True", "TRUE", "", " true", "yes", "truefalse"] {
        assert_eq!(parse_bool(s), None, "{:?}", s);
        assert_eq!(parse_bool(s), s.parse::<bool>().ok());
    }
}

#[test]
fn blank_is_white_space_only() {
    for s in ["", " ", "\t\n\r ", "\u{a0}", "\u{2003}\u{3000}", "a", " a ", "\u{200b}", "0"] {
        assert_eq!(text_is_blank(&chars(s)), s.trim() == "", "{:?}", s);
    }
    for c in 0u32..0x3100 {
        if let Some(c) = char::from_u32(c) {
            assert_eq!(tiled::text::char_is_space(c), c.is_whitespace(), "{:?}", c);
        }
    }
}

#[test]
fn texts_are_compared_by_their_characters() {
    assert!(same_text("map", "map"));
    assert!(same_text("", ""));
    assert!(!same_text("map", "maps"));
    assert!(!same_text("map", "mbp"));
    assert!(same_text("größe", "größe"));
    assert!(!same_text("große", "größe"));
    assert_eq!(chars_of("aé𝄞"), vec!['a', 'é', '𝄞']);
    assert_eq!(chars_of(""), Vec::<char>::new());
}

#[test]
fn colours_are_six_hexadecimal_digits() {
    assert_eq!(Colour::from_str("#ff0080"), Ok(Colour { red: 255, green: 0, blue: 128 }));
    assert_eq!(Colour::from_str("FF0080"), Ok(Colour { red: 255, green: 0, blue: 128 }));
    assert_eq!(Colour::from_str("#000000"), Ok(Colour { red: 0, green: 0, blue: 0 }));
    assert_eq!(Colour::from_str("+f+f+f"), Ok(Colour { red: 15, green: 15, blue: 15 }));
    for bad in ["", "#", "#ff008", "#ff00800", "##ff0080", "#gg0080", "ff 080", "#ff-080"] {
        assert_eq!(Colour::from_str(bad), Err(ParseTileError::ColourError), "{:?}", bad);
    }
    assert_eq!("#010203".parse::<Colour>(), Ok(Colour { red: 1, green: 2, blue: 3 }));
    assert_eq!("staggered".parse::<Orientation>(), Ok(Orientation::Staggered));
    assert_eq!("crooked".parse::<Orientation>(), Err(ParseTileError::OrientationError));
}

#[test]
fn orientations_have_four_names() {
    assert_eq!(Orientation::from_str("orthogonal"), Ok(Orientation::Orthogonal));
    assert_eq!(Orientation::from_str("isometric"), Ok(Orientation::Isometric));
    assert_eq!(Orientation::from_str("staggered"), Ok(Orientation::Staggered));
    assert_eq!(Orientation::from_str("hexagonal"), Ok(Orientation::Hexagonal));
    for bad in ["", "Orthogonal", "orthogonal ", "square"] {
        assert_eq!(Orientation::from_str(bad), Err(ParseTileError::OrientationError));
    }
    for o in [
        Orientation::Orthogonal,
        Orientation::Isometric,
        Orientation::Staggered,
        Orientation::Hexagonal,
    ] {
        assert_eq!(Orientation::from_str(o.name()), Ok(o));
    }
}

#[test]
fn of_two_attributes_with_one_name_the_last_counts() {
    let attrs = attributes(&[("width", "3"), ("height", "4"), ("width", "5")]);
    assert_eq!(read_u32(&attrs, "width"), Some(5));
    assert_eq!(read_u32(&attrs, "height"), Some(4));
    assert_eq!(read_u32(&attrs, "depth"), None);
    let attrs = attributes(&[("width", "3"), ("width", "x")]);
    assert_eq!(read_u32(&attrs, "width"), None);
    assert_eq!(read_text(&attrs, "width"), Some("x".to_string()));
    assert_eq!(tiled::markup::attribute(&attrs, "width"), Some(&"x".to_string()));
}

#[test]
fn flags_and_marks_say_yes_with_one() {
    let attrs = attributes(&[("a", "1"), ("b", "0"), ("c", "+1"), ("d", "yes"), ("e", "2")]);
    assert_eq!(read_flag(&attrs, "a"), Some(true));
    assert_eq!(read_flag(&attrs, "b"), Some(false));
    assert_eq!(read_flag(&attrs, "c"), Some(true));
    assert_eq!(read_flag(&attrs, "d"), None);
    assert_eq!(read_flag(&attrs, "e"), Some(false));
    assert_eq!(read_flag(&attrs, "f"), None);
    assert_eq!(read_mark(&attrs, "a"), Some(true));
    assert_eq!(read_mark(&attrs, "b"), Some(false));
    assert_eq!(read_mark(&attrs, "c"), Some(false));
    assert_eq!(read_mark(&attrs, "d"), Some(false));
    assert_eq!(read_mark(&attrs, "f"), None);
    assert_eq!(read_real(&attrs, "a").map(|r| r.text().to_string()), Some("1".to_string()));
    assert_eq!(read_real(&attrs, "d"), None);
}
