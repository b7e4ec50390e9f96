use plush::methods::{
    byte_at, char_at, codepoint_bytes, int64_abs, int64_clip, int64_idiv, int64_max, int64_min,
    int64_to_hex, int64_to_s, parse_int, split, string_lower, string_upper, trim, decode_chars,
};

fn parts(s: &str, sep: &str) -> Vec<String>
{
    split(s.as_bytes(), sep.as_bytes())
        .into_iter()
        .map(|p| String::from_utf8(p).unwrap())
        .collect()
}

#[test]
fn int_abs_min_max()
{
    assert_eq!(int64_abs(5), Some(5));
    assert_eq!(int64_abs(-5), Some(5));
    assert_eq!(int64_abs(0), Some(0));
    assert_eq!(int64_abs(i64::MIN), None);
    assert_eq!(int64_min(3, -4), -4);
    assert_eq!(int64_max(3, -4), 3);
}

#[test]
fn int_idiv_truncates()
{
    assert_eq!(int64_idiv(7, 2), Ok(3));
    assert_eq!(int64_idiv(-7, 2), Ok(-3));
    assert_eq!(int64_idiv(7, -2), Ok(-3));
    assert_eq!(int64_idiv(i64::MIN, 1), Ok(i64::MIN));
    assert_eq!(int64_idiv(7, 0), Err("division by zero in idiv()".to_string()));
    assert_eq!(int64_idiv(i64::MIN, -1), Err("integer overflow in idiv()".to_string()));
}

#[test]
fn int_clip()
{
    assert_eq!(int64_clip(5, 0, 3), Ok(3));
    assert_eq!(int64_clip(-1, 0, 3), Ok(0));
    assert_eq!(int64_clip(2, 0, 3), Ok(2));
    assert!(int64_clip(1, 3, 0).is_err());
}

#[test]
fn int_to_strings()
{
    assert_eq!(int64_to_s(0), "0");
    assert_eq!(int64_to_s(15), "15");
    assert_eq!(int64_to_s(-42), "-42");
    assert_eq!(int64_to_s(i64::MIN), "-9223372036854775808");
    assert_eq!(int64_to_hex(255, 4), "00FF");
    assert_eq!(int64_to_hex(255, 0), "FF");
    assert_eq!(int64_to_hex(-1, 0), "FFFFFFFFFFFFFFFF");
    assert_eq!(int64_to_hex(0, 0), "0");
}

#[test]
fn codepoints()
{
    assert_eq!(codepoint_bytes(65), Some(vec![65]));
    assert_eq!(codepoint_bytes(0xE9), Some("é".as_bytes().to_vec()));
    assert_eq!(codepoint_bytes(0x20AC), Some("€".as_bytes().to_vec()));
    assert_eq!(codepoint_bytes(0x1F600), Some("😀".as_bytes().to_vec()));
    assert_eq!(codepoint_bytes(0xD800), None);
    assert_eq!(codepoint_bytes(0x110000), None);
}

#[test]
fn bytes_and_chars()
{
    let s = "héllo".as_bytes();
    assert_eq!(byte_at(s, 0), Some(b'h'));
    assert_eq!(byte_at(s, 6), None);
    assert_eq!(char_at(s, 1), Ok(Some("é".as_bytes().to_vec())));
    assert_eq!(char_at(s, 2), Ok(None));
    assert_eq!(char_at(s, 3), Ok(Some(b"l".to_vec())));
    assert_eq!(char_at(s, 10), Err("string byte index out of bounds".to_string()));
}

#[test]
fn parse_ints()
{
    assert_eq!(parse_int(b"123", 10), Some(123));
    assert_eq!(parse_int(b"-ff", 16), Some(-255));
    assert_eq!(parse_int(b"+7", 10), Some(7));
    assert_eq!(parse_int(b"zz", 36), Some(1295));
    assert_eq!(parse_int(b"", 10), None);
    assert_eq!(parse_int(b"-", 10), None);
    assert_eq!(parse_int(b"12a", 10), None);
    assert_eq!(parse_int(b"102", 2), None);
    assert_eq!(parse_int(b"9223372036854775807", 10), Some(i64::MAX));
    assert_eq!(parse_int(b"9223372036854775808", 10), None);
    assert_eq!(parse_int(b"-9223372036854775808", 10), Some(i64::MIN));
    assert_eq!(parse_int(b"-9223372036854775809", 10), None);
    for (s, r) in [("42", 10u32), ("-7f", 16), ("1010", 2)] {
        assert_eq!(parse_int(s.as_bytes(), r), i64::from_str_radix(s, r).ok());
    }
}

#[test]
fn split_strings()
{
    assert_eq!(parts("a,b,,c", ","), vec!["a", "b", "", "c"]);
    assert_eq!(parts("a--b--", "--"), vec!["a", "b", ""]);
    assert_eq!(parts("", ","), vec![""]);
    assert_eq!(parts("abc", ""), vec!["", "a", "b", "c", ""]);
    assert_eq!(parts("", ""), vec!["", ""]);
    assert_eq!(parts("hé", ""), vec!["", "h", "é", ""]);
    for (s, sep) in [("x y z", " "), ("aaa", "aa"), ("no sep", ",")] {
        let expected: Vec<String> = s.split(sep).map(|p| p.to_string()).collect();
        assert_eq!(parts(s, sep), expected);
    }
}

#[test]
fn trim_white_space()
{
    assert_eq!(trim(b"  hi \n"), b"hi".to_vec());
    assert_eq!(trim(b"   "), Vec::<u8>::new());
    assert_eq!(trim(b""), Vec::<u8>::new());
    assert_eq!(trim("\u{3000}x y\u{a0}".as_bytes()), b"x y".to_vec());
    assert_eq!(trim("\u{2009}\u{85}a".as_bytes()), b"a".to_vec());
    assert_eq!(trim("é ".as_bytes()), "é".as_bytes().to_vec());
}

#[test]
fn case_mapping()
{
    assert_eq!(string_upper("héllo".as_bytes()), Some("HÉLLO".to_string()));
    assert_eq!(string_upper("straße".as_bytes()), Some("STRASSE".to_string()));
    assert_eq!(string_lower("ÀB".as_bytes()), Some("àb".to_string()));
    assert_eq!(string_upper(&[0xff]), None);
    assert_eq!(decode_chars("aé€".as_bytes()), Some(vec!['a', 'é', '€']));
    assert_eq!(decode_chars(&[0xe2, 0x82]), None);
}
