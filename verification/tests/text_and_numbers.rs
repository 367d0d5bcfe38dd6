use hwscan::number::{decimal_i64, parse_i32, parse_i64};
use hwscan::text::{
    chars_of, contains_str, lex_le_chars, nth_piece, remove_str, sort_lex, split_chars, str_eq,
    string_of,
};
use hwscan::{request_for, Request};

fn v(x: &str) -> Vec<char> {
    x.chars().collect()
}

#[test]
fn parse_like_std() {
    for t in ["0", "+5", "-5", "007", "-2147483648", "2147483647", "2147483648", "", "-", "+", " 5", "5 ", "1_000", "--1", "١٢"] {
        assert_eq!(parse_i32(t), t.parse::<i32>().ok(), "{:?}", t);
    }
    for t in ["9223372036854775807", "-9223372036854775808", "9223372036854775808", "12", "x"] {
        assert_eq!(parse_i64(t), t.parse::<i64>().ok(), "{:?}", t);
    }
}

#[test]
fn decimal_like_to_string() {
    for n in [0i64, 7, -7, 10, 120, -120, i64::MAX, i64::MIN] {
        assert_eq!(string_of(&decimal_i64(n)), n.to_string());
        assert_eq!(parse_i64(&n.to_string()), Some(n));
    }
}

#[test]
fn remove_like_replace() {
    for (t, p) in [("aabb", "ab"), ("model name\t: X", "model name\t: "), ("KKK", "K"), ("abc", "zz"), ("", "a"), ("aaa", "aa")] {
        assert_eq!(string_of(&remove_str(&v(t), p)), t.replace(p, ""), "{:?} {:?}", t, p);
    }
}

#[test]
fn contains_like_std() {
    for (t, p) in [("cpu MHz\t\t: 1", "cpu MHz"), ("abc", ""), ("", ""), ("ab", "abc"), ("flags lm", "lm"), ("x", "y")] {
        assert_eq!(contains_str(&v(t), p), t.contains(p), "{:?} {:?}", t, p);
    }
}

#[test]
fn split_like_std() {
    for t in ["a b c", "", " a", "a  b", "a "] {
        let ours: Vec<String> = split_chars(&v(t), ' ').iter().map(|p| string_of(p)).collect();
        let theirs: Vec<String> = t.split(' ').map(|p| p.to_string()).collect();
        assert_eq!(ours, theirs);
    }
    assert_eq!(nth_piece(&v("2394.454"), '.', 0), Some(v("2394")));
    assert_eq!(nth_piece(&v("2394"), '.', 1), None);
}

#[test]
fn order_and_sort() {
    assert!(lex_le_chars(&v("index0"), &v("index1")));
    assert!(lex_le_chars(&v("index"), &v("index0")));
    assert!(!lex_le_chars(&v("uevent"), &v("index3")));
    assert!(lex_le_chars(&v("same"), &v("same")));
    let input: Vec<String> = ["uevent", "index2", "index0", "index10", "index1"].iter().map(|x| x.to_string()).collect();
    let mut expected = input.clone();
    expected.sort();
    assert_eq!(sort_lex(&input), expected);
    assert!(sort_lex(&vec![]).is_empty());
}

#[test]
fn strings_and_chars() {
    assert_eq!(chars_of("héllo"), v("héllo"));
    assert_eq!(string_of(&v("héllo")), "héllo");
    assert!(str_eq("cpu", "cpu"));
    assert!(!str_eq("cpu", "cpus"));
}

#[test]
fn requests() {
    assert_eq!(request_for("cpu"), Some(Request::Cpu));
    assert_eq!(request_for("disk"), Some(Request::Disk));
    assert_eq!(request_for("Disk"), None);
    assert_eq!(request_for(""), None);
}
