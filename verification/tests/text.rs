use codrop::linefile::{append_line, read_lines};
use codrop::strmap::StrMap;
use codrop::text::{
    any_same, chars_of, rank, replace, same, split_lines, text_of, to_decimal, trim, trim_slashes,
    white, Rank,
};

const SAMPLES: [&str; 22] = [
    "", " ", "a", " a ", "\ta b\n", "\n", "\r\n", "a\r\nb", "a\nb\n", "a\r", "a\r\n", "\n\n", "a\n\nb",
    "a/", "a//", "/", "a/b", "\u{a0}x\u{3000}", "\u{feff}x", "x\r\r\n", "\r", "\u{e9}\n\u{4e2d}",
];

#[test]
fn white_space_is_that_of_std() {
    for code in 0..0x11_0000u32 {
        if let Some(c) = char::from_u32(code) {
            assert_eq!(white(c), c.is_whitespace(), "{code:x}");
        }
    }
}

#[test]
fn trimming_and_splitting_are_those_of_std() {
    for s in SAMPLES {
        assert_eq!(trim(s), s.trim(), "{s:?}");
        assert_eq!(trim_slashes(s), s.trim_end_matches('/'), "{s:?}");
        let expected: Vec<String> = s.lines().map(String::from).collect();
        assert_eq!(split_lines(s), expected, "{s:?}");
        assert_eq!(replace(s, 'a', 'z'), s.replace('a', "z"), "{s:?}");
    }
    assert_eq!(replace("a\\b\\", '\\', '/'), "a/b/");
}

#[test]
fn ranks_are_the_order_of_std() {
    for a in SAMPLES {
        for b in SAMPLES {
            let r = rank(a, b);
            assert_eq!(r == Rank::Below, a < b, "{a:?} {b:?}");
            assert_eq!(r == Rank::Same, a == b, "{a:?} {b:?}");
            assert_eq!(r == Rank::Above, a > b, "{a:?} {b:?}");
            assert_eq!(same(a, b), a == b);
        }
    }
}

#[test]
fn numbers_in_decimal() {
    for n in [0u128, 7, 10, 99, 1000, 18446744073709551616, u128::MAX] {
        assert_eq!(to_decimal(n), n.to_string());
    }
}

#[test]
fn characters_and_back() {
    let v = chars_of("h\u{e9}llo");
    assert_eq!(v.len(), 5);
    assert_eq!(text_of(&v, 1, 3), "\u{e9}l");
    assert!(any_same(&vec!["a".to_string(), "b".to_string()], "b"));
    assert!(!any_same(&vec!["a".to_string()], "b"));
}

#[test]
fn lines_are_appended_cleanly() {
    assert_eq!(read_lines(b""), Vec::<String>::new());
    assert_eq!(read_lines(b"a\r\n\n\xff\nb"), ["a\r", "", "b"]);
    assert_eq!(read_lines(b"x\n"), ["x"]);
    assert_eq!(append_line(b"", "x"), b"x\n");
    assert_eq!(append_line(b"a", "x"), b"a\nx\n");
    assert_eq!(append_line(b"a\n", "x"), b"a\nx\n");
}

#[test]
fn map_keeps_its_keys_in_order() {
    let mut m: StrMap<u8> = StrMap::new();
    for (i, k) in ["m", "a", "z", "m", ""].iter().enumerate() {
        m.insert(k.to_string(), i as u8);
    }
    assert_eq!(m.len(), 4);
    let all: Vec<(&str, &u8)> = (0..m.len()).map(|i| m.entry(i)).collect();
    assert_eq!(all, vec![("", &4), ("a", &1), ("m", &3), ("z", &2)]);
    assert_eq!(m.get("m"), Some(&3));
    assert_eq!(m.get("n"), None);
}
