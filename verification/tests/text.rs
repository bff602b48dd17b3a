use d5::text::{chars_of, find_single, is_space_char, skip_scheme, trim_window};

#[test]
fn white_space_is_what_std_calls_white_space() {
    let mut code: u32 = 0;
    while code <= 0x10ffff {
        if let Some(c) = char::from_u32(code) {
            assert_eq!(is_space_char(c), c.is_whitespace());
        }
        code += 1;
    }
}

#[test]
fn characters_come_in_order() {
    assert_eq!(chars_of(""), Vec::<char>::new());
    assert_eq!(chars_of("a:b"), vec!['a', ':', 'b']);
    assert_eq!(chars_of("\u{e9}\u{1f600}z"), vec!['\u{e9}', '\u{1f600}', 'z']);
}

#[test]
fn window_is_trimmed_as_std_trims() {
    let texts = ["", " ", "a", " a", "a ", "  a b  ", "\t\n\r x\u{a0}\u{2028}", "\u{3000}\u{1680}"];
    for text in texts.iter() {
        let v = chars_of(text);
        let (lo, hi) = trim_window(&v, 0, v.len());
        let kept: String = v[lo..hi].iter().collect();
        assert_eq!(kept, text.trim());
    }
}

#[test]
fn window_is_trimmed_within_its_bounds() {
    let v = chars_of("ab  cd  ef");
    assert_eq!(trim_window(&v, 2, 8), (4, 6));
    assert_eq!(trim_window(&v, 2, 4), (4, 4));
    assert_eq!(trim_window(&v, 0, 10), (0, 10));
    assert_eq!(trim_window(&v, 5, 5), (5, 5));
}

#[test]
fn one_scheme_word_is_skipped() {
    let v = chars_of("Basic Basic abc");
    assert_eq!(skip_scheme(&v, 0, v.len()), 6);
    assert_eq!(skip_scheme(&v, 6, v.len()), 12);
    assert_eq!(skip_scheme(&v, 12, v.len()), 12);
    assert_eq!(skip_scheme(&v, 1, v.len()), 1);
    assert_eq!(skip_scheme(&v, 0, 5), 0);
    assert_eq!(skip_scheme(&v, 0, 6), 6);
    let v = chars_of("BasicBasic ");
    assert_eq!(skip_scheme(&v, 0, v.len()), 0);
    let v = chars_of("basic abc");
    assert_eq!(skip_scheme(&v, 0, v.len()), 0);
}

#[test]
fn single_occurrence_is_found() {
    let v = chars_of("a:b");
    assert_eq!(find_single(&v, 0, 3, ':'), Some(1));
    assert_eq!(find_single(&v, 0, 1, ':'), None);
    assert_eq!(find_single(&v, 1, 2, ':'), Some(1));
    let v = chars_of("a:b:c");
    assert_eq!(find_single(&v, 0, 5, ':'), None);
    assert_eq!(find_single(&v, 0, 3, ':'), Some(1));
    assert_eq!(find_single(&v, 2, 5, ':'), Some(3));
    assert_eq!(find_single(&v, 0, 5, 'b'), Some(2));
    let v = chars_of(":::");
    assert_eq!(find_single(&v, 0, 3, ':'), None);
    assert_eq!(find_single(&v, 0, 0, ':'), None);
}
