use richterm::cell_cache::{cell_len, default_cell_len_cache};
use richterm::cells::{get_codepoint_cell_size, text_width};
use richterm::utils::wrap::{divide_line, words};

#[test]
fn words_take_the_white_space_around_them() {
    assert_eq!(
        words("  foo bar  baz"),
        vec![
            (0, 6, "  foo ".to_string()),
            (6, 11, "bar  ".to_string()),
            (11, 14, "baz".to_string()),
        ]
    );
    assert_eq!(words("   \t\n "), vec![]);
    assert_eq!(words(""), vec![]);
    assert_eq!(words("😽\u{a0}x"), vec![(0, 2, "😽\u{a0}".to_string()), (2, 3, "x".to_string())]);
}

#[test]
fn divide_line_breaks_between_words() {
    assert_eq!(divide_line("foo bar baz", 7, None), vec![8]);
    assert_eq!(divide_line("foo bar baz", 3, None), vec![4, 8]);
    assert_eq!(divide_line("foo bar baz", 11, None), vec![]);
    assert_eq!(divide_line("foo bar baz", 100, Some(false)), vec![]);
    assert_eq!(divide_line("", 3, None), vec![]);
    assert_eq!(divide_line("     ", 3, None), vec![]);
}

#[test]
fn divide_line_folds_long_words() {
    assert_eq!(divide_line("abcdefgh", 3, None), vec![3, 6]);
    assert_eq!(divide_line("ab cdefghij", 4, None), vec![4, 8]);
    assert_eq!(divide_line("abc defghijk", 4, None), vec![4, 8]);
    assert_eq!(divide_line("😽😽😽", 4, None), vec![2]);
    assert_eq!(divide_line("😽😽😽", 2, None), vec![1, 2]);
}

#[test]
fn divide_line_without_folding_lets_long_words_hang_over() {
    assert_eq!(divide_line("abcdefgh", 3, Some(false)), vec![]);
    assert_eq!(divide_line("ab cdefghij kl", 4, Some(false)), vec![3, 12]);
}

#[test]
fn folded_lines_of_a_single_word_fit() {
    let text = "a😽bc😽😽defg😽h";
    let chars: Vec<char> = text.chars().collect();
    for width in 2..14 {
        let divides = divide_line(text, width, None);
        let mut bounds = vec![0];
        bounds.extend(divides.iter().cloned());
        bounds.push(chars.len());
        for pair in bounds.windows(2) {
            assert!(pair[0] <= pair[1]);
            let line: String = chars[pair[0]..pair[1]].iter().collect();
            assert!(text_width(&line) <= width);
        }
        for pair in divides.windows(2) {
            assert!(pair[0] < pair[1]);
        }
    }
}

#[test]
fn cell_len_agrees_with_the_width_and_fills_the_cache() {
    let mut cache = default_cell_len_cache();
    assert_eq!(cache.len(), 0);
    assert_eq!(cache.cap(), 4096);
    assert_eq!(cell_len("foo😽", &mut cache), 5);
    assert_eq!(cache.len(), 1);
    assert_eq!(cache.peek("foo😽"), Some(&5));
    assert_eq!(cell_len("foo😽", &mut cache), 5);
    assert_eq!(cell_len("", &mut cache), 0);
    assert_eq!(cache.len(), 2);
    let long = "x".repeat(65);
    assert_eq!(cell_len(&long, &mut cache), 65);
    assert_eq!(cache.len(), 2);
    let just = "x".repeat(64);
    assert_eq!(cell_len(&just, &mut cache), 64);
    assert_eq!(cache.len(), 3);
    assert_eq!(text_width(&just), 64);
}

#[test]
fn cell_len_returns_what_the_cache_holds() {
    let mut cache = default_cell_len_cache();
    cache.put("foo".to_string(), 7);
    assert_eq!(cell_len("foo", &mut cache), 7);
    assert_eq!(cell_len("bar", &mut cache), 3);
}

#[test]
fn widths_of_code_points() {
    assert_eq!(get_codepoint_cell_size(0x41), 1);
    assert_eq!(get_codepoint_cell_size(0x0300), 0);
    assert_eq!(get_codepoint_cell_size(0x036F), 0);
    assert_eq!(get_codepoint_cell_size(0x0370), 1);
    assert_eq!(get_codepoint_cell_size(0x1100), 2);
    assert_eq!(get_codepoint_cell_size(0x4E2D), 2);
    assert_eq!(get_codepoint_cell_size(0x3FFFD), 2);
    assert_eq!(get_codepoint_cell_size(0x3FFFE), 1);
    assert_eq!(get_codepoint_cell_size(0x02FF), 1);
    assert_eq!(get_codepoint_cell_size(u32::MAX), 1);
    for c in 0u8..128 {
        assert_eq!(richterm::cells::get_character_cell_size(c as char), 1);
    }
    assert_eq!(text_width("e\u{301}中"), 3);
}

#[test]
fn folded_lines_fit_once_their_trailing_white_space_is_off() {
    let texts = [
        "aaa bbb",
        "  the quick  brown😽fox   jumps over the lazydoglazydoglazydog  ",
        "😽😽 😽😽😽😽😽 x",
        "a    b    c",
    ];
    for text in texts.iter() {
        let chars: Vec<char> = text.chars().collect();
        for width in 2..12 {
            let divides = divide_line(text, width, Some(true));
            let mut bounds = vec![0];
            bounds.extend(divides.iter().cloned());
            bounds.push(chars.len());
            for pair in bounds.windows(2) {
                assert!(pair[0] <= pair[1]);
                let line: String = chars[pair[0]..pair[1]].iter().collect();
                assert!(text_width(line.trim_end()) <= width);
            }
            for pair in divides.windows(2) {
                assert!(pair[0] < pair[1]);
            }
        }
    }
    assert_eq!(divide_line("aaa bbb", 3, None), vec![4]);
    assert_eq!(text_width("aaa "), 4);
}
