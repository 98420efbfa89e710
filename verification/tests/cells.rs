use richterm::cells::{chop_cells, get_character_cell_size, get_codepoint_cell_size, set_cell_size};

#[test]
fn test_get_codepoint_cell_size() {
    let codepoint = '😽' as u32;
    assert_eq!(codepoint, 128573);
    assert_eq!(get_codepoint_cell_size(codepoint), 2);
}

#[test]
fn test_get_character_cell_size() {
    assert_eq!(get_character_cell_size('A'), 1);
    assert_eq!(get_character_cell_size('😽'), 2);
}

#[test]
fn test_set_cell_size() {
    assert_eq!(set_cell_size("foo", 2), "fo");
    assert_eq!(set_cell_size("foo", 3), "foo");
    assert_eq!(set_cell_size("foo", 4), "foo ");
    assert_eq!(set_cell_size("😽😽", 4), "😽😽");
    assert_eq!(set_cell_size("😽😽", 3), "😽 ");
    assert_eq!(set_cell_size("😽😽", 2), "😽");
    assert_eq!(set_cell_size("😽😽", 1), " ");
}

#[test]
fn chop_cells_fills_lines_from_the_left() {
    assert_eq!(chop_cells("abcdefgh", 3, 0), vec!["abc", "def", "gh"]);
    assert_eq!(chop_cells("abcdefgh", 3, 2), vec!["a", "bcd", "efg", "h"]);
    assert_eq!(chop_cells("abc", 3, 3), vec!["", "abc"]);
    assert_eq!(chop_cells("", 3, 0), vec![""]);
    assert_eq!(chop_cells("😽😽😽", 3, 0), vec!["😽", "😽", "😽"]);
}

#[test]
fn set_cell_size_at_the_edges() {
    assert_eq!(set_cell_size("foo", 0), "");
    assert_eq!(set_cell_size("", 0), "");
    assert_eq!(set_cell_size("", 3), "   ");
    assert_eq!(set_cell_size("😽", 0), "");
    assert_eq!(set_cell_size("e\u{301}e\u{301}", 1), "e\u{301}");
    assert_eq!(set_cell_size("a😽b", 2), "a ");
    assert_eq!(set_cell_size("a😽b", 3), "a😽");
}

#[test]
fn set_cell_size_gives_the_width_asked_for() {
    let texts = ["", "foo", "😽😽", "a😽b😽c", "e\u{301}中文"];
    for text in texts.iter() {
        for total in 0..12 {
            let sized = set_cell_size(text, total);
            assert_eq!(richterm::cells::text_width(&sized), total);
        }
    }
}
