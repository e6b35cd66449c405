use linebreak::char_buffer::CharBuffer;
use linebreak::cursor::{next_char, utf8_len};
use linebreak::line_iter::{split_index, LineIter, MAX_LINE_WIDTH};
use linebreak::linebreak::{contains, LBO_AFTERS, LBO_BEFORES};
use linebreak::unicode::text_width_within;
use linebreak::{line_break_opportunity, term_cols, term_size, LboState, LboType, Size};

fn all_lines(iter: &mut LineIter) -> Vec<String> {
    let mut lines = Vec::new();
    while let Some(line) = iter.next() {
        lines.push(line);
    }
    lines
}

fn filled(text: &str, capacity: usize) -> CharBuffer {
    let mut buf = CharBuffer::new(capacity);
    for ch in text.chars() {
        assert!(buf.add(ch));
    }
    buf
}

#[test]
fn test_indent_set_after_first_line() {
    let mut iter = LineIter::new("abcdefghijklmnopqrstuvwxyz", 10);
    assert_eq!(iter.next().unwrap(), "abcdefghij");
    assert!(iter.set_indent("   "));
    assert_eq!(iter.next().unwrap(), "   klmnopq");
    assert_eq!(iter.next().unwrap(), "   rstuvwx");
    assert_eq!(iter.next().unwrap(), "   yz");
    assert!(iter.next().is_none());
}

#[test]
fn test_ten_wide_chars_at_width_20_and_18() {
    let text = "あいうえおかきくけこ";
    let mut iter = LineIter::new(text, 20);
    assert_eq!(all_lines(&mut iter), vec![text.to_string()]);

    let mut iter = LineIter::new(text, 18);
    assert_eq!(
        all_lines(&mut iter),
        vec!["あいうえおかきくけ".to_string(), "こ".to_string()]
    );
}

#[test]
fn test_full_buffer_is_given_out_whole() {
    let text = ",bbbbbbbbbbbccc";
    let mut iter = LineIter::new(text, 10);
    assert_eq!(all_lines(&mut iter), vec![",", "bbbbbbbbbb", "bccc"]);
}

#[test]
fn test_opening_marks_in_a_row_count_in_full() {
    let mut iter = LineIter::new("a((bcd", 4);
    assert_eq!(all_lines(&mut iter), vec!["a", "((bc", "d"]);
}

#[test]
fn test_opening_marks_alone_fill_the_line() {
    let mut iter = LineIter::new("(((a", 3);
    assert_eq!(all_lines(&mut iter), vec!["(((", "a"]);
}

#[test]
fn test_wide_chars_at_width_one() {
    let mut iter = LineIter::new("あい", 1);
    assert_eq!(all_lines(&mut iter), vec!["", "あ", "", "い", ""]);
}

#[test]
fn test_narrow_chars_at_width_one() {
    let mut iter = LineIter::new("ab c", 1);
    assert_eq!(all_lines(&mut iter), vec!["a", "b", "c"]);
}

#[test]
fn test_line_terminators_give_empty_lines() {
    let mut iter = LineIter::new("a\r\nb\n", 5);
    assert_eq!(all_lines(&mut iter), vec!["a", "", "b", ""]);
}

#[test]
fn test_line_terminator_closes_quotation() {
    let mut iter = LineIter::new("\"ab\ncd\" ef", 20);
    assert_eq!(all_lines(&mut iter), vec!["\"ab", "cd\" ef"]);
}

#[test]
fn test_tab_takes_no_space_and_allows_a_break() {
    let mut iter = LineIter::new("abc\tdef", 4);
    assert_eq!(all_lines(&mut iter), vec!["abc", "def"]);
    let mut iter = LineIter::new("abc\tdef", 6);
    assert_eq!(all_lines(&mut iter), vec!["abcdef"]);
}

#[test]
fn test_set_indent_refuses_what_leaves_no_column() {
    let mut iter = LineIter::new("abcdef", 4);
    assert!(!iter.set_indent("1234"));
    assert!(!iter.set_indent("あい"));
    assert!(!iter.set_indent("12345"));
    assert_eq!(iter.next().unwrap(), "abcd");
    assert!(iter.set_indent("123"));
    assert_eq!(iter.next().unwrap(), "123e");
    assert!(!iter.set_indent("1234"));
    assert!(iter.set_indent(""));
    assert_eq!(iter.next().unwrap(), "f");
    assert!(iter.next().is_none());
}

#[test]
fn test_indent_grows_over_buffered_content() {
    let mut iter = LineIter::new("aa, bbbbbbbccc", 10);
    assert_eq!(iter.next().unwrap(), "aa,");
    assert!(iter.set_indent("123456"));
    assert_eq!(iter.next().unwrap(), "123456bbbb");
    assert_eq!(iter.next().unwrap(), "123456bbbc");
    assert_eq!(iter.next().unwrap(), "123456cc");
    assert!(iter.next().is_none());
}

#[test]
fn test_no_line_for_an_empty_line_gets_the_indent() {
    let mut iter = LineIter::new("a\n\nb", 5);
    assert!(iter.set_indent("> "));
    assert_eq!(all_lines(&mut iter), vec!["> a", "", "> b"]);
}

#[test]
fn test_try_new() {
    assert!(LineIter::try_new("abc", 0).is_none());
    assert!(LineIter::try_new("abc", usize::MAX).is_none());
    assert!(LineIter::try_new("abc", MAX_LINE_WIDTH + 1).is_none());
    let mut iter = LineIter::try_new("abc def", 3).unwrap();
    assert_eq!(all_lines(&mut iter), vec!["abc", "def"]);
}

#[test]
fn test_end_stays_the_end() {
    let mut iter = LineIter::new("abc", 3);
    assert_eq!(iter.next().unwrap(), "abc");
    assert!(iter.next().is_none());
    assert!(iter.next().is_none());
    assert!(iter.set_indent(" "));
    assert!(iter.next().is_none());
    iter.init("de");
    assert_eq!(iter.next().unwrap(), " de");
    assert!(iter.next().is_none());
}

#[test]
fn test_init_drops_what_was_buffered() {
    let mut iter = LineIter::new("abc \"def", 4);
    assert_eq!(iter.next().unwrap(), "abc");
    iter.init("\"gh\" i");
    assert_eq!(iter.next().unwrap(), "\"gh\"");
    assert_eq!(iter.next().unwrap(), "i");
    assert!(iter.next().is_none());
}

#[test]
fn test_split_index() {
    let buf = filled("abcde", 5);
    assert_eq!(split_index(&buf, 0), 5);
    assert_eq!(split_index(&buf, 1), 4);
    assert_eq!(split_index(&buf, 2), 3);
    assert_eq!(split_index(&buf, 5), 0);
    assert_eq!(split_index(&buf, 6), 0);

    let buf = filled("aあbい", 4);
    assert_eq!(split_index(&buf, 1), 3);
    assert_eq!(split_index(&buf, 2), 3);
    assert_eq!(split_index(&buf, 3), 2);
    assert_eq!(split_index(&buf, 4), 1);
    assert_eq!(split_index(&buf, 5), 1);
    assert_eq!(split_index(&buf, 6), 0);

    let buf = CharBuffer::new(3);
    assert_eq!(split_index(&buf, 0), 0);
    assert_eq!(split_index(&buf, 2), 0);
}

#[test]
fn test_get() {
    let buf = filled("aあb", 5);
    assert_eq!(buf.get(0), Some('a'));
    assert_eq!(buf.get(1), Some('あ'));
    assert_eq!(buf.get(2), Some('b'));
    assert_eq!(buf.get(3), None);
    assert_eq!(buf.get(usize::MAX), None);
}

#[test]
fn test_cr_keeps_the_order() {
    let mut buf = filled("abcdefg", 7);
    buf.cr(0);
    assert_eq!(buf.full(), "abcdefg");
    buf.cr(2);
    assert_eq!(buf.full(), "cdefg");
    assert_eq!(buf.add('h'), true);
    assert_eq!(buf.add('i'), true);
    assert_eq!(buf.add('j'), false);
    assert_eq!(buf.full(), "cdefghi");
    buf.cr(6);
    assert_eq!(buf.full(), "i");
    buf.cr(usize::MAX);
    assert_eq!(buf.full(), "");
}

#[test]
fn test_trimming_takes_all_kinds_of_white_space() {
    let buf = filled("a \t\u{3000}\u{a0}", 5);
    assert_eq!(buf.to_string_trimmed_end(), "a");
    assert_eq!(buf.substring_trimmed_end(0, 100), "a");
    assert_eq!(buf.substring_trimmed_end(1, 100), "");
    let buf = filled(" \tb", 5);
    assert_eq!(buf.to_string_trimmed_end(), " \tb");
}

#[test]
fn test_next_char() {
    assert_eq!(next_char(""), None);
    assert_eq!(next_char("a"), Some(('a', "")));
    assert_eq!(next_char("aé"), Some(('a', "é")));
    assert_eq!(next_char("éあ𠮷z"), Some(('é', "あ𠮷z")));
    assert_eq!(next_char("あ𠮷z"), Some(('あ', "𠮷z")));
    assert_eq!(next_char("𠮷z"), Some(('𠮷', "z")));
    assert_eq!(next_char("\u{7f}\u{80}"), Some(('\u{7f}', "\u{80}")));
    assert_eq!(next_char("\u{7ff}\u{800}"), Some(('\u{7ff}', "\u{800}")));
    assert_eq!(next_char("\u{ffff}\u{10000}"), Some(('\u{ffff}', "\u{10000}")));
    assert_eq!(next_char("\u{10ffff}"), Some(('\u{10ffff}', "")));
}

#[test]
fn test_utf8_len_is_that_of_std() {
    for ch in '\0'..=char::MAX {
        assert_eq!(utf8_len(ch), ch.len_utf8());
    }
}

#[test]
fn test_text_width_within() {
    assert_eq!(text_width_within("", 0), Some(0));
    assert_eq!(text_width_within("abc", 3), Some(3));
    assert_eq!(text_width_within("abc", 2), None);
    assert_eq!(text_width_within("あいう", 6), Some(6));
    assert_eq!(text_width_within("あいう", 5), None);
    assert_eq!(text_width_within("a\u{2}b", 2), Some(2));
    assert_eq!(text_width_within("abc", usize::MAX), Some(3));
}

#[test]
fn test_mark_of_both_tables_opens() {
    assert_eq!(contains(&LBO_BEFORES, '\u{3008}'), true);
    assert_eq!(contains(&LBO_AFTERS, '\u{3008}'), true);
    let mut state = LboState {
        lbo_type: LboType::Never,
        lbo_prev: LboType::Never,
        open_apos: 0,
        open_quot: 0,
    };
    line_break_opportunity('\u{3008}', &mut state);
    assert_eq!(state.lbo_type, LboType::Before);
    line_break_opportunity('\u{3009}', &mut state);
    assert_eq!(state.lbo_type, LboType::After);
    assert_eq!(state.lbo_prev, LboType::Before);
}

#[test]
fn test_kinds_of_plain_chars() {
    let mut state = LboState {
        lbo_type: LboType::Never,
        lbo_prev: LboType::Never,
        open_apos: 1,
        open_quot: 2,
    };
    line_break_opportunity('\r', &mut state);
    assert_eq!(state.lbo_type, LboType::Break);
    line_break_opportunity('\t', &mut state);
    assert_eq!(state.lbo_type, LboType::Space);
    assert_eq!(state.lbo_prev, LboType::Break);
    line_break_opportunity('\u{3000}', &mut state);
    assert_eq!(state.lbo_type, LboType::Space);
    line_break_opportunity('Ａ', &mut state);
    assert_eq!(state.lbo_type, LboType::Both);
    line_break_opportunity('ｱ', &mut state);
    assert_eq!(state.lbo_type, LboType::Never);
    line_break_opportunity('α', &mut state);
    assert_eq!(state.lbo_type, LboType::Never);
    assert_eq!(state.open_apos, 1);
    assert_eq!(state.open_quot, 2);
}

#[test]
fn mod_test_get_terminal_cols() {
    assert_eq!(term_cols(Some(132)), 132);
    assert_eq!(term_cols(Some(0)), 0);
    assert_eq!(term_cols(Some(u16::MAX)), 65535);
    assert_eq!(term_cols(None), 80);
}

#[test]
fn mod_test_get_terminal_size() {
    let size = term_size(Some(Size { col: 132, row: 43 }));
    assert_eq!(size.col, 132);
    assert_eq!(size.row, 43);
    let size = term_size(None);
    assert_eq!(size.col, 80);
    assert_eq!(size.row, 24);
}

#[test]
fn test_indent_of_four_after_first_line() {
    let mut iter = LineIter::new("abcdefghijklmnopqrstuvwxyz", 10);
    assert_eq!(iter.next().unwrap(), "abcdefghij");
    assert!(iter.set_indent("    "));
    assert_eq!(iter.next().unwrap(), "    klmnop");
    assert_eq!(iter.next().unwrap(), "    qrstuv");
    assert_eq!(iter.next().unwrap(), "    wxyz");
    assert!(iter.next().is_none());
}

#[test]
fn test_two_opening_marks_keep_the_width() {
    let mut iter = LineIter::new("abc ((def ghi", 8);
    assert_eq!(all_lines(&mut iter), vec!["abc", "((def", "ghi"]);
}

#[test]
fn test_opening_mark_stays_with_what_follows() {
    let mut iter = LineIter::new("abcdef (gh", 8);
    assert_eq!(all_lines(&mut iter), vec!["abcdef", "(gh"]);
    let mut iter = LineIter::new("abcde \"(gh", 8);
    assert_eq!(all_lines(&mut iter), vec!["abcde", "\"(gh"]);
}

#[test]
fn test_indent_set_behind_opening_marks_and_space() {
    let mut iter = LineIter::new("a(( b", 3);
    assert_eq!(iter.next().unwrap(), "a");
    assert!(iter.set_indent("x"));
    assert_eq!(iter.next().unwrap(), "x((");
    assert_eq!(iter.next().unwrap(), "x b");
    assert!(iter.next().is_none());

    let mut iter = LineIter::new("a(( b", 3);
    assert_eq!(all_lines(&mut iter), vec!["a", "((", "b"]);
}
