use icu::properties::maps;
use icu::properties::EastAsianWidth;
use icu::properties::GeneralCategory;
use linebreak::{char_width, is_print, text_width};

#[test]
fn test_is_print() {
    for ch in '\0'..char::MAX {
        check_is_print(ch);
    }
}

fn check_is_print(ch: char) {
    let b = is_print(ch);
    match maps::general_category().get(ch) {
        GeneralCategory::Control => assert_eq!(b, false), // Cc
        GeneralCategory::Format => assert_eq!(b, false),  // Cf
        //GeneralCategory::Surrogate => assert_eq!(b, false), // Cs, impossible
        GeneralCategory::PrivateUse => assert_eq!(b, false), // Co
        GeneralCategory::Unassigned => assert_eq!(b, false), // Cn
        GeneralCategory::LineSeparator => assert_eq!(b, false), // Zl
        GeneralCategory::ParagraphSeparator => assert_eq!(b, false), // Zp
        GeneralCategory::SpaceSeparator => {
            // Zs
            if ch == ' ' {
                // 0x20
                assert_eq!(b, true);
            } else {
                assert_eq!(b, false);
            }
        }
        _ => assert_eq!(b, true),
    }
}

#[test]
fn test_char_width() {
    let ch = 'क';
    assert_eq!(maps::east_asian_width().get(ch), EastAsianWidth::Neutral);
    assert_eq!(char_width(ch), 1);

    let ch = 'α';
    assert_eq!(maps::east_asian_width().get(ch), EastAsianWidth::Ambiguous);
    assert_eq!(char_width(ch), 2);

    let ch = 'ｱ';
    assert_eq!(maps::east_asian_width().get(ch), EastAsianWidth::Halfwidth);
    assert_eq!(char_width(ch), 1);

    let ch = 'Ａ';
    assert_eq!(maps::east_asian_width().get(ch), EastAsianWidth::Fullwidth);
    assert_eq!(char_width(ch), 2);

    let ch = 'A';
    assert_eq!(maps::east_asian_width().get(ch), EastAsianWidth::Narrow);
    assert_eq!(char_width(ch), 1);

    let ch = 'ア';
    assert_eq!(maps::east_asian_width().get(ch), EastAsianWidth::Wide);
    assert_eq!(char_width(ch), 2);

    let ch = '\t';
    assert_eq!(maps::east_asian_width().get(ch), EastAsianWidth::Neutral);
    assert_eq!(char_width(ch), 0);
}

#[test]
fn test_text_width() {
    assert_eq!(text_width("abc"), 3);
    assert_eq!(text_width("あいう"), 6);
    assert_eq!(text_width(""), 0);
}

#[test]
fn it_should_get_char_width() {
    assert_eq!(char_width('\n'), 0);
    assert_eq!(char_width('\r'), 0);

    assert_eq!(char_width(' '), 1);
    assert_eq!(char_width('a'), 1);
    assert_eq!(char_width('A'), 1);
    assert_eq!(char_width('1'), 1);
    assert_eq!(char_width('#'), 1);
    assert_eq!(char_width('ｱ'), 1);

    assert_eq!(char_width('Ａ'), 2);
    assert_eq!(char_width('あ'), 2);
    assert_eq!(char_width('ア'), 2);
    assert_eq!(char_width('ァ'), 2);
    assert_eq!(char_width('＃'), 2);
}

#[test]
fn it_should_get_text_width() {
    assert_eq!(text_width("Hello, world!"), 13);
    assert_eq!(text_width("こんにちわ、世界！"), 18);
}

#[test]
fn it_should_check_if_char_is_print() {
    assert_eq!(is_print('\r'), false);
    assert_eq!(is_print('\n'), false);

    assert_eq!(is_print(' '), true);
    assert_eq!(is_print('a'), true);
    assert_eq!(is_print('A'), true);
    assert_eq!(is_print('1'), true);
    assert_eq!(is_print('#'), true);
    assert_eq!(is_print('ｱ'), true);

    assert_eq!(is_print('Ａ'), true);
    assert_eq!(is_print('あ'), true);
    assert_eq!(is_print('ア'), true);
    assert_eq!(is_print('ァ'), true);
    assert_eq!(is_print('＃'), true);
}
