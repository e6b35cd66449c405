use linebreak::{char_width, text_width, LineIter};

const SAMPLES: [&str; 8] = [
    "",
    "       ",
    "The Rust programming language helps you write faster, more reliable software.",
    "abc def \" ghi j \" kl mno pq\" rst uvw\" xyz",
    "東アジアの全角文字は基本的に、文字の前後どちらに行の終わりが来ても改行が行われます。",
    "開き括弧は「行末に置く」ことは禁止である。[(nested {brackets}) too], and «more».",
    "one\ntwo\r\nthree\n\n  four\tfive\u{2}six \u{3000} seven",
    "aaaaaaaaaaaaaaaaaaaaaaaaaaaaaaaaaaaaaaaaaaaaaaaaaaaaaaaaaaaaaaaaaaaaaaaaaaaaaaaaaaaaaaaaaaaaaa",
];

const WIDTHS: [usize; 7] = [2, 3, 5, 8, 13, 20, 80];

fn lines_of(text: &str, width: usize, indent: &str, indent_from: usize) -> Vec<String> {
    let mut iter = LineIter::new(text, width);
    let mut lines = Vec::new();
    loop {
        if lines.len() == indent_from {
            iter.set_indent(indent);
        }
        match iter.next() {
            Some(line) => lines.push(line),
            None => break,
        }
        assert!(lines.len() <= 2 * text.chars().count() + 1);
    }
    assert!(iter.next().is_none());
    assert!(iter.next().is_none());
    lines
}

fn content_of<'a>(line: &'a str, index: usize, indent: &str, indent_from: usize) -> &'a str {
    if index >= indent_from && !line.is_empty() {
        assert!(line.starts_with(indent));
        &line[indent.len()..]
    } else {
        line
    }
}

fn ink(text: &str) -> String {
    text.chars()
        .filter(|ch| !ch.is_whitespace() && char_width(*ch) > 0)
        .collect()
}

#[test]
fn test_every_line_fits() {
    for text in SAMPLES {
        for width in WIDTHS {
            for line in lines_of(text, width, "", 0) {
                assert!(text_width(&line) <= width);
            }
            if width > 3 {
                for line in lines_of(text, width, "> ", 1) {
                    assert!(text_width(&line) <= width);
                }
            }
        }
    }
}

#[test]
fn test_single_wide_char_at_width_one_is_the_exception() {
    let lines = lines_of("aあb", 1, "", 0);
    assert_eq!(lines, vec!["a", "あ", "b"]);
    assert_eq!(text_width(&lines[1]), 2);
}

#[test]
fn test_lines_hold_the_ink_of_the_text() {
    for text in SAMPLES {
        for width in WIDTHS {
            let joined: String = lines_of(text, width, "", 0).concat();
            assert_eq!(ink(&joined), ink(text));
            if width > 3 {
                let lines = lines_of(text, width, "> ", 2);
                let mut joined = String::new();
                for (i, line) in lines.iter().enumerate() {
                    joined.push_str(content_of(line, i, "> ", 2));
                }
                assert_eq!(ink(&joined), ink(text));
            }
        }
    }
}

#[test]
fn test_no_line_begins_or_ends_with_white_space() {
    for text in SAMPLES {
        for width in WIDTHS {
            for line in lines_of(text, width, "", 0) {
                assert_eq!(line.trim(), line);
            }
            if width > 3 {
                let lines = lines_of(text, width, "__", 1);
                for (i, line) in lines.iter().enumerate() {
                    let content = content_of(line, i, "__", 1);
                    assert_eq!(content.trim(), content);
                }
            }
        }
    }
}

#[test]
fn test_same_input_gives_same_lines() {
    for text in SAMPLES {
        for width in WIDTHS {
            assert_eq!(lines_of(text, width, "", 0), lines_of(text, width, "", 0));
            assert_eq!(lines_of(text, width, " ", 1), lines_of(text, width, " ", 1));
        }
    }
    let text = SAMPLES[2];
    let mut iter = LineIter::new(text, 13);
    let mut first = Vec::new();
    while let Some(line) = iter.next() {
        first.push(line);
    }
    iter.init(text);
    let mut second = Vec::new();
    while let Some(line) = iter.next() {
        second.push(line);
    }
    assert_eq!(first, second);
    assert_eq!(first, lines_of(text, 13, "", 0));
}

#[test]
fn test_lines_come_to_an_end() {
    for text in SAMPLES {
        for width in WIDTHS {
            let lines = lines_of(text, width, "", 0);
            assert!(lines.len() >= 1);
            assert!(lines.len() <= 2 * text.chars().count() + 1);
        }
    }
    assert_eq!(lines_of("", 1, "", 0), vec![""]);
}
