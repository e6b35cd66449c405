use linebreak::linebreak::{contains, LBO_AFTERS, LBO_BEFORES, LBO_BREAKS};
use linebreak::{line_break_opportunity, LboState, LboType};

#[test]
fn test_contains_in_lbo_breaks() {
    assert_eq!(contains(&LBO_BREAKS, '\r'), true);
    assert_eq!(contains(&LBO_BREAKS, '\n'), true);
    assert_eq!(contains(&LBO_BREAKS, '\t'), false);
    assert_eq!(contains(&LBO_BREAKS, 'a'), false);
    assert_eq!(contains(&LBO_BREAKS, '1'), false);
}

#[test]
fn test_contains_in_lbo_befores() {
    assert_eq!(contains(&LBO_BEFORES, '('), true);
    assert_eq!(contains(&LBO_BEFORES, ')'), false);
    assert_eq!(contains(&LBO_BEFORES, '['), true);
    assert_eq!(contains(&LBO_BEFORES, ']'), false);
    assert_eq!(contains(&LBO_BEFORES, '「'), true);
    assert_eq!(contains(&LBO_BEFORES, '」'), false);
    assert_eq!(contains(&LBO_BEFORES, 'a'), false);
    assert_eq!(contains(&LBO_BEFORES, '1'), false);
}

#[test]
fn test_contains_in_lbo_afters() {
    assert_eq!(contains(&LBO_AFTERS, '!'), true);
    assert_eq!(contains(&LBO_AFTERS, ')'), true);
    assert_eq!(contains(&LBO_AFTERS, ','), true);
    assert_eq!(contains(&LBO_AFTERS, '.'), true);
    assert_eq!(contains(&LBO_AFTERS, '?'), true);
    assert_eq!(contains(&LBO_AFTERS, 'ァ'), true);
    assert_eq!(contains(&LBO_AFTERS, '、'), true);
    assert_eq!(contains(&LBO_AFTERS, '。'), true);
    assert_eq!(contains(&LBO_AFTERS, 'a'), false);
    assert_eq!(contains(&LBO_AFTERS, '1'), false);
    assert_eq!(contains(&LBO_AFTERS, 'ア'), false);
}

#[test]
fn test_line_break_opportunity_ch_is_opening_quot() {
    let mut state = LboState {
        lbo_type: LboType::Both,
        lbo_prev: LboType::Never,
        open_apos: 0,
        open_quot: 0,
    };

    line_break_opportunity('"', &mut state);

    assert_eq!(state.lbo_type, LboType::Before);
    assert_eq!(state.lbo_prev, LboType::Both);
    assert_eq!(state.open_apos, 0);
    assert_eq!(state.open_quot, 1);
}

#[test]
fn test_line_break_opportunity_ch_is_opening_apos() {
    let mut state = LboState {
        lbo_type: LboType::Both,
        lbo_prev: LboType::Never,
        open_apos: 0,
        open_quot: 0,
    };

    line_break_opportunity('\'', &mut state);

    assert_eq!(state.lbo_type, LboType::Before);
    assert_eq!(state.lbo_prev, LboType::Both);
    assert_eq!(state.open_apos, 1);
    assert_eq!(state.open_quot, 0);
}

#[test]
fn test_line_break_opportunity_ch_is_closing_quot() {
    let mut state = LboState {
        lbo_type: LboType::Both,
        lbo_prev: LboType::Never,
        open_apos: 0,
        open_quot: 1,
    };

    line_break_opportunity('"', &mut state);

    assert_eq!(state.lbo_type, LboType::After);
    assert_eq!(state.lbo_prev, LboType::Both);
    assert_eq!(state.open_apos, 0);
    assert_eq!(state.open_quot, 0);
}

#[test]
fn test_line_break_opportunity_ch_is_closing_apos() {
    let mut state = LboState {
        lbo_type: LboType::Both,
        lbo_prev: LboType::Never,
        open_apos: 1,
        open_quot: 0,
    };

    line_break_opportunity('\'', &mut state);

    assert_eq!(state.lbo_type, LboType::After);
    assert_eq!(state.lbo_prev, LboType::Both);
    assert_eq!(state.open_apos, 0);
    assert_eq!(state.open_quot, 0);
}

#[test]
fn test_line_break_opportunity_ch_is_opening_quot_after_opening_apos() {
    let mut state = LboState {
        lbo_type: LboType::Both,
        lbo_prev: LboType::Never,
        open_apos: 1,
        open_quot: 0,
    };

    line_break_opportunity('"', &mut state);

    assert_eq!(state.lbo_type, LboType::Before);
    assert_eq!(state.lbo_prev, LboType::Both);
    assert_eq!(state.open_apos, 1);
    assert_eq!(state.open_quot, 2);
}

#[test]
fn test_line_break_opportunity_ch_is_opening_apos_after_opening_quot() {
    let mut state = LboState {
        lbo_type: LboType::Both,
        lbo_prev: LboType::Never,
        open_apos: 0,
        open_quot: 1,
    };

    line_break_opportunity('\'', &mut state);

    assert_eq!(state.lbo_type, LboType::Before);
    assert_eq!(state.lbo_prev, LboType::Both);
    assert_eq!(state.open_apos, 2);
    assert_eq!(state.open_quot, 1);
}

#[test]
fn test_line_break_opportunity_ch_is_closing_quot_inside_apos_pair() {
    let mut state = LboState {
        lbo_type: LboType::Both,
        lbo_prev: LboType::Never,
        open_apos: 1,
        open_quot: 2,
    };

    line_break_opportunity('"', &mut state);

    assert_eq!(state.lbo_type, LboType::After);
    assert_eq!(state.lbo_prev, LboType::Both);
    assert_eq!(state.open_apos, 1);
    assert_eq!(state.open_quot, 0);
}

#[test]
fn test_line_break_opportunity_ch_is_closing_apos_inside_quot_pair() {
    let mut state = LboState {
        lbo_type: LboType::Both,
        lbo_prev: LboType::Never,
        open_apos: 2,
        open_quot: 1,
    };

    line_break_opportunity('\'', &mut state);

    assert_eq!(state.lbo_type, LboType::After);
    assert_eq!(state.lbo_prev, LboType::Both);
    assert_eq!(state.open_apos, 0);
    assert_eq!(state.open_quot, 1);
}

#[test]
fn test_line_break_opportunity_ch_is_closing_quot_before_closing_apos() {
    let mut state = LboState {
        lbo_type: LboType::Both,
        lbo_prev: LboType::Never,
        open_apos: 2,
        open_quot: 1,
    };

    line_break_opportunity('"', &mut state);

    assert_eq!(state.lbo_type, LboType::After);
    assert_eq!(state.lbo_prev, LboType::Both);
    assert_eq!(state.open_apos, 0);
    assert_eq!(state.open_quot, 0);
}

#[test]
fn test_line_break_opportunity_ch_is_closing_apos_before_closing_quot() {
    let mut state = LboState {
        lbo_type: LboType::Both,
        lbo_prev: LboType::Never,
        open_apos: 1,
        open_quot: 2,
    };

    line_break_opportunity('\'', &mut state);

    assert_eq!(state.lbo_type, LboType::After);
    assert_eq!(state.lbo_prev, LboType::Both);
    assert_eq!(state.open_apos, 0);
    assert_eq!(state.open_quot, 0);
}

#[test]
fn test_line_break_opportunity_lbo_type_of_ch_is_lbo_break() {
    let mut state = LboState {
        lbo_type: LboType::Both,
        lbo_prev: LboType::Never,
        open_apos: 0,
        open_quot: 0,
    };

    line_break_opportunity('\n', &mut state);

    assert_eq!(state.lbo_type, LboType::Break);
    assert_eq!(state.lbo_prev, LboType::Both);
    assert_eq!(state.open_apos, 0);
    assert_eq!(state.open_quot, 0);
}

#[test]
fn test_line_break_opportunity_lbo_type_of_ch_is_lbo_before() {
    let mut state = LboState {
        lbo_type: LboType::Both,
        lbo_prev: LboType::Never,
        open_apos: 0,
        open_quot: 0,
    };

    line_break_opportunity('(', &mut state);

    assert_eq!(state.lbo_type, LboType::Before);
    assert_eq!(state.lbo_prev, LboType::Both);
    assert_eq!(state.open_apos, 0);
    assert_eq!(state.open_quot, 0);
}

#[test]
fn test_line_break_opportunity_lbo_type_of_ch_is_lbo_after() {
    let mut state = LboState {
        lbo_type: LboType::Both,
        lbo_prev: LboType::Never,
        open_apos: 0,
        open_quot: 0,
    };

    line_break_opportunity('?', &mut state);

    assert_eq!(state.lbo_type, LboType::After);
    assert_eq!(state.lbo_prev, LboType::Both);
    assert_eq!(state.open_apos, 0);
    assert_eq!(state.open_quot, 0);
}

#[test]
fn test_line_break_opportunity_lbo_type_of_ch_is_lbo_space() {
    let mut state = LboState {
        lbo_type: LboType::Both,
        lbo_prev: LboType::Never,
        open_apos: 0,
        open_quot: 0,
    };

    line_break_opportunity(' ', &mut state);

    assert_eq!(state.lbo_type, LboType::Space);
    assert_eq!(state.lbo_prev, LboType::Both);
    assert_eq!(state.open_apos, 0);
    assert_eq!(state.open_quot, 0);
}

#[test]
fn test_line_break_opportunity_lbo_type_of_ch_is_lbo_both() {
    let mut state = LboState {
        lbo_type: LboType::After,
        lbo_prev: LboType::Never,
        open_apos: 0,
        open_quot: 0,
    };

    line_break_opportunity('あ', &mut state);

    assert_eq!(state.lbo_type, LboType::Both);
    assert_eq!(state.lbo_prev, LboType::After);
    assert_eq!(state.open_apos, 0);
    assert_eq!(state.open_quot, 0);
}

#[test]
fn test_line_break_opportunity_lbo_type_of_ch_is_lbo_never() {
    let mut state = LboState {
        lbo_type: LboType::After,
        lbo_prev: LboType::Before,
        open_apos: 0,
        open_quot: 0,
    };

    line_break_opportunity('a', &mut state);

    assert_eq!(state.lbo_type, LboType::Never);
    assert_eq!(state.lbo_prev, LboType::After);
    assert_eq!(state.open_apos, 0);
    assert_eq!(state.open_quot, 0);
}

#[test]
fn test_for_coverage() {
    let t = LboType::Never;
    assert_eq!(format!("{:?}", t.clone()), "Never")
}
