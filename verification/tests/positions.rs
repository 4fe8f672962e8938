use rule::{cursor_pos, Grammar, Reducer, Rule, RuleError};

struct NoRed;

impl Reducer<u8> for NoRed {
    fn reduce(&mut self, _tag: u64, b: Vec<u8>, _l: &Vec<char>) -> Result<Vec<u8>, String> {
        Ok(b)
    }
}

#[test]
fn cursor_pos_counts_lines_and_columns() {
    let text: Vec<char> = "ab\ncd\r\nef\rgh".chars().collect();
    let cases: Vec<(usize, usize, usize)> = vec![
        (0, 1, 0),
        (1, 1, 1),
        (2, 1, 2),
        (3, 2, 0),
        (5, 2, 2),
        (6, 3, 0),  // between \r and \n of a \r\n pair: still a break
        (7, 3, 0),
        (9, 3, 2),
        (10, 4, 0),
        (12, 4, 2),
    ];
    for (end, line, col) in cases {
        let p = cursor_pos(&text, end);
        assert_eq!((p.line, p.col), (line, col), "offset {}", end);
    }
}

#[test]
fn rule_error_clamps_offsets_past_the_end() {
    let text: Vec<char> = "ab".chars().collect();
    let e = RuleError::new(&text, 99, "m".to_string());
    assert_eq!((e.line, e.col), (1, 2));
}

#[test]
fn render_writes_multi_digit_positions() {
    let mut text = String::new();
    for _ in 0..11 {
        text.push('\n');
    }
    text.push_str("0123456789");
    let chars: Vec<char> = text.chars().collect();
    let e = RuleError::new(&chars, 21, "m".to_string());
    assert_eq!(e.render(), "Error found at line 12, column: 10: m".to_string());
}

#[test]
fn error_lines_follow_newlines_in_the_input() {
    let g = &mut Grammar::new();
    let line = Rule::new(g, None);
    line.literal(g, "ok\n");

    let root = Rule::new(g, None);
    root.at_least(g, 3, line);

    let mut red = NoRed;
    let err = root.scan(g, &mut red, "ok\nok\nxx\n").unwrap_err();
    assert_eq!((err.line, err.col), (3, 0));
    assert_eq!(err.msg, "Syntax error.");
}
