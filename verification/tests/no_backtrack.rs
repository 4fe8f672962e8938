use rule::{Grammar, Reducer, Rule};

struct Red;

impl Reducer<bool> for Red {
    fn reduce(&mut self, _tag: u64, _b: Vec<bool>, _l: &Vec<char>) -> Result<Vec<bool>, String> {
        Ok(vec![false])
    }
}

#[test]
fn no_backtrack_1() {
    let g = &mut Grammar::new();
    let root = Rule::new(g, Some(0));
    root.literal(g, "汉汉").no_backtrack(g, "Oops!".to_string()).literal(g, "💝💝💝");

    let mut red = Red;

    if let Err(err) = root.scan(g, &mut red, "汉") {
        assert_eq!(err.render(), "Error found at line 1, column: 0: Syntax error.".to_string());
    } else {
        assert!(false);
    }

    if let Err(err) = root.scan(g, &mut red, "汉汉") {
        assert_eq!(err.render(), "Error found at line 1, column: 2: Oops!".to_string());
    } else {
        assert!(false);
    }

    if let Err(err) = root.scan(g, &mut red, "汉汉a") {
        assert_eq!(err.render(), "Error found at line 1, column: 2: Oops!".to_string());
    } else {
        assert!(false);
    }

    if let Err(err) = root.scan(g, &mut red, "汉汉ab") {
        assert_eq!(err.render(), "Error found at line 1, column: 2: Oops!".to_string());
    } else {
        assert!(false);
    }

    if let Err(_) = root.scan(g, &mut red, "汉汉💝💝💝") {
        assert!(false);
    } else {
        assert!(true);
    }

    if let Err(err) = root.scan(g, &mut red, "汉汉💝💝💝banana") {
        assert_eq!(err.render(), "Error found at line 1, column: 5: Syntax error.".to_string());
    } else {
        assert!(false);
    }
}

#[test]
fn no_backtrack_2() {
    let g = &mut Grammar::new();
    let hart = Rule::new(g, None);
    hart.literal(g, "汉汉💝💝💝\n");

    let root = Rule::new(g, None);
    root.none_or_many(g, hart);

    let mut red = Red;

    if let Err(_) = root.scan(g, &mut red, "汉汉💝💝💝\n") {
        assert!(false);
    } else {
        assert!(true);
    }

    if let Err(err) = root.scan(g, &mut red, "汉汉💝💝💝\n汉") {
        assert_eq!(err.render(), "Error found at line 2, column: 0: Syntax error.".to_string());
    } else {
        assert!(false);
    }

    if let Err(err) = root.scan(g, &mut red, "汉汉💝💝💝\n汉汉💝💝💝\n汉汉💝💝💝") {
        assert_eq!(err.render(), "Error found at line 3, column: 0: Syntax error.".to_string());
    } else {
        assert!(false);
    }

    if let Err(err) = root.scan(g, &mut red, "汉汉💝💝💝\n汉汉💝💝💝\n汉汉💝💝💝\n汉") {
        assert_eq!(err.render(), "Error found at line 4, column: 0: Syntax error.".to_string());
    } else {
        assert!(false);
    }
}

#[test]
fn no_backtrack_3() {
    let g = &mut Grammar::new();
    let line = Rule::new(g, None);
    line.literal(g, "汉汉").no_backtrack(g, "Yikes!".to_string()).literal(g, "💝💝💝\n");

    let root = Rule::new(g, None);
    root.none_or_many(g, line);

    let mut red = Red;

    if let Err(_) = root.scan(g, &mut red, "汉汉💝💝💝\n") {
        assert!(false);
    } else {
        assert!(true);
    }

    if let Err(err) = root.scan(g, &mut red, "汉汉💝💝💝\n汉") {
        assert_eq!(err.render(), "Error found at line 2, column: 0: Syntax error.".to_string());
    } else {
        assert!(false);
    }

    if let Err(err) = root.scan(g, &mut red, "汉汉💝💝💝\n汉汉💝💝💝\n汉汉💝💝💝") {
        assert_eq!(err.render(), "Error found at line 3, column: 2: Yikes!".to_string());
    } else {
        assert!(false);
    }

    if let Err(err) = root.scan(g, &mut red, "汉汉💝💝💝\n汉汉💝💝💝\n汉汉💝💝💝\n汉") {
        assert_eq!(err.render(), "Error found at line 4, column: 0: Syntax error.".to_string());
    } else {
        assert!(false);
    }
}
