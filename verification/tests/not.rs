use rule::{Grammar, Reducer, Rule};

struct Red;

impl Reducer<i32> for Red {
    fn reduce(&mut self, _tag: u64, b: Vec<i32>, _l: &Vec<char>) -> Result<Vec<i32>, String> {
        Ok(b)
    }
}

#[test]
fn not_1() {
    let g = &mut Grammar::new();
    let not_this = Rule::new(g, None);
    not_this.literal(g, "not this");

    let r = Rule::new(g, None);
    r.literal(g, "aaa").not(g, not_this).literal(g, "bbb").literal(g, "ccc");

    let mut red = Red;
    assert!(r.scan(g, &mut red, "aaabbbccc").is_ok());
    assert!(r.scan(g, &mut red, "aaanot thisbbbccc").is_err());
}

#[test]
fn not_literal() {
    let g = &mut Grammar::new();
    let monkey = Rule::new(g, None);
    monkey.literal(g, "monkey");

    let no_monkey = Rule::new(g, None);
    no_monkey.not(g, monkey);

    let mut red = Red;
    assert!(no_monkey.scan(g, &mut red, "").is_ok());
    assert!(no_monkey.scan(g, &mut red, "pizza").is_err());
    assert!(no_monkey.scan(g, &mut red, "monkey").is_err());
}

#[test]
fn not_one_literal() {
    let g = &mut Grammar::new();
    let monkey = Rule::new(g, None);
    monkey.literal(g, "monkey");

    let one_monkey = Rule::new(g, None);
    one_monkey.one(g, monkey);

    let no_monkey = Rule::new(g, None);
    no_monkey.not(g, one_monkey);

    let mut red = Red;
    assert!(no_monkey.scan(g, &mut red, "").is_ok());
    assert!(no_monkey.scan(g, &mut red, "pizza").is_err());
    assert!(no_monkey.scan(g, &mut red, "monkey").is_err());
}

#[test]
fn not_none_or_many() {
    let g = &mut Grammar::new();
    let monkey = Rule::new(g, None);
    monkey.literal(g, "monkey");

    let none_or_more_monkeys = Rule::new(g, None);
    none_or_more_monkeys.none_or_many(g, monkey);

    let no_monkeys = Rule::new(g, None);
    no_monkeys.not(g, none_or_more_monkeys);

    let mut red = Red;
    assert!(no_monkeys.scan(g, &mut red, "").is_err());
    assert!(no_monkeys.scan(g, &mut red, "pizza").is_err());
    assert!(no_monkeys.scan(g, &mut red, "monkey").is_err());
}

#[test]
fn not_at_least_1() {
    let g = &mut Grammar::new();
    let monkey = Rule::new(g, None);
    monkey.literal(g, "monkey");

    let at_least_1_monkey = Rule::new(g, None);
    at_least_1_monkey.at_least(g, 1, monkey);

    let no_monkeys = Rule::new(g, None);
    no_monkeys.not(g, at_least_1_monkey);

    let mut red = Red;
    assert!(no_monkeys.scan(g, &mut red, "").is_ok());
    assert!(no_monkeys.scan(g, &mut red, "pizza").is_err());
    assert!(no_monkeys.scan(g, &mut red, "monkey").is_err());
}

#[test]
fn not_no_backtracks_should_be_ignored() {
    let g = &mut Grammar::new();
    let monkey = Rule::new(g, None);
    monkey.literal(g, "mon").no_backtrack(g, "Ignore me.".to_string()).literal(g, "key");

    let gorilla = Rule::new(g, None);
    gorilla.literal(g, "gorilla");

    let no_monkey = Rule::new(g, None);
    no_monkey.not(g, monkey).one(g, gorilla);

    let mut red = Red;
    assert_eq!(
        no_monkey.scan(g, &mut red, "").map_err(|x| x.render()).unwrap_err(),
        "Error found at line 1, column: 0: Syntax error.".to_string()
    );
    assert!(no_monkey.scan(g, &mut red, "gorilla").is_ok());
    assert_eq!(
        no_monkey.scan(g, &mut red, "monk").map_err(|x| x.render()).unwrap_err(),
        "Error found at line 1, column: 0: Syntax error.".to_string()
    );
    assert_eq!(
        no_monkey.scan(g, &mut red, "monkeybananagorilla").map_err(|x| x.render()).unwrap_err(),
        "Error found at line 1, column: 0: Syntax error.".to_string()
    );
}

#[test]
fn nested_not_1() {
    let g = &mut Grammar::new();
    let monkey = Rule::new(g, None);
    monkey.literal(g, "monkey");

    let no_monkey = Rule::new(g, None);
    no_monkey.not(g, monkey);

    let no_no_monkey = Rule::new(g, None);
    no_no_monkey.not(g, no_monkey);

    let mut red = Red;
    assert!(no_no_monkey.scan(g, &mut red, "").is_err());
    assert!(no_no_monkey.scan(g, &mut red, "monkey").is_err());

    let no_no_monkey_then_monkey = Rule::new(g, None);
    no_no_monkey_then_monkey.one(g, no_no_monkey).one(g, monkey);

    assert!(no_no_monkey_then_monkey.scan(g, &mut red, "monkey").is_ok());
}

#[test]
fn nested_not_2() {
    let g = &mut Grammar::new();
    let banana = Rule::new(g, None);
    banana.literal(g, "banana");

    let monkey = Rule::new(g, None);
    monkey.literal(g, "monkey");

    let banana_not_monkey = Rule::new(g, None);
    banana_not_monkey.one(g, banana).not(g, monkey);

    let not_banana_not_monkey = Rule::new(g, None);
    not_banana_not_monkey.not(g, banana_not_monkey);

    let mut red = Red;
    assert!(not_banana_not_monkey.scan(g, &mut red, "").is_ok());
    assert!(not_banana_not_monkey.scan(g, &mut red, "banana").is_err());
    assert!(not_banana_not_monkey.scan(g, &mut red, "bananamonkey").is_err());

    let not_banana_not_monkey_then_bananamonkey = Rule::new(g, None);
    not_banana_not_monkey_then_bananamonkey.one(g, not_banana_not_monkey).one(g, banana).one(
        g, monkey,
    );

    assert!(not_banana_not_monkey_then_bananamonkey.scan(g, &mut red, "bananamonkey").is_ok());
}
