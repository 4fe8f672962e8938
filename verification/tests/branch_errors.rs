use rule::{Grammar, Reducer, Rule};

struct Red;

impl Reducer<i32> for Red {
    fn reduce(&mut self, tag: u64, _b: Vec<i32>, _l: &Vec<char>) -> Result<Vec<i32>, String> {
        match tag {
            1 => Err(String::from("Monkey bad.")),
            _ => Err(String::from("Gorilla bad.")),
        }
    }
}

#[test]
fn error_1() {
    let g = &mut Grammar::new();
    let root = Rule::new(g, Some(1));
    root.literal(g, "monkey");

    let mut red = Red;
    let err = root.scan(g, &mut red, "monkey").unwrap_err();
    let result = format!("Error found at line {}, column {}: {}", err.line, err.col, err.msg);
    let expect = "Error found at line 1, column 0: Monkey bad.".to_string();

    assert_eq!(result, expect);
}

#[test]
fn error_2() {
    let g = &mut Grammar::new();
    let monkey = Rule::new(g, None);
    monkey.literal(g, "monkey");

    let gorilla = Rule::new(g, Some(2));
    gorilla.literal(g, "gorilla");

    let root = Rule::new(g, None);
    root.one(g, monkey).one(g, gorilla);

    let mut red = Red;
    let err = root.scan(g, &mut red, "monkeygorilla").unwrap_err();
    let result = format!("Error found at line {}, column {}: {}", err.line, err.col, err.msg);
    let expect = "Error found at line 1, column 6: Gorilla bad.".to_string();

    assert_eq!(result, expect);
}
