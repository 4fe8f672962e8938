use rule::{Grammar, Reducer, Rule};

struct Red;

impl Reducer<i32> for Red {
    fn reduce(&mut self, _tag: u64, _b: Vec<i32>, _l: &Vec<char>) -> Result<Vec<i32>, String> {
        Ok(vec![10])
    }
}

#[test]
fn at_least() {
    let code = "xxxx";

    let g = &mut Grammar::new();
    let x = Rule::new(g, Some(0));
    x.literal(g, "x");

    let mut red = Red;

    let test1 = Rule::new(g, None);
    test1.at_least(g, 3, x);

    if let Ok(branches) = test1.scan(g, &mut red, code) {
        assert_eq!(branches[0], 10);
        assert_eq!(branches[1], 10);
        assert_eq!(branches[2], 10);
        assert_eq!(branches[3], 10);
    } else {
        assert!(false);
    }

    let test2 = Rule::new(g, None);
    test2.at_least(g, 4, x);

    if let Ok(branches) = test2.scan(g, &mut red, code) {
        assert_eq!(branches[0], 10);
        assert_eq!(branches[1], 10);
        assert_eq!(branches[2], 10);
        assert_eq!(branches[3], 10);
    } else {
        assert!(false);
    }

    let test3 = Rule::new(g, None);
    test3.at_least(g, 5, x);

    if let Ok(_) = test3.scan(g, &mut red, code) {
        assert!(false);
    } else {
        assert!(true);
    }
}
