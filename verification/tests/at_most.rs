use rule::{Grammar, Reducer, Rule};

struct Red;

impl Reducer<i32> for Red {
    fn reduce(&mut self, _tag: u64, _b: Vec<i32>, _l: &Vec<char>) -> Result<Vec<i32>, String> {
        Ok(vec![14])
    }
}

#[test]
fn at_most() {
    let code = "yyy";

    let g = &mut Grammar::new();
    let y = Rule::new(g, Some(0));
    y.literal(g, "y");

    let mut red = Red;

    let test1 = Rule::new(g, None);
    test1.at_most(g, 2, y);

    if let Ok(_) = test1.scan(g, &mut red, code) {
        assert!(false);
    } else {
        assert!(true);
    }

    let test2 = Rule::new(g, None);
    test2.at_most(g, 3, y);

    if let Ok(branches) = test2.scan(g, &mut red, code) {
        assert_eq!(branches[0], 14);
        assert_eq!(branches[1], 14);
        assert_eq!(branches[2], 14);
    } else {
        assert!(false);
    }

    let test3 = Rule::new(g, None);
    test3.at_most(g, 4, y);

    if let Ok(branches) = test3.scan(g, &mut red, code) {
        assert_eq!(branches[0], 14);
        assert_eq!(branches[1], 14);
        assert_eq!(branches[2], 14);
    } else {
        assert!(false);
    }
}
