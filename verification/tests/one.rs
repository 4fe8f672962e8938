use rule::{Grammar, Reducer, Rule};

struct Red;

impl Reducer<i32> for Red {
    fn reduce(&mut self, tag: u64, _b: Vec<i32>, _l: &Vec<char>) -> Result<Vec<i32>, String> {
        Ok(vec![tag as i32])
    }
}

#[test]
fn one() {
    let code = "onetwothree";

    let g = &mut Grammar::new();
    let one = Rule::new(g, Some(1));
    one.literal(g, "one");

    let two = Rule::new(g, Some(2));
    two.literal(g, "two");

    let three = Rule::new(g, Some(3));
    three.literal(g, "three");

    let root = Rule::new(g, None);
    root.one(g, one).one(g, two).one(g, three);

    let mut red = Red;
    if let Ok(branches) = root.scan(g, &mut red, code) {
        assert_eq!(branches[0], 1);
        assert_eq!(branches[1], 2);
        assert_eq!(branches[2], 3);
    } else {
        assert!(false);
    }
}
