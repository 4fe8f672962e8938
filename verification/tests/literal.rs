use rule::{Grammar, Reducer, Rule};

struct Red;

impl Reducer<u64> for Red {
    fn reduce(&mut self, _tag: u64, _b: Vec<u64>, l: &Vec<char>) -> Result<Vec<u64>, String> {
        let s: String = l.iter().collect();
        assert_eq!(s, "y̆y̆y̆x̆");
        Ok(vec![7777u64])
    }
}

#[test]
fn literal() {
    let code = "y̆y̆y̆x̆";

    let g = &mut Grammar::new();
    let r = Rule::new(g, Some(0));
    r.literal(g, "y̆y̆").literal(g, "y̆").literal(g, "x̆");

    let mut red = Red;
    if let Ok(branches) = r.scan(g, &mut red, code) {
        assert_eq!(branches[0], 7777u64);
    } else {
        assert!(false);
    }
}
