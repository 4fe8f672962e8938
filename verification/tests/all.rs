use rule::{Grammar, Reducer, Rule};

struct Red;

impl Reducer<bool> for Red {
    fn reduce(&mut self, _tag: u64, _b: Vec<bool>, l: &Vec<char>) -> Result<Vec<bool>, String> {
        let s: String = l.iter().collect();
        assert_eq!(s, "abcdefg");
        Ok(vec![true])
    }
}

#[test]
fn all_all() {
    let code = "abcdefg";

    let g = &mut Grammar::new();
    let r = Rule::new(g, Some(0));
    r.any_char(g).any_char(g).any_char(g).any_char(g).any_char(g).any_char(g).any_char(g);

    let mut red = Red;
    if let Ok(branches) = r.scan(g, &mut red, code) {
        assert_eq!(branches[0], true);
    } else {
        assert!(false);
    }
}
