use rule::{Grammar, Reducer, Rule};

struct Red;

impl Reducer<char> for Red {
    fn reduce(&mut self, _tag: u64, _b: Vec<char>, _l: &Vec<char>) -> Result<Vec<char>, String> {
        Ok(vec!['x'])
    }
}

#[test]
fn maybe() {
    let codes = vec!["xxx", "...xxx", "xxx...", "...xxx..."];

    let g = &mut Grammar::new();
    let dots = Rule::new(g, None);
    dots.literal(g, "...");

    let xxx = Rule::new(g, Some(0));
    xxx.literal(g, "xxx");

    let root = Rule::new(g, None);
    root.maybe(g, dots).one(g, xxx).maybe(g, dots);

    let mut red = Red;
    for c in codes {
        if let Ok(branches) = root.scan(g, &mut red, c) {
            assert!(branches.len() == 1 && branches[0] == 'x');
        } else {
            assert!(false);
        }
    }
}
