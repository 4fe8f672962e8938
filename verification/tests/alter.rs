use rule::{Grammar, Reducer, Rule};

struct Red;

impl Reducer<i32> for Red {
    fn reduce(&mut self, _tag: u64, _b: Vec<i32>, l: &Vec<char>) -> Result<Vec<i32>, String> {
        let s: String = l.iter().collect();
        assert_eq!(s, "<AAA<BBB>CCC>");
        Ok(vec![111])
    }
}

#[test]
fn alter() {
    let code = "\\<東\\<💝\\>中\\>"; // There are gonna be 7 replacements.

    let alterations = vec![
        ("\\<", "<"),
        ("\\>", ">"),
        ("東", "AAA"),
        ("💝", "BBB"),
        ("中", "CCC"),
    ];

    let g = &mut Grammar::new();
    let a = Rule::new(g, None);
    a.alter(g, alterations);

    let r = Rule::new(g, Some(0));
    r.exact(g, 7, a);

    let mut red = Red;
    if let Ok(branches) = r.scan(g, &mut red, code) {
        assert_eq!(branches[0], 111);
    } else {
        assert!(false);
    }
}
