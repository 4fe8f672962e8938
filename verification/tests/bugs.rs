// A rule wrapped in a "maybe" used to make an enclosing reducer disappear:
// scanning an empty string returned no values at all although the root rule
// had a reducer.  The reducer must run even when its rule matched nothing,
// and see an empty child list.

use rule::{Grammar, Reducer, Rule};

struct Red {
    block_len: usize,
}

impl Reducer<u32> for Red {
    fn reduce(&mut self, tag: u64, b: Vec<u32>, _l: &Vec<char>) -> Result<Vec<u32>, String> {
        match tag {
            1 => {
                // stmt
                assert_eq!(b.len(), 0);
                Ok(vec![7])
            }
            2 => {
                // block
                assert_eq!(b.len(), self.block_len);
                Ok(vec![1])
            }
            _ => {
                // root
                assert_eq!(b.len(), 1);
                Ok(vec![b[0]])
            }
        }
    }
}

fn build(g: &mut Grammar) -> rule::Rule {
    let ws = Rule::new(g, None);
    ws.literal(g, " ");

    let none_or_many_ws = Rule::new(g, None);
    none_or_many_ws.none_or_many(g, ws);

    let stmt = Rule::new(g, Some(1));
    stmt.literal(g, "stmt");

    let ws_plus_stmt = Rule::new(g, None);
    ws_plus_stmt.one(g, none_or_many_ws).one(g, stmt);

    let stmts = Rule::new(g, None);
    stmts.one(g, stmt).none_or_many(g, ws_plus_stmt);

    let block = Rule::new(g, Some(2));
    block.maybe(g, stmts);

    let root = Rule::new(g, Some(3));
    root.one(g, none_or_many_ws).one(g, block).one(g, none_or_many_ws);
    root
}

#[test]
fn bug_0_5_12_test_empty_string() {
    let g = &mut Grammar::new();
    let root = build(g);

    let code = "";
    let mut red = Red { block_len: 0 };

    if let Ok(branches) = root.scan(g, &mut red, code) {
        assert!(branches.len() == 1);
    } else {
        assert!(false);
    }
}

#[test]
fn bug_0_5_12_test_with_content() {
    let g = &mut Grammar::new();
    let root = build(g);

    let code = "  stmt    stmt   stmt  ";
    let mut red = Red { block_len: 3 };

    if let Ok(branches) = root.scan(g, &mut red, code) {
        assert!(branches.len() == 1);
    } else {
        assert!(false);
    }
}
