use rule::{Grammar, Reducer, Rule};

struct Red;

impl Reducer<u32> for Red {
    fn reduce(&mut self, tag: u64, b: Vec<u32>, l: &Vec<char>) -> Result<Vec<u32>, String> {
        match tag {
            1 => Ok(vec![(l[0] as u32) - 48]),
            2 => Ok(vec![(l[0] as u32) - 55]),
            _ => {
                let mut m = 1u32;
                let mut n = 0u32;
                for i in b.iter().rev() {
                    n = n.wrapping_add(i.wrapping_mul(m));
                    m = m.wrapping_shl(4);
                }
                Ok(vec![n])
            }
        }
    }
}

#[test]
fn char_in() {
    let g = &mut Grammar::new();
    let digit = Rule::new(g, Some(1));
    digit.char_in(g, '0', '9');

    let af = Rule::new(g, Some(2));
    af.char_in(g, 'A', 'F');

    let hex = Rule::new(g, None);
    hex.any_of(g, vec![digit, af]);

    let parser = Rule::new(g, Some(3));
    parser.between(g, 1, 8, hex);

    let mut red = Red;

    if let Ok(branches) = parser.scan(g, &mut red, "A") {
        assert_eq!(branches[0], 10);
    } else {
        assert!(false);
    }

    if let Ok(branches) = parser.scan(g, &mut red, "12345678") {
        assert_eq!(branches[0], 305419896);
    } else {
        assert!(false);
    }

    if let Ok(branches) = parser.scan(g, &mut red, "FF") {
        assert_eq!(branches[0], 255);
    } else {
        assert!(false);
    }

    if let Ok(branches) = parser.scan(g, &mut red, "FFFFFFFF") {
        assert_eq!(branches[0], u32::MAX);
    } else {
        assert!(false);
    }

    if let Ok(_) = parser.scan(g, &mut red, "FFFFFFFFF") {
        assert!(false);
    } else {
        assert!(true);
    }

    if let Ok(_) = parser.scan(g, &mut red, "FFxFF") {
        assert!(false);
    } else {
        assert!(true);
    }

    if let Ok(_) = parser.scan(g, &mut red, "") {
        assert!(false);
    } else {
        assert!(true);
    }
}
