use rule::{Grammar, Reducer, Rule, RuleError};

struct CalcRed;

impl Reducer<f64> for CalcRed {
    fn reduce(&mut self, tag: u64, b: Vec<f64>, l: &Vec<char>) -> Result<Vec<f64>, String> {
        match tag {
            1 => Ok(vec![if b.len() == 1 { b[0] } else { b[0] + b[1] }]),
            2 => Ok(vec![if b.len() == 1 { b[0] } else { b[0] * b[1] }]),
            _ => {
                let s: String = l.iter().collect();
                Ok(vec![s.parse().unwrap()])
            }
        }
    }
}

struct Calc {
    g: Grammar,
    expr: Rule,
    red: CalcRed,
}

impl Calc {
    fn new() -> Self {
        let mut grammar = Grammar::new();
        let g = &mut grammar;

        let expr = Rule::new(g, None);
        let add = Rule::new(g, Some(1));
        let mul = Rule::new(g, Some(2));

        let digit = Rule::new(g, None);
        digit.char_in(g, '0', '9');

        let num = Rule::new(g, Some(3));
        num.at_least(g, 1, digit);

        let group = Rule::new(g, None);
        group.literal(g, "(").one(g, expr).literal(g, ")");

        let mul_right = Rule::new(g, None);
        mul_right.literal(g, "*").one(g, mul);
        mul.any_of(g, vec![num, group]).maybe(g, mul_right);

        let add_right = Rule::new(g, None);
        add_right.literal(g, "+").one(g, add);
        add.one(g, mul).maybe(g, add_right);

        expr.any_of(g, vec![add, group]);

        Self { g: grammar, expr, red: CalcRed }
    }

    fn eval(&mut self, expr: &str) -> Result<f64, RuleError> {
        self.expr.scan(&self.g, &mut self.red, expr).map(|x| x[0])
    }
}

#[test]
fn misc_calc() {
    let mut calc = Calc::new();

    if let Ok(val) = calc.eval("2*(3*4*5)") {
        assert_eq!(val, 120f64);
    } else {
        assert!(false);
    }

    if let Ok(val) = calc.eval("2*(3+4)*5") {
        assert_eq!(val, 70f64);
    } else {
        assert!(false);
    }

    if let Ok(val) = calc.eval("((2+3*4+5))") {
        assert_eq!(val, 19f64);
    } else {
        assert!(false);
    }
}
