use pusta::numbers::Numerics;
use pusta::variables::token::{read_token_at, Token, TokenLiteral, TokenType};

/// Binary64 arithmetic for the tests, as the program supplies it.
struct F64;

impl Numerics for F64 {
    fn parse(&self, text: &str) -> Option<u64> {
        text.parse::<f64>().ok().map(|f| f.to_bits())
    }
    fn sum(&self, a: u64, b: u64) -> u64 {
        (f64::from_bits(a) + f64::from_bits(b)).to_bits()
    }
    fn difference(&self, a: u64, b: u64) -> u64 {
        (f64::from_bits(a) - f64::from_bits(b)).to_bits()
    }
    fn product(&self, a: u64, b: u64) -> u64 {
        (f64::from_bits(a) * f64::from_bits(b)).to_bits()
    }
    fn quotient(&self, a: u64, b: u64) -> u64 {
        (f64::from_bits(a) / f64::from_bits(b)).to_bits()
    }
    fn display(&self, n: u64) -> String {
        format!("{}", f64::from_bits(n))
    }
    fn fraction(&self, component: u8) -> String {
        format!("{:.3}", component as f32 / 255f32)
    }
}

fn token(input: &str) -> Token {
    match read_token_at(input, 0, &F64) {
        Ok(t) => t,
        Err(_) => panic!("parsing failed"),
    }
}

enum Expected {
    Number(f64),
    Text(&'static str),
    Flag(bool),
}

fn literal_is(literal: &TokenLiteral, expected: &Expected) -> bool {
    match (literal, expected) {
        (TokenLiteral::Number(n), Expected::Number(f)) => f64::from_bits(*n) == *f,
        (TokenLiteral::String(s), Expected::Text(t)) => s == t,
        (TokenLiteral::Boolean(b), Expected::Flag(e)) => b == e,
        _ => false,
    }
}

#[test]
fn variable_simple() {
    let input = "_.first.second.third:mod-one:mod-two:mod-three";
    match token(input).token {
        TokenType::Variable { name, modifiers, .. } => {
            assert_eq!(name, "_.first.second.third");
            assert_eq!(modifiers[0].0, "mod-one");
            assert_eq!(modifiers[1].0, "mod-two");
            assert_eq!(modifiers[2].0, "mod-three");
            assert!(modifiers[0].1.is_empty());
            assert!(modifiers[1].1.is_empty());
            assert!(modifiers[2].1.is_empty());
        }
        _ => unreachable!("it must be a variable"),
    }
}

#[test]
fn variable_nested() {
    let inputs = vec![
        "_.first.second.third:mod-one( _.fourth:mod-other, _.fourth-two ):mod-two( _.fifth:mod-another:mod-yet-another( pusta.sixth ) )",
        "_.first.second.third:mod-one(_.fourth:mod-other,_.fourth-two):mod-two(_.fifth:mod-another:mod-yet-another(pusta.sixth))",
        "_.first.second.third:mod-one(\n            _.fourth:mod-other  ,\n      _.fourth-two \n):mod-two(    _.fifth:mod-another:mod-yet-another(   pusta.sixth))",
        "_.first.second.third\n    :mod-one(_.fourth:mod-other,_.fourth-two)\n    :mod-two(_.fifth:mod-another:mod-yet-another(pusta.sixth))",
    ];

    for i in inputs {
        match token(i).token {
            TokenType::Variable { name, modifiers, .. } => {
                assert_eq!(name, "_.first.second.third");
                assert_eq!(modifiers[0].0, "mod-one");
                assert_eq!(modifiers[1].0, "mod-two");

                let params_mod_one = &modifiers[0].1;
                match &params_mod_one[0].token {
                    TokenType::Variable { name, modifiers, .. } => {
                        assert_eq!(name, "_.fourth");
                        assert_eq!(modifiers[0].0, "mod-other");
                    }
                    _ => unreachable!("it must be a variable"),
                }
                match &params_mod_one[1].token {
                    TokenType::Variable { name, .. } => assert_eq!(name, "_.fourth-two"),
                    _ => unreachable!("it must be a variable"),
                }

                let params_mod_two = &modifiers[1].1;
                match &params_mod_two[0].token {
                    TokenType::Variable { name, modifiers, .. } => {
                        assert_eq!(name, "_.fifth");
                        assert_eq!(modifiers[0].0, "mod-another");
                        assert_eq!(modifiers[1].0, "mod-yet-another");
                        match &modifiers[1].1[0].token {
                            TokenType::Variable { name, .. } => assert_eq!(name, "pusta.sixth"),
                            _ => unreachable!("it must be a variable"),
                        }
                    }
                    _ => unreachable!("it must be a variable"),
                }
            }
            _ => unreachable!("it must be a variable"),
        }
    }
}

#[test]
fn variable_literals() {
    let input = "var:mod(-12,\"a  \\\"string\\\" with , inside    \"\n, yEs,nO, \"true\",-123.5423       )";
    let outputs = vec![
        Expected::Number(-12f64),
        Expected::Text("a  \"string\" with , inside    "),
        Expected::Flag(true),
        Expected::Flag(false),
        Expected::Text("true"),
        Expected::Number(-123.5423),
    ];

    match token(input).token {
        TokenType::Variable { name, modifiers, .. } => {
            assert_eq!(name, "var");
            assert_eq!(modifiers[0].0, "mod");
            assert_eq!(modifiers[0].1.len(), outputs.len());
            for (t, literal) in modifiers[0].1.iter().zip(outputs.iter()) {
                match &t.token {
                    TokenType::Literal { value } => assert!(literal_is(value, literal)),
                    _ => unreachable!("must be literal"),
                }
            }
        }
        _ => unreachable!("must be variable"),
    }
}

#[test]
fn literal_string() {
    let input = r#"" this is a \"test\" string literal, \n this is a new line ""#;
    match token(input).token {
        TokenType::Literal { value } => match value {
            TokenLiteral::String(s) => assert_eq!(s, " this is a \"test\" string literal, \n this is a new line "),
            _ => unreachable!("must be string"),
        },
        _ => unreachable!("must be literal"),
    }
}

#[test]
fn literal_number() {
    let input = vec!["-1", "0", "9", "99.9009", "0000.99", "-9.13"];
    let output = vec![-1f64, 0f64, 9f64, 99.9009, 0.99, -9.13];

    for (input, output) in input.iter().zip(output.iter()) {
        match token(input).token {
            TokenType::Literal { value } => match value {
                TokenLiteral::Number(n) => assert_eq!(f64::from_bits(n), *output),
                _ => unreachable!("must be number"),
            },
            _ => unreachable!("must be literal"),
        }
    }
}

#[test]
fn literal_boolean() {
    let input = vec!["true", "yEs", "tRuE", "false", "FAlse", "NO"];
    let output = vec![true, true, true, false, false, false];

    for (input, output) in input.iter().zip(output.iter()) {
        match token(input).token {
            TokenType::Literal { value } => match value {
                TokenLiteral::Boolean(n) => assert_eq!(n, *output),
                _ => unreachable!("must be boolean"),
            },
            _ => unreachable!("must be literal"),
        }
    }

    let input = vec!["pusta.true", "my-var.yes", "active.no"];
    for input in input {
        match token(input).token {
            TokenType::Variable { name, .. } => assert_eq!(input, name),
            _ => unreachable!("must be literal"),
        }
    }
}

#[test]
fn keyword() {
    let input = vec!["!if", "!else", "!end", "!list", "!amogus"];
    let output = vec!["if", "else", "end", "list", "amogus"];

    for (input, output) in input.iter().zip(output.iter()) {
        match token(input).token {
            TokenType::Keyword { word } => assert_eq!(word, *output),
            _ => unreachable!("must be keyword"),
        }
    }
}

#[test]
fn token_range_covers_input() {
    let t = token("  !if  ");
    assert_eq!(t.range.start, 0);
    assert_eq!(t.range.end, 7);
}

#[test]
fn token_at_position_shifts_range() {
    match read_token_at("abc !end", 4, &F64) {
        Ok(t) => {
            assert_eq!(t.range.start, 4);
            assert_eq!(t.range.end, 8);
            assert!(matches!(t.token, TokenType::Keyword { .. }));
        }
        Err(_) => panic!("parsing failed"),
    }
}

#[test]
fn unreadable_token_is_error() {
    assert!(read_token_at("%%%", 0, &F64).is_err());
    assert!(read_token_at("", 0, &F64).is_err());
}

#[test]
fn modifier_parameters_are_read_in_place() {
    let t = token("x:contains(\"a\", true):not");
    assert_eq!(t.range, 0..25);
    match t.token {
        TokenType::Variable { name, modifiers, name_range } => {
            assert_eq!(name, "x");
            assert_eq!(name_range, 0..1);
            assert_eq!(modifiers.len(), 2);
            assert_eq!(modifiers[0].0, "contains");
            assert_eq!(modifiers[0].2, 2..10);
            assert_eq!(modifiers[0].1.len(), 2);
            assert_eq!(modifiers[0].1[0].range.start, 11);
            assert_eq!(modifiers[0].1[1].range.start, 16);
            assert_eq!(modifiers[1].0, "not");
            assert_eq!(modifiers[1].2, 22..25);
            assert_eq!(modifiers[1].1.len(), 0);
        },
        _ => panic!("expected a variable"),
    }
}

#[test]
fn nested_modifier_arguments_end_where_their_modifiers_end() {
    let t = token("a:b(c:d(1), \"e\"):f");
    assert_eq!(t.range, 0..18);
    match t.token {
        TokenType::Variable { modifiers, .. } => {
            assert_eq!(modifiers.len(), 2);
            assert_eq!(modifiers[0].1.len(), 2);
            assert_eq!(modifiers[0].1[0].range, 4..10);
            assert_eq!(modifiers[0].1[1].range.start, 12);
            match &modifiers[0].1[0].token {
                TokenType::Variable { modifiers: inner, .. } => {
                    assert_eq!(inner.len(), 1);
                    assert_eq!(inner[0].1.len(), 1);
                }
                _ => panic!("expected a nested variable"),
            }
            assert_eq!(modifiers[1].0, "f");
        }
        _ => panic!("expected a variable"),
    }
}
