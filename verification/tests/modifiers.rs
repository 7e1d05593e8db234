use pusta::numbers::Numerics;
use pusta::variables::modifier::{get_modifier, Modifier, ModifierKind};
use pusta::variables::Value;
use pusta::variables::Value::{Boolean, Number};

/// Binary64 arithmetic for the tests, as the program supplies it.
struct F64;

impl Numerics for F64 {
    fn parse(&self, text: &str) -> Option<u64> {
        text.parse::<f64>().ok().map(|f| f.to_bits())
    }
    fn sum(&self, a: u64, b: u64) -> u64 {
        (f64::from_bits(a) + f64::from_bits(b)).to_bits()
    }
    fn difference(&self, a: u64, b: u64) -> u64 {
        (f64::from_bits(a) - f64::from_bits(b)).to_bits()
    }
    fn product(&self, a: u64, b: u64) -> u64 {
        (f64::from_bits(a) * f64::from_bits(b)).to_bits()
    }
    fn quotient(&self, a: u64, b: u64) -> u64 {
        (f64::from_bits(a) / f64::from_bits(b)).to_bits()
    }
    fn display(&self, n: u64) -> String {
        format!("{}", f64::from_bits(n))
    }
    fn fraction(&self, component: u8) -> String {
        format!("{:.3}", component as f32 / 255f32)
    }
}

fn num(f: f64) -> Value {
    Number(f.to_bits())
}

fn text(s: &str) -> Value {
    Value::String(s.to_string())
}

fn modifier(name: &str) -> ModifierKind {
    get_modifier(name).unwrap()
}

fn gives(m: &ModifierKind, variable: Value, parameters: Vec<Value>, expected: Value) {
    let result = m.evaluate(variable, parameters, &F64);
    match result {
        Ok(v) => assert!(v.equals(&expected), "unexpected value"),
        Err(_) => panic!("the modifier failed"),
    }
}

fn fails(m: &ModifierKind, variable: Value, parameters: Vec<Value>) -> bool {
    m.evaluate(variable, parameters, &F64).is_err()
}

fn check_two_args(m: &ModifierKind) {
    assert!(fails(m, Boolean(false), vec![]));
    assert!(fails(m, num(0.0), vec![]));
    assert!(fails(m, num(0.0), vec![num(0.0), num(0.0)]));
}

#[test]
fn not() {
    let m = modifier("not");
    gives(&m, Boolean(false), vec![], Boolean(true));
    gives(&m, Boolean(true), vec![], Boolean(false));
    assert!(fails(&m, num(-1.0), vec![]));
    assert!(fails(&m, Boolean(true), vec![Boolean(false)]));
}

#[test]
fn or() {
    let m = modifier("or");
    gives(&m, Boolean(false), vec![Boolean(true)], Boolean(true));
    gives(&m, Boolean(true), vec![Boolean(false)], Boolean(true));
    gives(&m, Boolean(true), vec![Boolean(true)], Boolean(true));
    gives(&m, Boolean(false), vec![Boolean(false)], Boolean(false));
    assert!(fails(&m, Boolean(false), vec![]));
    assert!(fails(&m, num(-1.0), vec![]));
    assert!(fails(&m, Boolean(false), vec![num(1.0)]));
    assert!(fails(&m, Boolean(false), vec![Boolean(false), Boolean(true)]));
}

#[test]
fn and() {
    let m = modifier("and");
    gives(&m, Boolean(false), vec![Boolean(true)], Boolean(false));
    gives(&m, Boolean(true), vec![Boolean(false)], Boolean(false));
    gives(&m, Boolean(true), vec![Boolean(true)], Boolean(true));
    gives(&m, Boolean(false), vec![Boolean(false)], Boolean(false));
    assert!(fails(&m, Boolean(false), vec![]));
    assert!(fails(&m, num(-1.0), vec![]));
    assert!(fails(&m, Boolean(false), vec![num(1.0)]));
    assert!(fails(&m, Boolean(false), vec![Boolean(false), Boolean(true)]));
}

#[test]
fn if_mod() {
    let m = modifier("if");
    gives(&m, Boolean(false), vec![num(1.0), text("a")], text("a"));
    gives(&m, Boolean(true), vec![num(1.0), text("a")], num(1.0));
    assert!(fails(&m, num(-1.0), vec![]));
    assert!(fails(&m, Boolean(true), vec![Boolean(false)]));
    assert!(fails(&m, num(-1.0), vec![Boolean(false)]));
    assert!(fails(&m, Boolean(true), vec![Boolean(false), Boolean(false), Boolean(false)]));
}

#[test]
fn add() {
    let m = modifier("add");
    gives(&m, num(29.0), vec![num(13.0)], num(42.0));
    check_two_args(&m);
}

#[test]
fn subtract() {
    let m = modifier("sub");
    gives(&m, num(63.0), vec![num(21.0)], num(42.0));
    check_two_args(&m);
}

#[test]
fn multiply() {
    let m = modifier("mul");
    gives(&m, num(10.5), vec![num(4.0)], num(42.0));
    check_two_args(&m);
}

#[test]
fn divide() {
    let m = modifier("div");
    gives(&m, num(567.0), vec![num(13.5)], num(42.0));
    check_two_args(&m);
    assert!(fails(&m, num(42.0), vec![num(0.0)]));
}

#[test]
fn negative() {
    let m = modifier("neg");
    gives(&m, num(-42.0), vec![], num(42.0));
    assert!(fails(&m, num(0.0), vec![num(0.0)]));
    assert!(fails(&m, Boolean(false), vec![]));
}

#[test]
fn parse() {
    let m = modifier("parsenum");
    gives(&m, text("-100.7828"), vec![], num(-100.7828));
    assert!(fails(&m, text("amogus not a number"), vec![]));
    assert!(fails(&m, Boolean(false), vec![]));
    assert!(fails(&m, text(""), vec![num(0.0)]));
}

#[test]
fn lower() {
    let m = modifier("case-lower");
    gives(&m, text("AbCDeFghIJklMNop"), vec![], text("abcdefghijklmnop"));
    assert!(fails(&m, Boolean(false), vec![]));
    assert!(fails(&m, text("asdf"), vec![Boolean(true)]));
}

#[test]
fn upper() {
    let m = modifier("case-upper");
    gives(&m, text("AbCDeFghIJklMNop"), vec![], text("ABCDEFGHIJKLMNOP"));
    assert!(fails(&m, Boolean(false), vec![]));
    assert!(fails(&m, text("asdf"), vec![Boolean(true)]));
}

#[test]
fn camel() {
    let m = modifier("case-camel");
    gives(&m, text("thisIsCamelCase"), vec![text("case-camel")], text("thisIsCamelCase"));
    gives(&m, text("this_is_camel_case"), vec![text("case-snake")], text("thisIsCamelCase"));
    gives(&m, text("ThisIsCamelCase"), vec![text("case-pascal")], text("thisIsCamelCase"));
    gives(&m, text("this-is-camel-case"), vec![text("case-kebab")], text("thisIsCamelCase"));
    gives(&m, text("P"), vec![text("case-pascal")], text("p"));
    gives(&m, text("PP"), vec![text("case-pascal")], text("pP"));
    assert!(fails(&m, text("thisIsCamelCase"), vec![]));
    assert!(fails(&m, text("thisIsCamelCase"), vec![text(""), text("")]));
    assert!(fails(&m, text("thisIsCamelCase"), vec![text("")]));
}

#[test]
fn snake() {
    let m = modifier("case-snake");
    gives(&m, text("thisIsSnakeCase"), vec![text("case-camel")], text("this_is_snake_case"));
    gives(&m, text("this_is_snake_case"), vec![text("case-snake")], text("this_is_snake_case"));
    gives(&m, text("ThisIsSnakeCase"), vec![text("case-pascal")], text("this_is_snake_case"));
    gives(&m, text("this-is-snake-case"), vec![text("case-kebab")], text("this_is_snake_case"));
    gives(&m, text("P"), vec![text("case-pascal")], text("p"));
    gives(&m, text("PP"), vec![text("case-pascal")], text("p_p"));
    assert!(fails(&m, text("this_is_snake_case"), vec![]));
    assert!(fails(&m, text("this_is_snake_case"), vec![text(""), text("")]));
    assert!(fails(&m, text("this_is_snake_case"), vec![text("")]));
}

#[test]
fn pascal() {
    let m = modifier("case-pascal");
    gives(&m, text("thisIsPascalCase"), vec![text("case-camel")], text("ThisIsPascalCase"));
    gives(&m, text("this_is_pascal_case"), vec![text("case-snake")], text("ThisIsPascalCase"));
    gives(&m, text("ThisIsPascalCase"), vec![text("case-pascal")], text("ThisIsPascalCase"));
    gives(&m, text("this-is-pascal-case"), vec![text("case-kebab")], text("ThisIsPascalCase"));
    gives(&m, text("p"), vec![text("case-camel")], text("P"));
    gives(&m, text("pP"), vec![text("case-camel")], text("PP"));
    assert!(fails(&m, text("ThisIsPascalCase"), vec![]));
    assert!(fails(&m, text("ThisIsPascalCase"), vec![text(""), text("")]));
    assert!(fails(&m, text("ThisIsPascalCase"), vec![text("")]));
}

#[test]
fn kebab() {
    let m = modifier("case-kebab");
    gives(&m, text("thisIsKebabCase"), vec![text("case-camel")], text("this-is-kebab-case"));
    gives(&m, text("this_is_kebab_case"), vec![text("case-snake")], text("this-is-kebab-case"));
    gives(&m, text("ThisIsKebabCase"), vec![text("case-pascal")], text("this-is-kebab-case"));
    gives(&m, text("this-is-kebab-case"), vec![text("case-kebab")], text("this-is-kebab-case"));
    gives(&m, text("p"), vec![text("case-camel")], text("p"));
    gives(&m, text("pP"), vec![text("case-camel")], text("p-p"));
    assert!(fails(&m, text("this-is-kebab-case"), vec![]));
    assert!(fails(&m, text("this-is-kebab-case"), vec![text(""), text("")]));
    assert!(fails(&m, text("this-is-kebab-case"), vec![text("")]));
}

#[test]
fn contains() {
    let m = modifier("contains");
    gives(&m, text("this string contains something"), vec![text("contains")], Boolean(true));
    gives(&m, text("this string contains something"), vec![text("not this though")], Boolean(false));
    assert!(fails(&m, Boolean(false), vec![]));
    assert!(fails(&m, text("asdf"), vec![]));
    assert!(fails(&m, text("asdf"), vec![Boolean(true)]));
}

#[test]
fn tilde() {
    let m = modifier("tilde");
    let path = "~/games/amogus";
    gives(&m, text(path), vec![], text(&shellexpand::tilde(path).to_string()));
    assert!(fails(&m, Boolean(false), vec![]));
    assert!(fails(&m, text("asdf"), vec![Boolean(true)]));
}

#[test]
fn unknown_modifier_is_none() {
    assert!(get_modifier("amogus").is_none());
    assert!(get_modifier("").is_none());
}

#[test]
fn tilde_expands_home() {
    let m = modifier("tilde");
    let result = m.evaluate(text("~/x"), vec![], &F64);
    match result {
        Ok(Value::String(s)) => {
            assert!(!s.starts_with('~'));
            assert!(s.ends_with("/x"));
        }
        _ => panic!("tilde must give a string"),
    }
}

#[test]
fn number_type_errors() {
    let m = modifier("add");
    assert!(fails(&m, text("1"), vec![num(1.0)]));
    assert!(fails(&m, num(1.0), vec![text("1")]));
}

#[test]
fn case_styles_edge() {
    let m = modifier("case-snake");
    gives(&m, text("abc"), vec![text("case-camel")], text("abc"));
    let k = modifier("case-camel");
    gives(&k, text("a_b_c"), vec![text("case-snake")], text("aBC"));
}

#[test]
fn format_color_components() {
    let m = modifier("format-color");
    gives(&m, text("#ff8000"), vec![text("rgb(%Dr, %Dg, %Db) %Xa")], text("rgb(255, 128, 0) ff"));
    gives(&m, text("00ff0080"), vec![text("%Fg %Fa %Xr")], text("1.000 0.502 00"));
    assert!(fails(&m, text("#ff80"), vec![text("%Dr")]));
    assert!(fails(&m, Boolean(true), vec![text("%Dr")]));
    assert!(fails(&m, text("#ff8000"), vec![]));
}

#[test]
fn equality_modifier() {
    let m = modifier("eq");
    gives(&m, num(1.0), vec![num(1.0)], Boolean(true));
    gives(&m, text("a"), vec![text("b")], Boolean(false));
    assert!(fails(&m, text("a"), vec![num(1.0)]));
}
