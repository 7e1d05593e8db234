use pusta::module::qualifier::ModuleQualifier;
use pusta::module::repository::Repository;
use pusta::module::Module;
use pusta::module::install::order::has_no_cycle;
use pusta::numbers::Numerics;
use pusta::registry::cache::Cache;
use pusta::registry::index::Index;
use pusta::config::{Config, ConfirmStrategy};
use pusta::module::install::shell::{Check, CheckedShell};
use pusta::variables::context::{read_context, ExpressionContent, StatementType};
use pusta::variables::evaluate::{evaluate, VariableEvalCounter};
use pusta::variables::{Value, Variable};

struct F64;

impl Numerics for F64 {
    fn parse(&self, text: &str) -> Option<u64> {
        text.parse::<f64>().ok().map(|f| f.to_bits())
    }
    fn sum(&self, a: u64, b: u64) -> u64 {
        (f64::from_bits(a) + f64::from_bits(b)).to_bits()
    }
    fn difference(&self, a: u64, b: u64) -> u64 {
        (f64::from_bits(a) - f64::from_bits(b)).to_bits()
    }
    fn product(&self, a: u64, b: u64) -> u64 {
        (f64::from_bits(a) * f64::from_bits(b)).to_bits()
    }
    fn quotient(&self, a: u64, b: u64) -> u64 {
        (f64::from_bits(a) / f64::from_bits(b)).to_bits()
    }
    fn display(&self, n: u64) -> String {
        format!("{}", f64::from_bits(n))
    }
    fn fraction(&self, component: u8) -> String {
        format!("{:.3}", component as f32 / 255f32)
    }
}

fn module(repo: &str, name: &str, version: &str) -> Module {
    Module {
        path: format!("/{repo}/{name}"),
        qualifier: ModuleQualifier::new(repo.to_string(), name, None, None),
        dependencies: vec![],
        checksum: "c".to_string(),
        name: name.to_string(),
        description: String::new(),
        author: None,
        version: version.to_string(),
        jobs: vec![],
        variables: None,
        injections: None,
        precedence: None,
    }
}

fn text(s: &str) -> Variable {
    Variable::Value(Value::String(s.to_string()))
}

#[test]
fn index_get_after_add_gives_the_module() {
    let mut index: Index<Module> = Index::new();
    index.add(module("r", "a", "1"));
    index.add(module("r", "b", "1"));
    index.add(module("r", "a", "2"));
    assert_eq!(index.modules.len(), 2);
    let q = ModuleQualifier::new("r".to_string(), "a", None, None);
    assert_eq!(index.get(&q).unwrap().version, "2");
    // removing what was just added leaves the other module only
    let removed = index.remove(&q).unwrap();
    assert_eq!(removed.version, "2");
    assert_eq!(index.modules.len(), 1);
    assert!(index.get(&q).is_none());
}

#[test]
fn repository_removal_leaves_no_module_of_it() {
    let mut index: Index<Module> = Index::new();
    index.add_all(vec![module("r", "a", "1"), module("s", "b", "1"), module("r", "c", "1")]);
    index.remove_repository(&Repository { location: "/r".to_string(), name: "r".to_string() });
    assert_eq!(index.modules.len(), 1);
    assert!(index.modules.iter().all(|m| m.qualifier.repository != "r"));
}

#[test]
fn removing_added_repository_restores_sources() {
    let mut cache = Cache::new(&Config::with_cache_dir("/tmp/c".to_string()));
    cache.add_repository(Repository { location: "/a".to_string(), name: "a".to_string() }).unwrap();
    cache.add_repository(Repository { location: "/b".to_string(), name: "b".to_string() }).unwrap();
    cache.add_repository(Repository { location: "/c".to_string(), name: "c".to_string() }).unwrap();
    let removed = cache.remove_repository("c").unwrap();
    assert_eq!(removed.location, "/c");
    let names: Vec<&str> = cache.repositories.iter().map(|r| r.name.as_str()).collect();
    assert_eq!(names, vec!["a", "b"]);
}

#[test]
fn merge_overrides_and_merges_by_name() {
    let mut base = Variable::Group(vec![
        ("a".to_string(), text("old")),
        ("g".to_string(), Variable::Group(vec![("x".to_string(), text("1"))])),
        ("l".to_string(), Variable::List(vec![text("p")])),
    ]);
    let other = Variable::Group(vec![
        ("a".to_string(), text("new")),
        ("g".to_string(), Variable::Group(vec![("y".to_string(), text("2"))])),
        ("l".to_string(), Variable::List(vec![text("q")])),
        ("b".to_string(), text("only here")),
    ]);
    base.merge(&other);
    assert!(base.find("a").unwrap().equals(&text("new")));
    assert!(base.find("g.x").unwrap().equals(&text("1")));
    assert!(base.find("g.y").unwrap().equals(&text("2")));
    assert!(base.find("l").unwrap().equals(&Variable::List(vec![text("p"), text("q")])));
    assert!(base.find("b").unwrap().equals(&text("only here")));

    // a value replaces a group of the same name
    let mut tree = Variable::Group(vec![("g".to_string(), Variable::Group(vec![]))]);
    tree.merge(&Variable::Group(vec![("g".to_string(), text("flat"))]));
    assert!(tree.find("g").unwrap().equals(&text("flat")));
}

#[test]
fn plain_text_passes_through_templates() {
    let input = "no statements here, only 100% text\nand a second line";
    let context = read_context(input, &F64).ok().unwrap();
    assert!(context.statements.is_empty());
    let mut counter = VariableEvalCounter::new();
    let out = evaluate(input, &context, &Variable::base(), &mut counter, &F64).ok().unwrap();
    assert_eq!(out, input);
}

#[test]
fn template_statement_is_replaced() {
    let input = "hello %% name %%!";
    let context = read_context(input, &F64).ok().unwrap();
    assert_eq!(context.statements.len(), 1);
    let vars = Variable::Group(vec![("name".to_string(), text("there"))]);
    let mut counter = VariableEvalCounter::new();
    let out = evaluate(input, &context, &vars, &mut counter, &F64).ok().unwrap();
    assert_eq!(out, "hello there!");
    assert_eq!(counter.usages(), vec!["name".to_string()]);
}

#[test]
fn statement_kind_follows_first_token() {
    let context = read_context("a %% theme.color %% b", &F64).ok().unwrap();
    match &context.statements[0].content {
        StatementType::Expression { content } => {
            assert_eq!(content.range.start, 5);
            assert!(matches!(&content.content, ExpressionContent::Variable(n) if n == "theme.color"));
        }
        _ => panic!("expected an expression statement"),
    }
    let context = read_context("%% !if flag %%yes%% !else %%no%% !end %%", &F64).ok().unwrap();
    assert!(matches!(context.statements[0].content, StatementType::Conditional { .. }));
    let context = read_context("%% !list items %%x%% !end %%", &F64).ok().unwrap();
    assert!(matches!(context.statements[0].content, StatementType::List { .. }));
}

#[test]
fn unreadable_statements_are_errors() {
    // A literal cannot open a statement.
    assert!(read_context("%% \"text\" %%", &F64).is_err());
    assert!(read_context("%% true %%", &F64).is_err());
    // An unknown keyword is an error.
    assert!(read_context("%% !loop x %%", &F64).is_err());
    // A control flow keyword outside any statement is an error.
    assert!(read_context("%% !end %%", &F64).is_err());
    // An if statement that is never closed is an error.
    assert!(read_context("%% !if flag %% open", &F64).is_err());
}

#[test]
fn module_choice_lines_name_each_module() {
    let a = module("main", "alpha", "1");
    let b = module("extra", "beta", "2");
    let modules = vec![&a, &b];
    let lines = pusta::output::module_options(&modules);
    assert_eq!(lines, vec!["main/alpha (alpha)".to_string(), "extra/beta (beta)".to_string()]);
}

#[test]
fn conditional_gives_the_picked_context() {
    let input = "<%% !if flag %%yes%% !else %%no%% !end %%>";
    let context = read_context(input, &F64).ok().unwrap();
    for (flag, expected) in [(true, "<yes>"), (false, "<no>")] {
        let vars = Variable::Group(vec![("flag".to_string(), Variable::Value(Value::Boolean(flag)))]);
        let mut counter = VariableEvalCounter::new();
        let out = evaluate(input, &context, &vars, &mut counter, &F64).ok().unwrap();
        assert_eq!(out, expected);
    }
}

#[test]
fn list_repeats_its_context_per_item() {
    let input = "%% !list items %%[%% _ %%]%% !end %%";
    let context = read_context(input, &F64).ok().unwrap();
    let vars = Variable::Group(vec![("items".to_string(), Variable::List(vec![text("a"), text("b")]))]);
    let mut counter = VariableEvalCounter::new();
    let out = evaluate(input, &context, &vars, &mut counter, &F64).ok().unwrap();
    assert_eq!(out, "[a][b]");
}

#[test]
fn modifiers_apply_one_after_another() {
    let input = "%% word:case-upper:contains(\"EL\") %% / %% word:contains(\"EL\") %%";
    let context = read_context(input, &F64).ok().unwrap();
    let vars = Variable::Group(vec![("word".to_string(), text("hello"))]);
    let mut counter = VariableEvalCounter::new();
    let out = evaluate(input, &context, &vars, &mut counter, &F64).ok().unwrap();
    assert_eq!(out, "true / false");
}

#[test]
fn cycle_check_answers_both_ways() {
    assert!(has_no_cycle(&vec![vec![1], vec![2], vec![]]));
    assert!(!has_no_cycle(&vec![vec![1], vec![0]]));
    assert!(!has_no_cycle(&vec![vec![], vec![2], vec![1]]));
}

#[test]
fn statements_without_nested_statements_are_read() {
    let context = read_context("a%% !list items %%b%% !end %%c", &F64).ok().unwrap();
    assert_eq!(context.statements.len(), 1);
    let context = read_context("%% !if \"x\" %%yes%% !end %%", &F64).ok().unwrap();
    assert!(matches!(context.statements[0].content, StatementType::Conditional { context_false: None, .. }));
    // A variable reference with modifiers is an error when the statement does not close.
    assert!(read_context("%% name x %%", &F64).is_err());
}

#[test]
fn usages_keep_each_name_once_in_order_of_first_use() {
    let mut counter = VariableEvalCounter::new();
    counter.used("a");
    counter.used("_.x");
    counter.used("b");
    counter.used("a");
    assert_eq!(counter.usages(), vec!["a".to_string(), "b".to_string()]);
}

#[test]
fn job_variables_keep_each_name_once() {
    let mut built = pusta::jobs::BuiltJob::new();
    let mut first = VariableEvalCounter::new();
    first.used("a");
    built.use_variables(first);
    let mut second = VariableEvalCounter::new();
    second.used("b");
    second.used("a");
    built.use_variables(second);
    assert_eq!(built.variables, vec!["a".to_string(), "b".to_string()]);
}

#[test]
fn statement_on_the_first_line_takes_its_newline() {
    let context = read_context("%% x %%\nrest", &F64).ok().unwrap();
    assert_eq!(context.statements[0].location, 0..8);
}

#[test]
fn commands_are_confirmed_by_the_execution_setting() {
    let mut config = Config::with_cache_dir("~/cache".to_string());
    config.security.confirm_execution = ConfirmStrategy::Yes;
    config.security.confirm_files = ConfirmStrategy::No;
    let shell = CheckedShell::new(&config);
    let (check, _) = shell.run_command("ls", false, false, None);
    assert!(matches!(check, Check::Ask(_)));
    config.security.confirm_execution = ConfirmStrategy::No;
    config.security.confirm_files = ConfirmStrategy::Yes;
    let shell = CheckedShell::new(&config);
    let (check, _) = shell.run_command("ls", false, false, None);
    assert!(matches!(check, Check::Proceed));
}

#[test]
fn resource_checksum_is_sha1_of_the_contents() {
    let item = pusta::jobs::ResourceItem::create("f".to_string(), b"abc").unwrap();
    assert_eq!(item.checksum, "a9993e364706816aba3e25717850c26c9cd0d89d");
    assert!(!item.changed(b"abc"));
    assert!(item.changed(b"abd"));
}

#[test]
fn if_statement_keeps_both_contexts() {
    let input = " %% !if true %%A%% !else %%B%% !end %%";
    let context = read_context(input, &F64).ok().unwrap();
    assert_eq!(context.statements[0].location, 1..38);
    match &context.statements[0].content {
        StatementType::Conditional { context_true, context_false, .. } => {
            assert_eq!(context_true.source, 15..16);
            assert_eq!(context_false.as_ref().unwrap().source, 27..28);
        }
        _ => panic!("expected an if statement"),
    }
    match read_context(" %% !if true %%A", &F64) {
        Err(e) => {
            assert_eq!(e.title, "expected control flow statement");
            assert_eq!(e.primary.0, 16..16);
        }
        Ok(_) => panic!("an unclosed if statement is an error"),
    }
}

#[test]
fn choice_answers_are_trimmed_numbers() {
    assert_eq!(pusta::output::read_choice(" 2 ", 3, None), Some(1));
    assert_eq!(pusta::output::read_choice("+2", 3, None), Some(1));
    assert_eq!(pusta::output::read_choice("\u{3000}3\t", 3, None), Some(2));
    assert_eq!(pusta::output::read_choice("-1", 3, None), None);
    assert_eq!(pusta::output::read_choice("4", 3, None), None);
    assert_eq!(pusta::output::read_choice("", 3, Some(0)), Some(0));
}

#[test]
fn keeping_path_names_by_sha1() {
    assert_eq!(
        pusta::module::change::keeping_path("/tmp/cache", "abc"),
        "/tmp/cache/a9993e364706816aba3e25717850c26c9cd0d89d"
    );
    assert_eq!(
        pusta::module::change::keeping_path("/tmp/cache/", ""),
        "/tmp/cache/da39a3ee5e6b4b0d3255bfef95601890afd80709"
    );
}

#[test]
fn finish_order_starts_from_each_root_in_turn() {
    let adj: Vec<Vec<usize>> = vec![vec![1], vec![], vec![1, 3], vec![]];
    assert_eq!(pusta::module::install::order::finish_order(&adj), vec![2, 3, 0, 1]);
}

#[test]
fn statements_with_modifiers_are_read() {
    let context = read_context("a %% x:contains(\"b\", true) %% c", &F64).ok().unwrap();
    assert_eq!(context.statements.len(), 1);
    assert_eq!(context.statements[0].location, 2..29);
    match &context.statements[0].content {
        StatementType::Expression { content } => {
            assert_eq!(content.modifiers.len(), 1);
            assert_eq!(content.modifiers[0].parameters.len(), 2);
        }
        _ => panic!("expected an expression statement"),
    }
}

#[test]
fn conditions_with_nested_modifiers_are_read() {
    let input = " %% !if x:eq(y:case-upper) %%A%% !end %%";
    let context = read_context(input, &F64).ok().unwrap();
    assert_eq!(context.statements.len(), 1);
    match &context.statements[0].content {
        StatementType::Conditional { condition, context_true, context_false } => {
            assert_eq!(condition.modifiers.len(), 1);
            assert_eq!(condition.modifiers[0].parameters.len(), 1);
            assert_eq!(condition.modifiers[0].parameters[0].modifiers.len(), 1);
            assert_eq!(context_true.source, 29..30);
            assert!(context_false.is_none());
        }
        _ => panic!("expected an if statement"),
    }
}
