use pusta::module::install::depend::{Resolver, ResolvingAction};
use pusta::module::qualifier::ModuleQualifier;

fn qualifier(name: &str) -> ModuleQualifier {
    ModuleQualifier::new("q".to_string(), name, None, None)
}

fn names(order: Vec<ModuleQualifier>) -> Vec<String> {
    order.iter().map(|q| q.name().clone()).collect()
}

fn lecture_graph(h_depends_on_g: bool) -> Vec<(ModuleQualifier, Vec<ModuleQualifier>)> {
    vec![
        (qualifier("a"), vec![qualifier("b"), qualifier("c"), qualifier("f")]),
        (qualifier("b"), vec![qualifier("e")]),
        (qualifier("c"), vec![qualifier("d")]),
        (qualifier("d"), vec![qualifier("h")]),
        (qualifier("e"), vec![qualifier("f"), qualifier("h"), qualifier("g")]),
        (qualifier("f"), vec![qualifier("g")]),
        (qualifier("g"), vec![]),
        (qualifier("h"), if h_depends_on_g { vec![qualifier("g")] } else { vec![] }),
    ]
}

#[test]
fn dfs() {
    let resolver = Resolver { dependency: lecture_graph(true), action: vec![], removals: vec![] };
    let order = names(resolver.get_order());
    assert_eq!(order, vec!["a", "c", "d", "b", "e", "h", "f", "g"]);
}

#[test]
fn dfs_installed() {
    let installed = vec![
        (qualifier("g"), ResolvingAction::Placeholder),
        (qualifier("h"), ResolvingAction::Placeholder),
    ];
    let resolver = Resolver { dependency: lecture_graph(false), action: installed, removals: vec![] };
    let order = names(resolver.get_order());
    assert_eq!(order, vec!["a", "c", "d", "b", "e", "f"]);
}

#[test]
fn dfs_every_module_before_its_dependencies() {
    let resolver = Resolver { dependency: lecture_graph(true), action: vec![], removals: vec![] };
    let order = names(resolver.get_order());
    let position = |n: &str| order.iter().position(|x| x == n).unwrap();
    for (from, to) in [("a", "b"), ("a", "c"), ("a", "f"), ("b", "e"), ("c", "d"), ("d", "h"), ("e", "f"), ("e", "h"), ("e", "g"), ("f", "g"), ("h", "g")] {
        assert!(position(from) < position(to));
    }
}

#[test]
fn empty_resolver_has_empty_order() {
    let resolver = Resolver::new();
    assert!(resolver.get_order().is_empty());
}
