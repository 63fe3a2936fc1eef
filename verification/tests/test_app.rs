use armature_testing::test_app::{wiring_order, ModuleNode, WIRE_MODULE_MAX_DEPTH};
use armature_testing::{ModuleWiring, WireStep};

fn node(id: u64, imports: Vec<usize>) -> ModuleNode {
    ModuleNode { id, imports, re_exports: vec![] }
}

/// The providers registered, in order, when the graph is wired from `root`.
fn registered(graph: &Vec<ModuleNode>, providers: &[Vec<&'static str>], root: usize) -> Vec<&'static str> {
    let order = wiring_order(graph, root).expect("the graph nests shallowly enough");
    order.iter().flat_map(|m| providers[*m].iter().copied()).collect()
}

#[test]
fn add_module_dedups_diamond_imported_module_registers_shared_provider_once() {
    let graph = vec![node(1, vec![1, 2]), node(2, vec![3]), node(3, vec![3]), node(4, vec![])];
    let providers = vec![vec![], vec![], vec![], vec!["Shared"]];
    let registered = registered(&graph, &providers, 0);

    assert_eq!(registered.iter().filter(|p| **p == "Shared").count(), 1);
    assert!(registered.contains(&"Shared"));
}

#[test]
fn add_module_dedups_self_importing_module_registers_once_without_panicking() {
    let graph = vec![node(9, vec![0])];
    let providers = vec![vec!["SelfImportMarker"]];
    let registered = registered(&graph, &providers, 0);

    assert_eq!(registered.iter().filter(|p| **p == "SelfImportMarker").count(), 1);
    assert!(registered.contains(&"SelfImportMarker"));
}

#[test]
fn distinct_imported_modules_all_register_imports_first() {
    let graph = vec![node(10, vec![1, 2]), node(11, vec![]), node(12, vec![])];
    let providers = vec![vec!["Parent"], vec!["Counter"], vec!["Pinger"]];
    assert_eq!(registered(&graph, &providers, 0), vec!["Counter", "Pinger", "Parent"]);
}

#[test]
fn re_exports_are_wired_after_imports() {
    let graph = vec![
        ModuleNode { id: 1, imports: vec![1], re_exports: vec![2] },
        node(2, vec![]),
        node(3, vec![1]),
    ];
    assert_eq!(wiring_order(&graph, 0), Some(vec![1, 2, 0]));
}

#[test]
fn a_chain_nesting_too_deep_stops_the_walk() {
    let chain = |n: usize| -> Vec<ModuleNode> {
        (0..n)
            .map(|i| node(i as u64, if i + 1 < n { vec![i + 1] } else { vec![] }))
            .collect()
    };
    assert_eq!(wiring_order(&chain(64), 0).map(|o| o.len()), Some(64));
    assert_eq!(wiring_order(&chain(65), 0), None);
}

#[test]
fn enter_steps() {
    let mut wiring = ModuleWiring::new();
    assert!(!wiring.is_wired(5));
    assert_eq!(wiring.enter(5, 0), WireStep::Wire);
    assert!(wiring.is_wired(5));
    assert_eq!(wiring.enter(5, 3), WireStep::AlreadyWired);
    assert_eq!(wiring.enter(6, WIRE_MODULE_MAX_DEPTH - 1), WireStep::Wire);
    assert_eq!(wiring.enter(7, WIRE_MODULE_MAX_DEPTH), WireStep::TooDeep);
    assert!(!wiring.is_wired(7));
    assert_eq!(WIRE_MODULE_MAX_DEPTH, 64);
}
