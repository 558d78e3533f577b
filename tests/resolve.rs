use lua_ffi::resolve::{dependency_sorted_type_descriptions, DependencyCycleError, TypeDescription};

fn entry(typeid: usize, name: &str, dependencies: Vec<usize>) -> TypeDescription {
    TypeDescription {
        typeid,
        typename: name.to_string(),
        dependencies,
        typedeclaration: String::new(),
        metatype: String::new(),
    }
}

fn position(order: &[usize], id: usize) -> usize {
    order.iter().position(|&k| k == id).unwrap()
}

#[test]
fn chain_of_dependencies_is_ordered() {
    // C depends on B and A, B depends on A.
    let arena = vec![entry(0, "C", vec![1, 2]), entry(1, "B", vec![2]), entry(2, "A", vec![])];
    let order = dependency_sorted_type_descriptions(&arena).unwrap();
    assert_eq!(order.len(), 3);
    assert!(position(&order, 2) < position(&order, 1));
    assert!(position(&order, 1) < position(&order, 0));
}

#[test]
fn chain_in_arena_order() {
    let arena = vec![entry(0, "A", vec![]), entry(1, "B", vec![0]), entry(2, "C", vec![0, 1])];
    let order = dependency_sorted_type_descriptions(&arena).unwrap();
    assert_eq!(order, vec![0, 1, 2]);
}

#[test]
fn cycle_is_reported() {
    let arena = vec![entry(0, "X", vec![1]), entry(1, "Y", vec![0])];
    assert_eq!(
        dependency_sorted_type_descriptions(&arena),
        Err(DependencyCycleError { unresolved: 2 })
    );
}

#[test]
fn cycle_behind_placeable_types() {
    let arena = vec![
        entry(0, "Free", vec![]),
        entry(1, "X", vec![2]),
        entry(2, "Y", vec![1]),
        entry(3, "Z", vec![0]),
    ];
    assert_eq!(
        dependency_sorted_type_descriptions(&arena),
        Err(DependencyCycleError { unresolved: 2 })
    );
}

#[test]
fn independent_types_are_all_placed_once() {
    let arena = vec![entry(0, "P", vec![]), entry(1, "Q", vec![]), entry(2, "R", vec![])];
    let mut order = dependency_sorted_type_descriptions(&arena).unwrap();
    order.sort();
    assert_eq!(order, vec![0, 1, 2]);
}

#[test]
fn empty_arena_has_empty_order() {
    assert_eq!(dependency_sorted_type_descriptions(&vec![]), Ok(vec![]));
}
