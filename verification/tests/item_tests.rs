use matrix_engine::Item;

#[test]
fn get_function_test() {
    let mut item = Item::with_name(String::from("Test Item"));
    assert_eq!(item.name(), "Test Item");

    item.add_dependency(String::from("Test Dependency"));
    assert_eq!(item.depends_on().get(0).expect(""), "Test Dependency");
}

#[test]
fn deduplication_test() {
    let mut item = Item::with_name_and_dependencies(
        String::from("Test Item"),
        vec![
            String::from("Test Dependency 1"),
            String::from("Test Dependency 2"),
        ],
    );
    item.add_dependency(String::from("Test Dependency 1"));

    assert_eq!(item.depends_on().len(), 2);
}

#[test]
fn new_item_is_empty() {
    let item = Item::new();
    assert_eq!(item.name(), "");
    assert!(item.depends_on().is_empty());
}

#[test]
fn set_name_changes_only_the_name() {
    let mut item = Item::with_name_and_dependencies(
        String::from("before"),
        vec![String::from("dep")],
    );
    item.set_name(String::from("after"));
    assert_eq!(item.name(), "after");
    assert_eq!(item.depends_on().len(), 1);
}

#[test]
fn remove_dependency_removes_only_that_one() {
    let mut item = Item::with_name_and_dependencies(
        String::from("it"),
        vec![String::from("a"), String::from("b"), String::from("c")],
    );
    item.remove_dependency(&String::from("b"));
    assert_eq!(item.depends_on(), &vec![String::from("a"), String::from("c")]);
}

#[test]
fn add_dependencies_deduplicates() {
    let mut item = Item::with_name(String::from("it"));
    item.add_dependencies(&vec![
        String::from("a"),
        String::from("b"),
        String::from("a"),
    ]);
    assert_eq!(item.depends_on(), &vec![String::from("a"), String::from("b")]);
}

#[test]
fn remove_dependencies_removes_all_given() {
    let mut item = Item::with_name_and_dependencies(
        String::from("it"),
        vec![String::from("a"), String::from("b"), String::from("c")],
    );
    item.remove_dependencies(&vec![String::from("a"), String::from("c")]);
    assert_eq!(item.depends_on(), &vec![String::from("b")]);
}

#[test]
fn set_dependencies_replaces_and_deduplicates() {
    let mut item = Item::with_name_and_dependencies(
        String::from("it"),
        vec![String::from("old")],
    );
    item.set_dependencies(&vec![
        String::from("x"),
        String::from("x"),
        String::from("y"),
    ]);
    assert_eq!(item.depends_on(), &vec![String::from("x"), String::from("y")]);
}

#[test]
fn clear_dependencies_empties_the_list() {
    let mut item = Item::with_name_and_dependencies(
        String::from("it"),
        vec![String::from("a"), String::from("b")],
    );
    item.clear_dependencies();
    assert!(item.depends_on().is_empty());
}
