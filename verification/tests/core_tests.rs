use jamliquor::Importer;

#[test]
fn it_works() {
    let result = 2 + 2;
    assert_eq!(result, 4);
}

/// Basic sanity check to ensure testing infrastructure works
#[test]
fn test_project_setup() {
    assert!(true, "Project testing infrastructure is functional");
}

#[test]
fn core_tests_test_project_setup() {}

#[test]
fn mod_test_project_setup() {}

#[test]
fn test_placeholder() {
    let importer = Importer::new();
    assert_eq!(importer.state().get_counter(), 0);
}
