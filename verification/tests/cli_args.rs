use cdl_maze::cli_args::{add, Cli};

#[test]
fn it_works() {
    let result = add(2, 2);
    assert_eq!(result, 4);
}

#[test]
fn add_edges() {
    assert_eq!(add(0, 0), 0);
    assert_eq!(add(usize::MAX - 1, 1), usize::MAX);
}

#[test]
fn cli_holds_its_options() {
    let cli = Cli { file_name: Some("a.cdl".to_string()), output: None };
    assert_eq!(cli.file_name.as_deref(), Some("a.cdl"));
    assert!(cli.output.is_none());
}
