use rebone::convert::{Cli, Rebone};

fn full_cli() -> Cli {
    Cli {
        input_prim: Some("in.prim".to_string()),
        from_borg: Some("from.borg".to_string()),
        to_borg: Some("00abcdef01234567.borg".to_string()),
        output_prim: Some("out.prim".to_string()),
    }
}

#[test]
fn all_paths_given_run_without_gui() {
    let mut rebone = Rebone::new();
    rebone.process_args(&full_cli());
    assert!(!rebone.gui);
    assert_eq!(rebone.input_prim_path, "in.prim");
    assert_eq!(rebone.from_borg_path, "from.borg");
    assert_eq!(rebone.to_borg_path, "00abcdef01234567.borg");
    assert_eq!(rebone.output_prim_path, "out.prim");
}

#[test]
fn a_missing_path_asks_for_the_gui() {
    let mut args = full_cli();
    args.to_borg = None;
    let mut rebone = Rebone::new();
    rebone.process_args(&args);
    assert!(rebone.gui);
    assert_eq!(rebone.input_prim_path, "");
    assert_eq!(rebone.output_prim_path, "");
}

#[test]
fn new_rebone_is_empty() {
    let rebone = Rebone::new();
    assert!(!rebone.gui);
    assert!(rebone.input_prim_path.is_empty());
    assert!(rebone.from_borg_path.is_empty());
    assert!(rebone.to_borg_path.is_empty());
    assert!(rebone.output_prim_path.is_empty());
}
