use srb_lens::indexer::{
    cache_exists, cache_dir, cache_stale, cfg_file, check_sorbet_output, join_path, load_or_index,
    skip_dir, IndexError, LoadPlan, SrbCommand,
};

#[test]
fn srb_command_splits_program_and_prefix() {
    let c = SrbCommand::new("bundle exec srb");
    assert_eq!(c.program(), "bundle");
    assert_eq!(
        c.command_args(&vec!["--print=cfg-text".to_string()]),
        vec!["exec", "srb", "tc", "--print=cfg-text", "--no-error-count"]
    );
    let d = SrbCommand::new("   ");
    assert_eq!(d.program(), "srb");
    assert_eq!(d.command_args(&Vec::new()), vec!["tc", "--no-error-count"]);
    let s = SrbCommand::new("srb");
    assert_eq!(s.program(), "srb");
    let dflt = SrbCommand::default();
    assert_eq!(dflt.program(), "srb");
}

#[test]
fn cache_paths() {
    assert_eq!(cache_dir("/proj"), "/proj/.srb-lens");
    assert_eq!(cache_dir("/proj/"), "/proj/.srb-lens");
    assert_eq!(cache_dir(""), ".srb-lens");
    assert_eq!(cfg_file("/p"), "/p/.srb-lens/cfg.txt");
    assert_eq!(join_path("a", "b"), "a/b");
}

#[test]
fn cache_decisions() {
    assert!(cache_exists(true, true));
    assert!(!cache_exists(true, false));
    assert!(cache_stale(None, Some(1)));
    assert!(cache_stale(Some(5), Some(6)));
    assert!(!cache_stale(Some(5), Some(5)));
    assert!(!cache_stale(Some(5), None));
    assert_eq!(load_or_index(true, false), LoadPlan::FromCache);
    assert_eq!(load_or_index(true, true), LoadPlan::Index);
    assert_eq!(load_or_index(false, false), LoadPlan::Index);
}

#[test]
fn skipped_directories() {
    assert!(skip_dir("vendor"));
    assert!(skip_dir(".hidden"));
    assert!(skip_dir("node_modules"));
    assert!(skip_dir("sorbet"));
    assert!(!skip_dir("app"));
    assert!(!skip_dir("vendors"));
}

#[test]
fn sorbet_output_checks() {
    assert_eq!(check_sorbet_output("out".into(), false, "1", "").unwrap(), "out");
    assert_eq!(check_sorbet_output(String::new(), true, "0", "").unwrap(), "");
    match check_sorbet_output(String::new(), false, "exit status: 1", "boom") {
        Err(IndexError::SorbetOutput(m)) => {
            assert_eq!(m, "sorbet exited with exit status: 1 and empty stdout. stderr: boom")
        }
        _ => panic!("expected an error"),
    }
}
