use del::config::{
    apply_cli, effective_force, init, merged_disable_list, record_ids, restore_targets,
    select_targets, Cli, Config, CoverMode, DeleteMode, DisableProbe,
};

fn empty_cli() -> Cli {
    Cli {
        path: vec![],
        force: false,
        select: vec![],
        recursive: false,
        list: false,
        show: vec![],
        restore: vec![],
        delete: vec![],
        level: None,
        save_time: None,
        trash_dir: None,
        disable: vec![],
        safe: false,
        autoclean: false,
        save: false,
        clear: false,
        cover: None,
        output: vec![],
        tui: None,
        verbose: false,
    }
}

#[test]
fn default_disable_list_protects_critical_directories() {
    let config = Config::with_home("/home/alice");
    let list = config.disable_list.iter().map(|p| p.as_str()).collect::<Vec<_>>();
    for critical in [
        "/", "/boot", "/etc", "/usr", "/var", "/bin", "/sbin", "/lib", "/lib64", "/opt",
        "/root", "/home", "/proc", "/sys", "/dev", "/tmp",
    ] {
        assert!(list.contains(&critical), "default disable_list should protect {critical}");
    }
    // The trash itself and the home directory are also protected.
    assert!(list.iter().any(|p| p.ends_with(".trash")));
    assert!(list.iter().any(|p| p.starts_with("/home/")));
}

#[test]
fn defaults() {
    let c = Config::with_home("/home/alice");
    assert_eq!(c.cover_mode, CoverMode::Ask);
    assert_eq!(c.compression_level, 3);
    assert_eq!(c.save_time, 30);
    assert_eq!(c.trash_dir, "/home/alice/.trash");
    assert!(c.safe_mode);
    assert_eq!(c.disable_list[0], "/home/alice/.trash");
    assert_eq!(c.disable_list[1], "/home/alice");
    assert_eq!(c.disable_list.len(), 18);
}

#[test]
fn command_line_over_configuration() {
    let mut config = Config::with_home("/home/alice");
    config.safe_mode = false;
    let mut cli = empty_cli();
    cli.cover = Some(CoverMode::Never);
    cli.level = Some(9);
    cli.save_time = Some(7);
    cli.trash_dir = Some("/data/.trash".to_string());
    cli.disable = vec!["/srv".to_string(), "/mnt".to_string()];
    let merged = apply_cli(config.clone(), &cli);
    assert_eq!(merged.cover_mode, CoverMode::Never);
    assert_eq!(merged.compression_level, 9);
    assert_eq!(merged.save_time, 7);
    assert_eq!(merged.trash_dir, "/data/.trash");
    assert!(!merged.safe_mode);
    assert_eq!(merged.disable_list.len(), 20);
    assert_eq!(merged.disable_list[18], "/srv");
    assert_eq!(merged.disable_list[19], "/mnt");
    assert_eq!(merged_disable_list(&config, &cli), merged.disable_list);

    cli.safe = true;
    assert!(apply_cli(config.clone(), &cli).safe_mode);
    let unchanged = apply_cli(config.clone(), &empty_cli());
    assert_eq!(unchanged.trash_dir, config.trash_dir);
    assert_eq!(unchanged.disable_list, config.disable_list);
}

#[test]
fn safe_mode_and_save_ignore_force() {
    assert!(!effective_force(true, false, true));
    assert!(!effective_force(false, true, true));
    assert!(effective_force(false, false, true));
    assert!(!effective_force(false, false, false));
}

#[test]
fn protected_paths_are_skipped() {
    let targets = vec![
        Some("/etc".to_string()),
        Some("/etc/hosts".to_string()),
        None,
        Some("/home/alice/notes".to_string()),
        Some("/".to_string()),
        Some("/srv/x".to_string()),
    ];
    let probes = vec![
        DisableProbe::Resolved("/etc".to_string()),
        DisableProbe::Missing,
        DisableProbe::Resolved("/home/alice/notes/keep".to_string()),
    ];
    assert_eq!(select_targets(&targets, &probes), vec!["/etc/hosts".to_string(), "/srv/x".to_string()]);
    let blocked = vec![DisableProbe::Unresolved];
    assert_eq!(select_targets(&targets, &blocked), Vec::<String>::new());
}

#[test]
fn ids_of_repeated_flags() {
    assert_eq!(record_ids(&vec![vec![1, 2], vec![7]]), vec![1i64, 2, 7]);
    assert_eq!(record_ids(&vec![vec![u64::MAX]]), vec![-1i64]);
    let m = restore_targets(&vec![1, 2, 3], &vec!["a".to_string(), "b".to_string()]);
    assert_eq!(m.len(), 3);
    assert_eq!(m[&1], Some("a".to_string()));
    assert_eq!(m[&2], Some("b".to_string()));
    assert_eq!(m[&3], None);
    let dup = restore_targets(&vec![4, 4], &vec!["a".to_string(), "b".to_string()]);
    assert_eq!(dup[&4], Some("b".to_string()));
}

#[test]
fn plan_of_a_run() {
    let config = Config::with_home("/home/alice");
    let mut cli = empty_cli();
    cli.force = true;
    cli.restore = vec![vec![1, 2], vec![5]];
    cli.output = vec!["/tmp/a".to_string()];
    cli.delete = vec![vec![9]];
    cli.show = vec![vec![3, 4]];
    cli.select = vec!["report".to_string()];
    cli.list = true;
    cli.level = Some(6);
    let targets = vec![Some("/home/alice/x".to_string()), Some("/home/alice".to_string())];
    let list = merged_disable_list(&config, &cli);
    let probes = list
        .iter()
        .map(|p| if p == "/home/alice" { DisableProbe::Resolved(p.clone()) } else { DisableProbe::Missing })
        .collect();
    let todo = init(config, cli, targets, probes);
    assert_eq!(todo.to_remove, vec!["/home/alice/x".to_string()]);
    assert!(!todo.force);
    assert_eq!(todo.level, 6);
    assert_eq!(todo.to_restore.len(), 3);
    assert_eq!(todo.to_restore[&1], Some("/tmp/a".to_string()));
    assert_eq!(todo.to_restore[&5], None);
    assert_eq!(todo.to_delete, vec![9]);
    assert_eq!(todo.show, vec![3, 4]);
    assert_eq!(todo.select, vec!["report".to_string()]);
    assert!(todo.list);
    assert_eq!(todo.cover, CoverMode::Ask);
    assert_eq!(todo.save_time, 30);
    assert_eq!(todo.trash_dir, "/home/alice/.trash");
}

#[test]
fn delete_modes() {
    let config = Config::with_home("/home/alice");
    let mut cli = empty_cli();
    cli.force = true;
    cli.recursive = true;
    let probes = || vec![DisableProbe::Missing; 18];
    let todo = init(config.clone(), cli.clone(), vec![], probes());
    assert_eq!(todo.delete_mode(), DeleteMode::PackAndRemove);
    let mut unsafe_config = config.clone();
    unsafe_config.safe_mode = false;
    let todo = init(unsafe_config.clone(), cli.clone(), vec![], probes());
    assert_eq!(todo.delete_mode(), DeleteMode::ForceRecursive);
    cli.recursive = false;
    let todo = init(unsafe_config.clone(), cli.clone(), vec![], probes());
    assert_eq!(todo.delete_mode(), DeleteMode::ForceFiles);
    cli.save = true;
    let todo = init(unsafe_config, cli, vec![], probes());
    assert_eq!(todo.delete_mode(), DeleteMode::PackOnly);
}
