use rsync_backup::args::{build_args, check_config, ConfigError, RunConfig};
use rsync_backup::versioning::ResolvedVersioning;

fn config(source: &str, target: &str) -> RunConfig {
    RunConfig {
        source_dir: source.to_string(),
        target_dir: target.to_string(),
        versioned: false,
        no_exclude_caches: false,
        exclude_override: None,
        pass_args: None,
    }
}

fn resolved(path: &str, link: Option<&str>) -> ResolvedVersioning {
    ResolvedVersioning {
        new_snapshot_path: path.to_string(),
        link_reference: link.map(|l| l.to_string()),
    }
}

#[test]
fn plain_run_has_base_flags_cache_excludes_source_and_target() {
    let args = build_args(&config("/a", "/b"), None);
    assert_eq!(
        args,
        vec!["-axP", "--stats", "--exclude", "**Cache**", "--exclude", "**cache**", "/a", "/b"]
    );
}

#[test]
fn cache_excludes_can_be_left_out() {
    let mut c = config("/a", "/b");
    c.no_exclude_caches = true;
    assert_eq!(build_args(&c, None), vec!["-axP", "--stats", "/a", "/b"]);
}

#[test]
fn override_adds_to_the_cache_excludes() {
    let mut c = config("/a", "/b");
    c.exclude_override = Some("*.tmp,build".to_string());
    assert_eq!(
        build_args(&c, None),
        vec![
            "-axP",
            "--stats",
            "--exclude",
            "**Cache**",
            "--exclude",
            "**cache**",
            "--exclude",
            "*.tmp",
            "--exclude",
            "build",
            "/a",
            "/b"
        ]
    );
    c.no_exclude_caches = true;
    assert_eq!(
        build_args(&c, None),
        vec!["-axP", "--stats", "--exclude", "*.tmp", "--exclude", "build", "/a", "/b"]
    );
}

#[test]
fn empty_override_is_one_empty_pattern() {
    let mut c = config("/a", "/b");
    c.no_exclude_caches = true;
    c.exclude_override = Some(String::new());
    assert_eq!(build_args(&c, None), vec!["-axP", "--stats", "--exclude", "", "/a", "/b"]);
    c.exclude_override = Some("x,".to_string());
    assert_eq!(
        build_args(&c, None),
        vec!["-axP", "--stats", "--exclude", "x", "--exclude", "", "/a", "/b"]
    );
}

#[test]
fn pass_args_are_split_at_single_spaces() {
    let mut c = config("/a", "/b");
    c.no_exclude_caches = true;
    c.pass_args = Some("-v --delete".to_string());
    assert_eq!(build_args(&c, None), vec!["-axP", "--stats", "-v", "--delete", "/a", "/b"]);
    // Two spaces give an empty argument, and quotes keep nothing together.
    c.pass_args = Some("-e  'ssh -p 22'".to_string());
    assert_eq!(
        build_args(&c, None),
        vec!["-axP", "--stats", "-e", "", "'ssh", "-p", "22'", "/a", "/b"]
    );
    c.pass_args = Some(String::new());
    assert_eq!(build_args(&c, None), vec!["-axP", "--stats", "", "/a", "/b"]);
}

#[test]
fn versioned_run_links_and_writes_to_the_new_snapshot() {
    let mut c = config("/a", "/b");
    c.versioned = true;
    let v = resolved("/b/202403030303", Some("/b/202402020000"));
    assert_eq!(
        build_args(&c, Some(&v)),
        vec![
            "-axP",
            "--stats",
            "--link-dest=/b/202402020000",
            "--exclude",
            "**Cache**",
            "--exclude",
            "**cache**",
            "/a",
            "/b/202403030303"
        ]
    );
}

#[test]
fn versioned_run_without_reference_has_no_link_flag() {
    let mut c = config("/a", "/b");
    c.versioned = true;
    c.no_exclude_caches = true;
    let v = resolved("/b/202403030303", None);
    assert_eq!(build_args(&c, Some(&v)), vec!["-axP", "--stats", "/a", "/b/202403030303"]);
    assert_eq!(build_args(&c, None), vec!["-axP", "--stats", "/a", "/b"]);
}

#[test]
fn run_that_is_not_versioned_ignores_what_was_resolved() {
    let c = config("/a", "/b");
    let v = resolved("/b/202403030303", Some("/b/202402020000"));
    assert_eq!(build_args(&c, Some(&v)), build_args(&c, None));
}

#[test]
fn everything_at_once_keeps_the_order() {
    let c = RunConfig {
        source_dir: "/src dir".to_string(),
        target_dir: "/b".to_string(),
        versioned: true,
        no_exclude_caches: false,
        exclude_override: Some("one".to_string()),
        pass_args: Some("-n".to_string()),
    };
    let v = resolved("/b/202403030303", Some("/b/202402020000"));
    assert_eq!(
        build_args(&c, Some(&v)),
        vec![
            "-axP",
            "--stats",
            "--link-dest=/b/202402020000",
            "--exclude",
            "**Cache**",
            "--exclude",
            "**cache**",
            "--exclude",
            "one",
            "-n",
            "/src dir",
            "/b/202403030303"
        ]
    );
}

#[test]
fn builder_leaves_the_configuration_alone() {
    let mut c = config("/a", "/b");
    c.versioned = true;
    let before = c.clone();
    let v = resolved("/b/202403030303", None);
    let first = build_args(&c, Some(&v));
    let second = build_args(&c, Some(&v));
    assert_eq!(first, second);
    assert_eq!(c, before);
}

#[test]
fn configuration_needs_source_and_target() {
    assert_eq!(check_config(&config("/a", "/b")), Ok(()));
    assert_eq!(check_config(&config("", "/b")), Err(ConfigError::MissingSource));
    assert_eq!(check_config(&config("/a", "")), Err(ConfigError::MissingTarget));
    assert_eq!(check_config(&config("", "")), Err(ConfigError::MissingSource));
    assert_eq!(ConfigError::MissingSource.message(), "no source directory is given");
    assert_eq!(ConfigError::MissingTarget.message(), "no target directory is given");
}
