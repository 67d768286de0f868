use awcc_ctrl::names::{exe_name, is_valid_profile_name, workspace_root};
use awcc_ctrl::reconcile::{
    plan_reconcile, CompanionSpec, ReconcileConfig, ReconcileError, ReconcilePlan,
};
use awcc_ctrl::registry::{lines_file, read_prev_managed, remove_obsolete};

fn strings(items: &[&str]) -> Vec<String> {
    items.iter().map(|s| s.to_string()).collect()
}

fn config(profiles: &[&str], off: Option<&str>) -> ReconcileConfig {
    ReconcileConfig {
        version: 1,
        output_dir: None,
        profiles: strings(profiles),
        off_name: off.map(|s| s.to_string()),
        companion: None,
    }
}

fn plan(cfg: &ReconcileConfig, prev: &[&str]) -> ReconcilePlan {
    match plan_reconcile(cfg, &strings(prev)) {
        Ok(p) => p,
        Err(_) => panic!("configuration rejected"),
    }
}

fn contains(v: &[String], s: &str) -> bool {
    v.iter().any(|x| x == s)
}

#[test]
fn exe_name_appends_exe_on_windows() {
    let n = exe_name("sample");
    assert!(n.ends_with(".exe"));
    assert!(n.starts_with("sample"));
}

#[test]
fn read_prev_managed_reads_family_and_off() {
    let family = "# comment\nred.exe\n blue.exe \n";
    let off = "off.exe\n";
    let set = read_prev_managed(Some(family), Some(off));
    assert!(contains(&set, "red.exe"));
    assert!(contains(&set, "blue.exe"));
    assert!(contains(&set, "off.exe"));
}

#[test]
fn remove_obsolete_removes_missing_from_desired() {
    let prev = strings(&["old1.exe", "keep.exe"]);
    let desired = strings(&["keep.exe"]);
    let removed = remove_obsolete(&prev, &desired);
    assert!(contains(&removed, "old1.exe"));
    assert!(!contains(&removed, "keep.exe"));
}

#[test]
fn read_prev_managed_missing_files_are_empty() {
    assert!(read_prev_managed(None, None).is_empty());
    assert!(read_prev_managed(Some(""), Some("\n\n# only a comment\n")).is_empty());
}

#[test]
fn read_prev_managed_lists_each_name_once() {
    let set = read_prev_managed(Some("red.exe\r\nred.exe\n\tblue.exe"), Some("red.exe"));
    assert_eq!(set, strings(&["red.exe", "blue.exe"]));
}

#[test]
fn remove_obsolete_keeps_order_of_previous() {
    let prev = strings(&["c.exe", "a.exe", "b.exe"]);
    let desired = strings(&["a.exe"]);
    assert_eq!(remove_obsolete(&prev, &desired), strings(&["c.exe", "b.exe"]));
}

#[test]
fn profile_names_follow_the_pattern() {
    assert!(is_valid_profile_name("red"));
    assert!(is_valid_profile_name("Red_2-b"));
    assert!(!is_valid_profile_name(""));
    assert!(!is_valid_profile_name("bad name"));
    assert!(!is_valid_profile_name("dot.exe"));
    assert!(!is_valid_profile_name("red\n"));
}

#[test]
fn workspace_root_is_two_levels_up() {
    assert_eq!(workspace_root("/home/u/proj/crates/generator"), Some("/home/u/proj".to_string()));
    assert_eq!(workspace_root("C:\\proj\\crates\\generator\\"), Some("C:\\proj".to_string()));
    assert_eq!(workspace_root("/crates/generator"), Some("/".to_string()));
    assert_eq!(workspace_root("generator"), None);
}

#[test]
fn lines_file_ends_each_name_with_line_feed() {
    assert_eq!(lines_file(&strings(&["red.exe", "blue.exe"])), "red.exe\nblue.exe\n");
    assert_eq!(lines_file(&Vec::new()), "");
}

#[test]
fn scenario_red_blue_against_red_green() {
    let cfg = config(&["red", "blue"], None);
    let p = plan(&cfg, &["red.exe", "green.exe"]);
    assert_eq!(p.remove, strings(&["green.exe"]));
    assert_eq!(p.create, strings(&["red.exe", "blue.exe"]));
    assert_eq!(p.family_text, "red.exe\nblue.exe\n");
    assert!(p.off_text.is_none());
    let family = read_prev_managed(Some(&p.family_text), None);
    assert_eq!(family, strings(&["red.exe", "blue.exe"]));
}

#[test]
fn reconcile_registry_reads_back_desired_set() {
    let cfg = config(&["red", "blue"], Some("kill"));
    let p = plan(&cfg, &[]);
    assert_eq!(p.create, strings(&["red.exe", "blue.exe", "kill.exe"]));
    assert_eq!(p.off_text.as_deref(), Some("kill.exe\n"));
    let managed = read_prev_managed(Some(&p.family_text), p.off_text.as_deref());
    assert_eq!(managed, strings(&["red.exe", "blue.exe", "kill.exe"]));
}

#[test]
fn reconcile_twice_removes_nothing() {
    let cfg = config(&["red", "blue"], Some("kill"));
    let first = plan(&cfg, &["red.exe", "green.exe", "old.exe"]);
    let managed = read_prev_managed(Some(&first.family_text), first.off_text.as_deref());
    let second = match plan_reconcile(&cfg, &managed) {
        Ok(p) => p,
        Err(_) => panic!("configuration rejected"),
    };
    assert!(second.remove.is_empty());
    assert_eq!(second.create, first.create);
    assert_eq!(second.family_text, first.family_text);
    assert_eq!(second.off_text, first.off_text);
}

#[test]
fn removal_spares_names_still_desired() {
    let cfg = config(&["red"], Some("kill"));
    let p = plan(&cfg, &["red.exe", "kill.exe", "gone.exe"]);
    assert_eq!(p.remove, strings(&["gone.exe"]));
    assert!(contains(&p.create, "red.exe"));
    assert!(contains(&p.create, "kill.exe"));
}

#[test]
fn reconcile_rejects_unsupported_version() {
    let mut cfg = config(&["red"], None);
    cfg.version = 2;
    assert!(matches!(plan_reconcile(&cfg, &Vec::new()), Err(ReconcileError::UnsupportedVersion(2))));
}

#[test]
fn reconcile_rejects_first_invalid_name() {
    let cfg = config(&["red", "bad name", "also bad!"], None);
    match plan_reconcile(&cfg, &Vec::new()) {
        Err(ReconcileError::InvalidName(n)) => assert_eq!(n, "bad name"),
        _ => panic!("expected an invalid name"),
    }
    let cfg = config(&["red"], Some("off/x"));
    match plan_reconcile(&cfg, &Vec::new()) {
        Err(ReconcileError::InvalidName(n)) => assert_eq!(n, "off/x"),
        _ => panic!("expected an invalid name"),
    }
}

#[test]
fn reconcile_rejects_off_name_listed_as_profile() {
    let cfg = config(&["red", "Kill"], Some("kill"));
    match plan_reconcile(&cfg, &Vec::new()) {
        Err(ReconcileError::OffNameIsProfile(n)) => assert_eq!(n, "kill"),
        _ => panic!("expected the off name to be refused"),
    }
}

#[test]
fn companion_files_are_planned() {
    let mut cfg = config(&["red"], None);
    cfg.companion = Some(CompanionSpec {
        path: "C:\\AWCC\\AWCC.exe".to_string(),
        args: strings(&["--quiet", "hello world"]),
        start_minimized: None,
    });
    let p = plan(&cfg, &[]);
    let c = p.companion.expect("companion files");
    assert_eq!(c.path_text, "C:\\AWCC\\AWCC.exe\n");
    assert_eq!(c.args_text.as_deref(), Some("--quiet\nhello world\n"));
    assert_eq!(c.start_minimized_text, "true\n");

    cfg.companion = Some(CompanionSpec {
        path: "awcc.exe".to_string(),
        args: Vec::new(),
        start_minimized: Some(false),
    });
    let c = plan(&cfg, &[]).companion.expect("companion files");
    assert!(c.args_text.is_none());
    assert_eq!(c.start_minimized_text, "false\n");
}

#[test]
fn output_dir_defaults_to_dist() {
    let mut cfg = config(&["red"], None);
    assert_eq!(cfg.output_dir(), "dist");
    cfg.output_dir = Some("out".to_string());
    assert_eq!(cfg.output_dir(), "out");
}
