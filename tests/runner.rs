use awcc_ctrl::launch::{build_params, quote_arg};
use awcc_ctrl::supervisor::{
    companion_launch, elimination_targets, file_name_of, first_line_of, is_off_instance,
    is_running, pids_to_terminate, start_minimized_flag, Action, Event, Phase, ProcessEntry,
    RegistryFiles, Supervisor,
};
use awcc_ctrl::text::record_lines;

fn strings(items: &[&str]) -> Vec<String> {
    items.iter().map(|s| s.to_string()).collect()
}

fn procs(items: &[(u32, &str)]) -> Vec<ProcessEntry> {
    items.iter().map(|(pid, name)| ProcessEntry { pid: *pid, name: name.to_string() }).collect()
}

fn files(family: Option<&str>, off: Option<&str>, companion: Option<&str>) -> RegistryFiles {
    RegistryFiles {
        family: family.map(|s| s.to_string()),
        off: off.map(|s| s.to_string()),
        companion_path: companion.map(|s| s.to_string()),
        companion_args: None,
        companion_start_minimized: None,
    }
}

#[test]
fn quote_arg_examples() {
    assert_eq!(quote_arg("hello world"), "\"hello world\"");
    assert_eq!(quote_arg("say \"hi\""), "\"say \\\"hi\\\"\"");
    assert_eq!(quote_arg("plain"), "plain");
    assert_eq!(quote_arg("tab\there"), "\"tab\there\"");
    assert_eq!(quote_arg(""), "");
}

#[test]
fn build_params_joins_with_spaces() {
    assert_eq!(build_params(&strings(&["-a", "two words", "x"])), "-a \"two words\" x");
    assert_eq!(build_params(&Vec::new()), "");
}

#[test]
fn record_lines_skips_blanks_and_comments() {
    assert_eq!(record_lines("# c\n\n  a  \r\nb\n#x\n c"), strings(&["a", "b", "c"]));
    assert!(record_lines("").is_empty());
}

#[test]
fn elimination_targets_add_suffix_and_skip_self() {
    let t = elimination_targets("red\nBLUE.EXE\n# c\nGreen.exe\n", "green.exe");
    assert_eq!(t, strings(&["red.exe", "BLUE.EXE"]));
}

#[test]
fn elimination_never_targets_own_pid() {
    let targets = elimination_targets("red.exe\nblue.exe\n", "red.exe");
    assert_eq!(targets, strings(&["blue.exe"]));
    let list = procs(&[(10, "BLUE.exe"), (11, "red.exe"), (12, "blue.exe"), (13, "other.exe")]);
    assert_eq!(pids_to_terminate(&targets, &list, 12), vec![10]);
    let all = strings(&["red.exe", "blue.exe"]);
    assert_eq!(pids_to_terminate(&all, &list, 11), vec![10, 12]);
}

#[test]
fn off_designation_is_case_insensitive() {
    assert!(is_off_instance("# off\nKILL.exe\n", "kill.exe"));
    assert!(!is_off_instance("kill.exe\n", "red.exe"));
    assert!(!is_off_instance("", "kill.exe"));
}

#[test]
fn companion_path_and_flag_parsing() {
    assert_eq!(first_line_of("  C:\\A\\awcc.exe \r\nignored"), "C:\\A\\awcc.exe");
    assert_eq!(file_name_of("C:\\Program Files\\AWCC\\AWCC.exe"), Some("AWCC.exe".to_string()));
    assert_eq!(file_name_of("/opt/tool/"), Some("tool".to_string()));
    assert_eq!(file_name_of("/opt/.."), None);
    assert!(start_minimized_flag(None));
    assert!(start_minimized_flag(Some("TRUE\n")));
    assert!(!start_minimized_flag(Some(" False \n")));
    assert!(start_minimized_flag(Some("maybe")));
}

#[test]
fn companion_launch_reads_all_files() {
    let c = companion_launch(Some("C:\\AWCC\\AWCC.exe\n"), Some("--quiet\n# c\nhello world\n"), Some("false"))
        .expect("companion");
    assert_eq!(c.path, "C:\\AWCC\\AWCC.exe");
    assert_eq!(c.exe_name, "AWCC.exe");
    assert_eq!(c.args, strings(&["--quiet", "hello world"]));
    assert!(!c.start_minimized);
    assert!(companion_launch(Some("  \n"), None, None).is_none());
    assert!(companion_launch(None, Some("x"), None).is_none());
    let d = companion_launch(Some("C:\\AWCC\\.."), None, None).expect("companion");
    assert_eq!(d.exe_name, "awcc.exe");
    assert!(d.start_minimized);
}

#[test]
fn running_check_ignores_case() {
    let list = procs(&[(1, "Awcc.EXE")]);
    assert!(is_running(&list, "awcc.exe"));
    assert!(!is_running(&list, "other.exe"));
}

#[test]
fn off_instance_kills_family_then_exits_without_ui() {
    let f = files(Some("red.exe\nblue.exe\n"), Some("kill.exe\n"), Some("C:\\AWCC\\awcc.exe"));
    let mut s = Supervisor::new("kill.exe", 50, &f);
    assert!(s.off);
    assert!(matches!(s.step(Event::Start), Action::ListProcesses));
    let list = procs(&[(7, "red.exe"), (8, "blue.exe"), (9, "notepad.exe"), (50, "kill.exe")]);
    match s.step(Event::ProcessesListed(list)) {
        Action::Terminate(pids) => assert_eq!(pids, vec![7, 8]),
        _ => panic!("expected terminations"),
    }
    assert!(matches!(
        s.step(Event::Done),
        Action::Exit { unregister_ui: false, success: true }
    ));
    assert_eq!(s.phase, Phase::OffExit);
    assert!(!s.ui_registered);
    assert!(matches!(s.step(Event::ContextMenuRequested), Action::Wait));
}

#[test]
fn off_instance_without_siblings_exits_at_once() {
    let f = files(None, Some("kill.exe"), None);
    let mut s = Supervisor::new("KILL.EXE", 1, &f);
    assert!(matches!(s.step(Event::Start), Action::Exit { unregister_ui: false, success: true }));
    assert_eq!(s.phase, Phase::OffExit);
}

#[test]
fn running_companion_is_not_launched_again() {
    let f = files(Some("red.exe\n"), None, Some("C:\\AWCC\\AWCC.exe"));
    let mut s = Supervisor::new("red.exe", 3, &f);
    assert!(s.targets.is_empty());
    assert!(matches!(s.step(Event::Start), Action::ListProcesses));
    assert_eq!(s.phase, Phase::CompanionCheck);
    let list = procs(&[(4, "awcc.exe")]);
    assert!(matches!(s.step(Event::ProcessesListed(list)), Action::RegisterUi));
    assert_eq!(s.phase, Phase::Active);
}

#[test]
fn missing_companion_is_launched_then_ui_runs() {
    let mut f = files(Some("red\nblue\n"), None, Some("C:\\AWCC\\AWCC.exe"));
    f.companion_args = Some("--tray\nhello world\n".to_string());
    let mut s = Supervisor::new("red.exe", 3, &f);
    assert!(matches!(s.step(Event::Start), Action::ListProcesses));
    match s.step(Event::ProcessesListed(procs(&[(3, "red.exe")]))) {
        Action::Terminate(pids) => assert!(pids.is_empty()),
        _ => panic!("expected terminations"),
    }
    assert!(matches!(s.step(Event::Done), Action::ListProcesses));
    match s.step(Event::ProcessesListed(procs(&[(3, "red.exe")]))) {
        Action::Launch { path, params, start_minimized } => {
            assert_eq!(path, "C:\\AWCC\\AWCC.exe");
            assert_eq!(params, "--tray \"hello world\"");
            assert!(start_minimized);
        }
        _ => panic!("expected a launch"),
    }
    assert!(matches!(s.step(Event::Done), Action::RegisterUi));
    assert!(matches!(s.step(Event::UiRegistered(true)), Action::Wait));
    assert!(matches!(s.step(Event::ContextMenuRequested), Action::ShowMenu));
    assert!(matches!(s.step(Event::Other), Action::Wait));
    assert!(matches!(
        s.step(Event::ExitRequested),
        Action::Exit { unregister_ui: true, success: true }
    ));
    assert_eq!(s.phase, Phase::ShuttingDown);
}

#[test]
fn failed_ui_registration_exits_with_failure() {
    let f = files(None, None, None);
    let mut s = Supervisor::new("red.exe", 3, &f);
    assert!(matches!(s.step(Event::Start), Action::RegisterUi));
    assert!(matches!(
        s.step(Event::UiRegistered(false)),
        Action::Exit { unregister_ui: false, success: false }
    ));
}
