use marchiver::command::{matches_single_flag, root_help, startup, Startup};

fn arguments(rest: &[&str]) -> Vec<Option<String>> {
    let mut arguments = vec![Some("marchiver".to_owned())];
    arguments.extend(rest.iter().map(|argument| Some(argument.to_string())));
    arguments
}

#[test]
fn default_and_help_flags_print_usage() {
    for rest in [vec![], vec!["--help"], vec!["-h"]] {
        assert_eq!(startup(&arguments(&rest)), Startup::Help);
    }
    let text = root_help("1.2.3");
    assert!(text.starts_with("marchiver 1.2.3\n\n"));
    assert!(text.contains("Usage:\n  marchiver [OPTIONS]"));
    assert!(text.contains("marchiver <COMMAND>"));
    for command in ["inspect", "plan", "apply", "verify", "restore"] {
        assert!(text.contains(&format!("\n  {command} ")));
    }
    assert!(text.ends_with("-V, --version    Print version"));
}

#[test]
fn version_flags_print_package_version() {
    for rest in [vec!["--version"], vec!["-V"]] {
        assert_eq!(startup(&arguments(&rest)), Startup::Version);
    }
}

#[test]
fn unknown_or_extra_arguments_fail_with_usage_hint() {
    assert_eq!(startup(&arguments(&["--unknown"])), Startup::Command);
    assert_eq!(startup(&arguments(&["--help", "extra"])), Startup::Unknown);
    assert_eq!(startup(&arguments(&["-V", "extra"])), Startup::Unknown);
    assert_eq!(startup(&arguments(&["inspect", "--help"])), Startup::Command);
    assert_eq!(startup(&Vec::new()), Startup::Command);
    assert_eq!(
        startup(&vec![Some("marchiver".to_owned()), None]),
        Startup::Command
    );
}

#[test]
fn single_flags_stand_alone() {
    assert!(matches_single_flag(&arguments(&["-h"]), "-h", "--help"));
    assert!(matches_single_flag(&arguments(&["--help"]), "-h", "--help"));
    assert!(!matches_single_flag(&arguments(&["-V"]), "-h", "--help"));
    assert!(!matches_single_flag(&arguments(&["-h", "-h"]), "-h", "--help"));
    assert!(!matches_single_flag(&arguments(&[]), "-h", "--help"));
}
