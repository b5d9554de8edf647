use dirlist::error::ErrorKind;
use dirlist::home::home_dir;

#[test]
fn posix_signal_wins_over_windows_signal() {
    let r = home_dir(
        Some("/home/alice".to_string()),
        Some("C:\\Users\\alice".to_string()),
    );
    match r {
        Ok(p) => assert_eq!(p, "/home/alice"),
        Err(_) => panic!("expected a resolved home directory"),
    }
}

#[test]
fn windows_signal_used_when_posix_signal_missing() {
    let r = home_dir(None, Some("C:\\Users\\alice".to_string()));
    match r {
        Ok(p) => assert_eq!(p, "C:\\Users\\alice"),
        Err(_) => panic!("expected a resolved home directory"),
    }
}

#[test]
fn empty_posix_signal_falls_back_to_windows_signal() {
    let r = home_dir(Some(String::new()), Some("C:\\Users\\bob".to_string()));
    match r {
        Ok(p) => assert_eq!(p, "C:\\Users\\bob"),
        Err(_) => panic!("expected a resolved home directory"),
    }
}

#[test]
fn missing_both_signals_fails() {
    let r = home_dir(None, None);
    assert!(matches!(r, Err(ErrorKind::EnvironmentUnavailable)));
}

#[test]
fn empty_both_signals_fails() {
    let r = home_dir(Some(String::new()), Some(String::new()));
    assert!(matches!(r, Err(ErrorKind::EnvironmentUnavailable)));
}

#[test]
fn candidate_variable_names_are_the_platform_conventions() {
    assert_eq!(dirlist::home::POSIX_HOME_VAR, "HOME");
    assert_eq!(dirlist::home::WINDOWS_HOME_VAR, "USERPROFILE");
}

#[test]
fn environment_unavailable_message() {
    let r = home_dir(None, None);
    match r {
        Ok(_) => panic!("expected a failure"),
        Err(e) => assert_eq!(e.message(), "could not determine home directory"),
    }
}
