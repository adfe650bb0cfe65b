use nebula_cli::config::Config;
use nebula_cli::installer::{
    context_menu_command, default_install_path, path_with_entry, shortcut_script, Installer,
    InstallerEvent, InstallerStep,
};
use nebula_cli::text::{contains_str, decimal_string, is_blank, lines_of, signed_decimal_string, strip_prefix_all, trim};

#[test]
fn config_load_trims_or_defaults() {
    assert_eq!(Config::load(Some("  alice \n".to_string())).username, "alice");
    assert_eq!(Config::load(Some(" \t\n".to_string())).username, "user");
    assert_eq!(Config::load(None).username, "user");
    assert!(Config::load(None).needs_username());
    assert!(!Config::load(Some("bob".to_string())).needs_username());
}

#[test]
fn prompt_answer() {
    assert_eq!(Config::prompt_for_username(Some(" carol\n".to_string())), Some("carol".to_string()));
    assert_eq!(Config::prompt_for_username(Some("\n".to_string())), Some("user".to_string()));
    assert_eq!(Config::prompt_for_username(None), None);
}

#[test]
fn stored_name_round_trips() {
    for stored in [Some("  dave  ".to_string()), Some("   ".to_string()), None] {
        let first = Config::load_username(stored);
        let again = Config::load_username(Some(first.clone()));
        assert_eq!(first, again);
        assert!(!first.is_empty());
    }
}

#[test]
fn wizard_steps() {
    let mut w = Installer::new("".to_string(), "C:\\NebulaCLI".to_string());
    assert_eq!(w.step, InstallerStep::Welcome);
    w.apply(InstallerEvent::Next);
    assert_eq!(w.step, InstallerStep::Welcome);
    w.apply(InstallerEvent::GetStarted);
    assert_eq!(w.step, InstallerStep::UserDetails);
    w.apply(InstallerEvent::Next);
    assert_eq!(w.step, InstallerStep::UserDetails);
    assert_eq!(w.status_message, "Username cannot be empty!");
    w.username = "eve".to_string();
    w.apply(InstallerEvent::Next);
    assert_eq!(w.step, InstallerStep::InstallPath);
    assert_eq!(w.status_message, "");
    w.apply(InstallerEvent::PathPicked("D:\\Apps".to_string()));
    assert_eq!(w.install_path, "D:\\Apps");
    w.apply(InstallerEvent::Back);
    assert_eq!(w.step, InstallerStep::UserDetails);
    w.apply(InstallerEvent::Next);
    w.apply(InstallerEvent::InstallNow);
    assert_eq!(w.step, InstallerStep::Installing);
    w.apply(InstallerEvent::Installed(Err("disk full".to_string())));
    assert_eq!(w.step, InstallerStep::Installing);
    assert_eq!(w.status_message, "Error: disk full");
    w.apply(InstallerEvent::Installed(Ok(())));
    assert_eq!(w.step, InstallerStep::Finished);
    assert!(w.installation_complete);
    assert_eq!(w.status_message, "");
    w.apply(InstallerEvent::Back);
    assert_eq!(w.step, InstallerStep::Finished);
}

#[test]
fn finished_install_is_never_undone() {
    let mut w = Installer::new("eve".to_string(), "C:\\NebulaCLI".to_string());
    // An installation reported before the installing page changes nothing.
    w.apply(InstallerEvent::Installed(Ok(())));
    assert!(!w.installation_complete);
    assert_eq!(w.step, InstallerStep::Welcome);
    for e in [InstallerEvent::GetStarted, InstallerEvent::Next, InstallerEvent::InstallNow] {
        w.apply(e);
    }
    assert_eq!(w.step, InstallerStep::Installing);
    w.apply(InstallerEvent::Installed(Ok(())));
    assert!(w.installation_complete);
    assert_eq!(w.step, InstallerStep::Finished);
    let later = vec![
        InstallerEvent::Installed(Err("late".to_string())),
        InstallerEvent::Back,
        InstallerEvent::GetStarted,
        InstallerEvent::Next,
        InstallerEvent::InstallNow,
        InstallerEvent::PathPicked("D:\\Other".to_string()),
        InstallerEvent::Installed(Ok(())),
    ];
    for e in later {
        w.apply(e);
        assert!(w.installation_complete);
        assert_eq!(w.step, InstallerStep::Finished);
        assert_eq!(w.install_path, "C:\\NebulaCLI");
        assert_eq!(w.status_message, "");
    }
}

#[test]
fn user_path_entry() {
    assert_eq!(path_with_entry("C:\\a;C:\\b", "C:\\n"), Some("C:\\a;C:\\b;C:\\n".to_string()));
    assert_eq!(path_with_entry("C:\\a;", "C:\\n"), Some("C:\\a;C:\\n".to_string()));
    assert_eq!(path_with_entry("", "C:\\n"), Some(";C:\\n".to_string()));
    assert_eq!(path_with_entry("C:\\a;C:\\n\\bin", "C:\\n"), None);
    let once = path_with_entry("X", "Y").unwrap();
    assert_eq!(path_with_entry(&once, "Y"), None);
}

#[test]
fn shortcut_and_context_menu_text() {
    assert_eq!(
        shortcut_script("L.lnk", "T.exe", "D"),
        "$s=(New-Object -COM WScript.Shell).CreateShortcut('L.lnk');$s.TargetPath='T.exe';$s.WorkingDirectory='D';$s.Save()"
    );
    assert_eq!(context_menu_command("C:\\x.exe"), "\"C:\\x.exe\"");
    assert_eq!(default_install_path(None), "C:\\NebulaCLI");
    let sep = std::path::MAIN_SEPARATOR;
    assert_eq!(default_install_path(Some("/d".to_string())), format!("/d{}NebulaCLI", sep));
    assert_eq!(default_install_path(Some("/d/".to_string())), "/d/NebulaCLI");
    assert_eq!(default_install_path(Some(String::new())), "NebulaCLI");
}

#[test]
fn text_helpers() {
    assert_eq!(trim("\u{3000} a b \u{85}"), "a b");
    assert!(is_blank(" \t\u{2028}"));
    assert!(!is_blank(" x "));
    assert_eq!(strip_prefix_all("cd cd x", "cd "), "x");
    assert_eq!(strip_prefix_all("abc", ""), "abc");
    assert_eq!(lines_of("a\r\nb\n\nc\r"), vec!["a", "b", "", "c\r"]);
    assert_eq!(lines_of(""), Vec::<String>::new());
    assert_eq!(lines_of("\n"), vec![""]);
    assert_eq!(decimal_string(0), "0");
    assert_eq!(decimal_string(1234567890), "1234567890");
    assert_eq!(signed_decimal_string(-42), "-42");
    assert_eq!(signed_decimal_string(i64::MIN), "-9223372036854775808");
    assert!(contains_str("abcabd", "abd"));
    assert!(!contains_str("abc", "abcd"));
    assert!(contains_str("abc", ""));
}

#[test]
fn trim_twice_is_trim_once() {
    for t in ["  a b  ", "", "\t\n", "x"] {
        let once = trim(t);
        assert_eq!(trim(&once), once);
    }
}
