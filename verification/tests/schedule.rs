use edmgutil::cron::{cron_entry, line_is_managed, maintenance_command, rewrite_schedule,
    rewrite_schedule_text};

fn lines(v: &[&str]) -> Vec<String> {
    v.iter().map(|s| s.to_string()).collect()
}

#[test]
fn maintenance_command_shape() {
    let cmd = maintenance_command("/usr/local/bin/edmgutil");
    assert_eq!(cmd.as_str(), "/usr/local/bin/edmgutil eject --expired");
    assert_eq!(cron_entry(cmd.as_str()).as_str(), "0 * * * * /usr/local/bin/edmgutil eject --expired");
}

#[test]
fn managed_line_recognition() {
    let cmd = "/bin/edmgutil eject --expired";
    assert!(line_is_managed("0 * * * * /bin/edmgutil eject --expired", cmd));
    // trailing white space is trimmed before the comparison
    assert!(line_is_managed("0 * * * * /bin/edmgutil eject --expired   ", cmd));
    assert!(!line_is_managed("0 * * * * /bin/other eject --expired-not", cmd));
    assert!(!line_is_managed("# a comment", cmd));
}

#[test]
fn install_appends_once() {
    let cmd = "/bin/edmgutil eject --expired";
    let original = lines(&["# my jobs", "5 4 * * * /bin/backup"]);
    let once = rewrite_schedule(&original, cmd, true);
    assert_eq!(once.len(), 3);
    assert_eq!(once[0].as_str(), "# my jobs");
    assert_eq!(once[1].as_str(), "5 4 * * * /bin/backup");
    assert_eq!(once[2].as_str(), "0 * * * * /bin/edmgutil eject --expired");
    // installing again changes nothing: still exactly one managed line
    let twice = rewrite_schedule(&once, cmd, true);
    assert_eq!(twice.len(), 3);
    for (a, b) in once.iter().zip(twice.iter()) {
        assert_eq!(a, b);
    }
    let managed: Vec<&String> =
        twice.iter().filter(|l| line_is_managed(l.as_str(), cmd)).collect();
    assert_eq!(managed.len(), 1);
}

#[test]
fn uninstall_when_absent_changes_nothing() {
    let cmd = "/bin/edmgutil eject --expired";
    let original = lines(&["# my jobs", "5 4 * * * /bin/backup"]);
    let out = rewrite_schedule(&original, cmd, false);
    assert_eq!(out.len(), original.len());
    for (a, b) in original.iter().zip(out.iter()) {
        assert_eq!(a, b);
    }
}

#[test]
fn install_then_uninstall_restores_original() {
    let cmd = "/bin/edmgutil eject --expired";
    let original = lines(&["MAILTO=nobody", "@daily /bin/clean"]);
    let installed = rewrite_schedule(&original, cmd, true);
    let restored = rewrite_schedule(&installed, cmd, false);
    assert_eq!(restored.len(), original.len());
    for (a, b) in original.iter().zip(restored.iter()) {
        assert_eq!(a, b);
    }
}

#[test]
fn uninstall_removes_every_managed_line() {
    let cmd = "/bin/edmgutil eject --expired";
    let original = lines(&[
        "0 * * * * /bin/edmgutil eject --expired",
        "# keep me",
        "30 2 * * * /bin/edmgutil eject --expired  ",
    ]);
    let out = rewrite_schedule(&original, cmd, false);
    assert_eq!(out.len(), 1);
    assert_eq!(out[0].as_str(), "# keep me");
}

#[test]
fn text_level_rewrite() {
    let cmd = "/bin/edmgutil eject --expired";
    let content = "# jobs\n5 4 * * * /bin/backup\n";
    let installed = rewrite_schedule_text(content, cmd, true);
    assert_eq!(
        installed.as_str(),
        "# jobs\n5 4 * * * /bin/backup\n0 * * * * /bin/edmgutil eject --expired\n",
    );
    let removed = rewrite_schedule_text(installed.as_str(), cmd, false);
    assert_eq!(removed.as_str(), content);
}
