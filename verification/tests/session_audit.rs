use edmgutil::cli::{Commands, ImageOptions, ImportCommand, ListCommand, NewCommand};
use edmgutil::audit::{find_downloads, DownloadEntry};
use edmgutil::session::{choose_password_source, choose_volume_name, import_command, new_command,
    PasswordSource, SessionError};

fn opts(password: Option<&str>, keep: bool, name: Option<&str>) -> ImageOptions {
    ImageOptions {
        days: 7,
        volume_name: name.map(|s| s.to_string()),
        keep_dmg: keep,
        password: password.map(|s| s.to_string()),
    }
}

#[test]
fn command_carries_its_arguments() {
    let cmd = Commands::List(ListCommand { verbose: true });
    match cmd {
        Commands::List(args) => assert!(args.verbose),
        _ => panic!("wrong command"),
    }
}

#[test]
fn password_policy() {
    assert_eq!(choose_password_source(true, false, false), PasswordSource::Explicit);
    assert_eq!(choose_password_source(true, true, true), PasswordSource::Explicit);
    assert_eq!(choose_password_source(false, false, false), PasswordSource::Generated);
    assert_eq!(choose_password_source(false, true, false), PasswordSource::Prompt);
    assert_eq!(choose_password_source(false, false, true), PasswordSource::Prompt);
}

#[test]
fn volume_name_policy() {
    let explicit = Some("Chosen".to_string());
    let stem = Some("archive".to_string());
    assert_eq!(choose_volume_name(&explicit, &stem).as_str(), "Chosen");
    assert_eq!(choose_volume_name(&None, &stem).as_str(), "archive");
    assert_eq!(choose_volume_name(&None, &None).as_str(), "EncryptedScratchpad");
}

#[test]
fn new_scratch_volume_generates_password() {
    let args = NewCommand { image_opts: opts(None, false, None), size: 100 };
    let pending = new_command(&args, None).unwrap();
    assert_eq!(pending.password.len(), 32);
    assert_eq!(pending.volume_name.as_str(), "EncryptedScratchpad");
    assert!(pending.container_file.starts_with("encrypted-"));
    assert!(pending.container_file.ends_with("-EncryptedScratchpad.dmg"));
    assert_eq!(pending.size, 100);
    assert_eq!(pending.days, 7);
    assert!(!pending.keep_dmg);
    assert!(pending.archive.is_none());
}

#[test]
fn new_retained_volume_needs_a_password() {
    let args = NewCommand { image_opts: opts(None, true, None), size: 50 };
    assert_eq!(new_command(&args, None).unwrap_err(), SessionError::PasswordRequired);
    let prompted = new_command(&args, Some("hunter2".to_string())).unwrap();
    assert_eq!(prompted.password.as_str(), "hunter2");
    let explicit_args = NewCommand { image_opts: opts(Some("sesame"), true, None), size: 50 };
    let explicit = new_command(&explicit_args, None).unwrap();
    assert_eq!(explicit.password.as_str(), "sesame");
}

#[test]
fn import_names_and_sizes_the_volume() {
    let args = ImportCommand {
        image_opts: opts(Some("pw"), false, None),
        extra_size: 100,
        path: "files.zip".to_string(),
    };
    let pending = import_command(
        &args,
        "/home/me/files.zip".to_string(),
        true,
        204_800,
        Some("files".to_string()),
        None,
    )
    .unwrap();
    // uncompressed size in whole storage units, plus the margin
    assert_eq!(pending.size, 204_800 / 1024 + 1 + 100);
    assert_eq!(pending.volume_name.as_str(), "files");
    assert_eq!(pending.archive.as_deref(), Some("/home/me/files.zip"));
}

#[test]
fn import_rejects_non_files_and_missing_passwords() {
    let args = ImportCommand {
        image_opts: opts(None, false, None),
        extra_size: 100,
        path: "dir".to_string(),
    };
    let not_file = import_command(&args, "/home/me/dir".to_string(), false, 0, None, None);
    assert_eq!(not_file.unwrap_err(), SessionError::SourceNotAFile);
    assert_eq!(
        SessionError::SourceNotAFile.message().as_str(),
        "source archive is not a file",
    );
    // an import never generates a password: it must be given or prompted
    let no_password = import_command(&args, "/home/me/dir".to_string(), true, 0, None, None);
    assert_eq!(no_password.unwrap_err(), SessionError::PasswordRequired);
    let prompted = import_command(
        &args,
        "/home/me/dir".to_string(),
        true,
        0,
        None,
        Some("hunter2".to_string()),
    )
    .unwrap();
    assert_eq!(prompted.password.as_str(), "hunter2");
}

fn url_plist(urls: &[&str]) -> Vec<u8> {
    let mut body = String::new();
    for u in urls {
        body.push_str("<string>");
        body.push_str(u);
        body.push_str("</string>");
    }
    format!(
        "<?xml version=\"1.0\" encoding=\"UTF-8\"?>\
         <!DOCTYPE plist PUBLIC \"-//Apple//DTD PLIST 1.0//EN\" \
         \"http://www.apple.com/DTDs/PropertyList-1.0.dtd\">\
         <plist version=\"1.0\"><array>{}</array></plist>",
        body,
    )
    .into_bytes()
}

fn entry(name: &str, age_ok: bool, urls: Option<&[&str]>) -> DownloadEntry {
    DownloadEntry {
        name: name.to_string(),
        path: format!("/Downloads/{}", name),
        age_ok,
        origin_data: urls.map(url_plist),
    }
}

#[test]
fn audit_filters_by_domain_and_sorts_by_name() {
    let entries = vec![
        entry("zz-match.bin", true, Some(&["https://downloads.sentry.io/x"])),
        entry("other.bin", true, Some(&["https://other.com/y"])),
        entry("aa-match.bin", true, Some(&["https://sentry.io/z"])),
        entry("no-metadata.bin", true, None),
    ];
    let domains = vec!["*.sentry.io".to_string()];
    let records = find_downloads(&entries, &domains);
    assert_eq!(records.len(), 2);
    // ordered by file name, not by directory order
    assert_eq!(records[0].name.as_str(), "aa-match.bin");
    assert_eq!(records[0].path.as_str(), "/Downloads/aa-match.bin");
    assert_eq!(records[0].source.as_str(), "https://sentry.io/z");
    assert_eq!(records[1].name.as_str(), "zz-match.bin");
    assert_eq!(records[1].source.as_str(), "https://downloads.sentry.io/x");
}

#[test]
fn audit_takes_first_parsed_matching_url() {
    let entries = vec![entry(
        "mixed.bin",
        true,
        Some(&["not a url", "https://other.com/1", "https://sentry.io/2", "https://sentry.io/3"]),
    )];
    let domains = vec!["*.sentry.io".to_string()];
    let records = find_downloads(&entries, &domains);
    assert_eq!(records.len(), 1);
    assert_eq!(records[0].source.as_str(), "https://sentry.io/2");
}

#[test]
fn audit_empty_filter_matches_any_origin() {
    let entries = vec![
        entry("a.bin", true, Some(&["https://other.com/y"])),
        entry("b.bin", true, Some(&["not a url"])),
    ];
    let records = find_downloads(&entries, &Vec::new());
    assert_eq!(records.len(), 1);
    assert_eq!(records[0].name.as_str(), "a.bin");
}

#[test]
fn audit_age_cutoff_excludes_young_files() {
    let entries = vec![
        entry("young.bin", false, Some(&["https://sentry.io/x"])),
        entry("old.bin", true, Some(&["https://sentry.io/x"])),
    ];
    let domains = vec!["*.sentry.io".to_string()];
    let records = find_downloads(&entries, &domains);
    assert_eq!(records.len(), 1);
    assert_eq!(records[0].name.as_str(), "old.bin");
}
