//! Loading the user's files.

use redoubtful::config::config_file::ConfigFile;
use redoubtful::config::load::{load_or_init, LoadEvent, LoadStep, UserFile};
use redoubtful::errors::Error;

const PATH: &[u8] = b"/home/u/.config/redoubtful/config.toml";

fn read(source: &str) -> LoadEvent {
    LoadEvent::Read { source: source.to_owned() }
}

/// Load a file from a disk that holds `content`, or nothing, and return what
/// is parsed and what the disk holds then.
fn load(content: Option<&str>, default: &str) -> (String, String) {
    let mut disk: Option<String> = content.map(|c| c.to_owned());
    let mut event = match &disk {
        Some(source) => read(source),
        None => LoadEvent::Missing,
    };
    loop {
        event = match ConfigFile::load_or_init(PATH, event) {
            LoadStep::WriteDefault => {
                disk = Some(default.to_owned());
                LoadEvent::Written
            }
            LoadStep::ReadBack => read(disk.as_deref().expect("written")),
            LoadStep::Parse(source) => return (source, disk.expect("there")),
            LoadStep::Fail(e) => panic!("loads: {e:?}"),
        };
    }
}

#[test]
fn load_or_init_writes_default_when_missing() {
    let (parsed, disk) = load(None, "[profile.opencode]\n");
    assert_eq!(parsed, "[profile.opencode]\n");
    assert_eq!(disk, "[profile.opencode]\n");
}

#[test]
fn load_or_init_does_not_overwrite_existing_file() {
    for content in ["[profile.mine]\n", "", "# only a comment\n"] {
        let (parsed, disk) = load(Some(content), "[profile.opencode]\n");
        assert_eq!(parsed, content);
        assert_eq!(disk, content);
    }
}

#[test]
fn load_failures_say_what_was_tried() {
    let reason = || "denied".to_owned();
    let fail = |file: UserFile, event: LoadEvent| match load_or_init(file, PATH, event) {
        LoadStep::Fail(e) => e,
        _ => panic!("must fail"),
    };
    assert!(matches!(
        fail(UserFile::Config, LoadEvent::Unreadable { reason: reason() }),
        Error::CouldNotReadConfig { path, source } if path == PATH && source == "denied"
    ));
    assert!(matches!(
        fail(UserFile::Config, LoadEvent::NotWritten { reason: reason() }),
        Error::CouldNotWriteConfig { source, .. } if source == "denied"
    ));
    assert!(matches!(
        fail(UserFile::Config, LoadEvent::NotReadBack { reason: reason() }),
        Error::CouldNotReadConfig { .. }
    ));
    assert!(matches!(
        fail(UserFile::Secrets, LoadEvent::Unreadable { reason: reason() }),
        Error::CouldNotReadSecrets { .. }
    ));
    assert!(matches!(
        fail(UserFile::Secrets, LoadEvent::NotWritten { reason: reason() }),
        Error::CouldNotWriteSecrets { .. }
    ));
}
