use curator::conduct::Conduct;
use curator::config::{ConfigError, ConfigManager, WorkingDirectory};
use curator::data::ProjectData;
use curator::fetch::{FetchError, Fetched};
use curator::license::{CatalogError, LicenseError, LicenseManager, TreeItem};
use curator::resolver::{Action, Event, Request, ResolveError, Resolver};

fn cwd() -> WorkingDirectory {
    WorkingDirectory { path: "/home/ada/engine".to_string(), name: "engine".to_string() }
}

fn item(path: &str, kind: &str) -> TreeItem {
    TreeItem { path: path.to_string(), item_type: kind.to_string() }
}

fn tree() -> Vec<TreeItem> {
    vec![item("Apache-2.0.txt", "blob"), item("MIT.txt", "blob"), item("meta", "tree")]
}

fn initial_document() -> String {
    ConfigManager::init_config(
        "Ada Lovelace".to_string(),
        "MIT".to_string(),
        2024,
        &cwd(),
        "n",
        None,
    )
    .document
}

fn bare_document() -> String {
    r#"{"settings": {"project": "engine", "path": "/home/ada/engine", "author": "Ada"}}"#
        .to_string()
}

fn answers(pairs: &[(&str, &str)]) -> ProjectData {
    let mut data = ProjectData::new();
    for (key, value) in pairs {
        data.insert(key.to_string(), value.to_string());
    }
    data
}

fn reply(body: &str) -> Event {
    Event::Reply(Fetched::Reply { status: 200, body: body.to_string() })
}

#[test]
fn start_asks_for_the_configuration() {
    let (state, action) = Resolver::start(Request::ReloadLicense, cwd());
    assert!(matches!(state, Resolver::Start { .. }));
    assert!(matches!(action, Action::ReadConfig));
    assert!(!state.is_done());
}

#[test]
fn missing_configuration_rejects_the_request() {
    let mut catalog = LicenseManager::new();
    let (state, _) = Resolver::start(Request::SetLicense("mit".to_string()), cwd());
    let (state, action) = state.step(Event::Config(None), &mut catalog);
    assert!(matches!(state, Resolver::Rejected));
    assert!(matches!(action, Action::Reject(ConfigError::Missing)));
    assert!(state.is_done());
}

#[test]
fn moved_configuration_rejects_the_request() {
    let mut catalog = LicenseManager::new();
    let elsewhere = WorkingDirectory { path: "/tmp/engine".to_string(), name: "engine".to_string() };
    let (state, _) = Resolver::start(Request::SetConduct(Conduct::Django), elsewhere);
    let (state, action) = state.step(Event::Config(Some(initial_document())), &mut catalog);
    assert!(matches!(state, Resolver::Rejected));
    assert!(matches!(action, Action::Reject(ConfigError::IdentityMismatch)));
}

#[test]
fn broken_configuration_rejects_the_request() {
    let mut catalog = LicenseManager::new();
    let (state, _) = Resolver::start(Request::ReloadLicense, cwd());
    let (state, action) = state.step(Event::Config(Some("{".to_string())), &mut catalog);
    assert!(matches!(state, Resolver::Rejected));
    assert!(matches!(action, Action::Reject(ConfigError::Corrupt)));
}

#[test]
fn license_from_start_to_saved() {
    let mut catalog = LicenseManager::new();
    let (state, action) = Resolver::start(Request::SetLicense("mit".to_string()), cwd());
    assert!(matches!(action, Action::ReadConfig));

    let (state, action) = state.step(Event::Config(Some(bare_document())), &mut catalog);
    assert!(matches!(state, Resolver::Loaded { .. }));
    assert!(matches!(action, Action::FetchListing));

    let (state, action) = state.step(Event::Listing(Some(tree())), &mut catalog);
    assert!(matches!(state, Resolver::CatalogResolved { .. }));
    match action {
        Action::Download { url, store } => {
            assert_eq!(
                url,
                "https://raw.githubusercontent.com/spdx/license-list-data/main/text/MIT.txt"
            );
            let stored = ConfigManager::load_config(Some(&store.unwrap()), &cwd()).unwrap();
            assert_eq!(stored.data.get("license"), Some(&"MIT".to_string()));
        },
        other => panic!("{:?}", other),
    }

    let text = "MIT License\n\nCopyright (c) <year> <author>\n\nPermission is hereby granted";
    let (state, action) = state.step(reply(text), &mut catalog);
    assert!(matches!(state, Resolver::TextFetched { .. }));
    match action {
        Action::Ask(names) => assert_eq!(names, vec!["year".to_string(), "author".to_string()]),
        other => panic!("{:?}", other),
    }

    let given = answers(&[("year", "2024"), ("author", "Ada Lovelace")]);
    let (state, action) = state.step(Event::Answers(given), &mut catalog);
    assert!(matches!(state, Resolver::Substituted));
    match action {
        Action::Write { file, text, config_text, note } => {
            assert_eq!(file, "LICENSE");
            assert_eq!(
                text,
                "MIT License\n\nCopyright (c) 2024 Ada Lovelace\n\nPermission is hereby granted"
            );
            assert!(!text.contains('<') && !text.contains('>'));
            assert_eq!(note, None);
            let stored = ConfigManager::load_config(Some(&config_text), &cwd()).unwrap();
            assert_eq!(stored.data.get("license"), Some(&"MIT".to_string()));
            assert_eq!(stored.data.get("year"), Some(&"2024".to_string()));
            assert_eq!(stored.data.get("author"), Some(&"Ada Lovelace".to_string()));
            assert_eq!(stored.data.pairs().len(), 3);
        },
        other => panic!("{:?}", other),
    }

    let (state, action) = state.step(Event::Written, &mut catalog);
    assert!(matches!(state, Resolver::Saved));
    assert!(matches!(action, Action::Done));
    assert!(state.is_done());
}

#[test]
fn after_initialization_only_unknown_fields_are_asked() {
    let mut catalog = LicenseManager::new();
    let (state, _) = Resolver::start(Request::SetLicense("MIT".to_string()), cwd());
    let (state, _) = state.step(Event::Config(Some(initial_document())), &mut catalog);
    let (state, _) = state.step(Event::Listing(Some(tree())), &mut catalog);
    let (state, action) = state.step(reply("(c) <year> <author> <year>"), &mut catalog);
    match action {
        Action::Ask(names) => assert_eq!(names, vec!["author".to_string()]),
        other => panic!("{:?}", other),
    }
    let (_, action) = state.step(Event::Answers(answers(&[("author", "Ada")])), &mut catalog);
    match action {
        Action::Write { text, .. } => assert_eq!(text, "(c) 2024 Ada 2024"),
        other => panic!("{:?}", other),
    }
}

#[test]
fn kept_listing_is_not_fetched_again() {
    let mut catalog = LicenseManager::new();
    catalog.get_licenses(Some(tree())).unwrap();
    let (state, _) = Resolver::start(Request::SetLicense("apache-2.0".to_string()), cwd());
    let (state, action) = state.step(Event::Config(Some(initial_document())), &mut catalog);
    assert!(matches!(state, Resolver::CatalogResolved { .. }));
    match action {
        Action::Download { url, store } => {
            assert!(url.ends_with("/Apache-2.0.txt"));
            assert!(store.is_some());
        },
        other => panic!("{:?}", other),
    }
}

#[test]
fn unknown_license_ends_with_suggestions() {
    let mut catalog = LicenseManager::new();
    let (state, _) = Resolver::start(Request::SetLicense("mi".to_string()), cwd());
    let (state, _) = state.step(Event::Config(Some(initial_document())), &mut catalog);
    let (state, action) = state.step(Event::Listing(Some(tree())), &mut catalog);
    assert!(matches!(state, Resolver::Suggested));
    assert!(state.is_done());
    match action {
        Action::Suggest(closest) => {
            assert_eq!(closest.len(), 1);
            assert_eq!(closest[0].0, "mit.txt");
        },
        other => panic!("{:?}", other),
    }
}

#[test]
fn listing_that_cannot_be_had_fails_the_request() {
    let mut catalog = LicenseManager::new();
    let (state, _) = Resolver::start(Request::SetLicense("mit".to_string()), cwd());
    let (state, _) = state.step(Event::Config(Some(initial_document())), &mut catalog);
    let (state, action) = state.step(Event::Listing(None), &mut catalog);
    assert!(matches!(state, Resolver::Failed));
    assert!(matches!(action, Action::Fail(ResolveError::Catalog(CatalogError::Unavailable))));
    assert!(catalog.needs_listing());
}

#[test]
fn reload_uses_the_recorded_license() {
    let mut catalog = LicenseManager::new();
    let (state, _) = Resolver::start(Request::ReloadLicense, cwd());
    let (state, action) = state.step(Event::Config(Some(initial_document())), &mut catalog);
    match action {
        Action::Download { url, store } => {
            assert!(url.ends_with("/text/MIT.txt"));
            assert_eq!(store, None);
        },
        other => panic!("{:?}", other),
    }
    let (state, action) = state.step(reply("Year <year>, see <http://x.y>"), &mut catalog);
    assert!(matches!(state, Resolver::Substituted));
    match action {
        Action::Write { file, text, .. } => {
            assert_eq!(file, "LICENSE");
            assert_eq!(text, "Year 2024, see http://x.y");
        },
        other => panic!("{:?}", other),
    }
    assert!(catalog.needs_listing());
}

#[test]
fn reload_without_license_fails() {
    let mut catalog = LicenseManager::new();
    let (state, _) = Resolver::start(Request::ReloadLicense, cwd());
    let (state, action) = state.step(Event::Config(Some(bare_document())), &mut catalog);
    assert!(matches!(state, Resolver::Failed));
    assert!(matches!(action, Action::Fail(ResolveError::License(LicenseError::NoneConfigured))));
}

#[test]
fn conduct_is_recorded_with_its_note() {
    let mut catalog = LicenseManager::new();
    let (state, _) = Resolver::start(Request::SetConduct(Conduct::Citizen), cwd());
    let (state, action) = state.step(Event::Config(Some(initial_document())), &mut catalog);
    match action {
        Action::Download { url, store } => {
            assert!(url.ends_with("/templates/citizen.md"));
            assert_eq!(store, None);
        },
        other => panic!("{:?}", other),
    }
    let (state, action) = state.step(reply("Contact <CONTACT METHOD>"), &mut catalog);
    match action {
        Action::Ask(names) => assert_eq!(names, vec!["CONTACT METHOD".to_string()]),
        other => panic!("{:?}", other),
    }
    let given = answers(&[("CONTACT METHOD", "ada@example.org")]);
    let (_, action) = state.step(Event::Answers(given), &mut catalog);
    match action {
        Action::Write { file, text, config_text, note } => {
            assert_eq!(file, "CODE_OF_CONDUCT.md");
            assert_eq!(text, "Contact ada@example.org");
            assert!(note.unwrap().starts_with("NOTE: "));
            let stored = ConfigManager::load_config(Some(&config_text), &cwd()).unwrap();
            assert_eq!(stored.data.get("conduct"), Some(&"citizen".to_string()));
            assert_eq!(stored.data.get("CONTACT METHOD"), Some(&"ada@example.org".to_string()));
        },
        other => panic!("{:?}", other),
    }
}

#[test]
fn refused_download_fails_the_request() {
    let mut catalog = LicenseManager::new();
    let (state, _) = Resolver::start(Request::SetConduct(Conduct::Django), cwd());
    let (state, _) = state.step(Event::Config(Some(initial_document())), &mut catalog);
    let refused = Event::Reply(Fetched::Reply { status: 404, body: String::new() });
    let (state, action) = state.step(refused, &mut catalog);
    assert!(matches!(state, Resolver::Failed));
    match action {
        Action::Fail(ResolveError::Fetch(FetchError::TemplateNotFound {
            identifier,
            status,
            reason,
        })) => {
            assert_eq!(identifier, "django");
            assert_eq!(status, 404);
            assert_eq!(reason, "Not Found");
        },
        other => panic!("{:?}", other),
    }
}

#[test]
fn network_failure_fails_the_request() {
    let mut catalog = LicenseManager::new();
    let (state, _) = Resolver::start(Request::ReloadLicense, cwd());
    let (state, _) = state.step(Event::Config(Some(initial_document())), &mut catalog);
    let down = Event::Reply(Fetched::Failed { detail: "timed out".to_string() });
    let (state, action) = state.step(down, &mut catalog);
    assert!(matches!(state, Resolver::Failed));
    assert!(matches!(action, Action::Fail(ResolveError::Fetch(FetchError::Network { .. }))));
}

#[test]
fn write_failure_fails_the_request() {
    let mut catalog = LicenseManager::new();
    let (state, _) = Resolver::start(Request::ReloadLicense, cwd());
    let (state, _) = state.step(Event::Config(Some(initial_document())), &mut catalog);
    let (state, _) = state.step(reply("plain"), &mut catalog);
    let (state, action) = state.step(Event::WriteFailed("disk full".to_string()), &mut catalog);
    assert!(matches!(state, Resolver::Failed));
    match action {
        Action::Fail(ResolveError::FileWrite(cause)) => assert_eq!(cause, "disk full"),
        other => panic!("{:?}", other),
    }
}

#[test]
fn events_out_of_turn_fail_the_request() {
    let mut catalog = LicenseManager::new();
    let (state, _) = Resolver::start(Request::ReloadLicense, cwd());
    let (state, action) = state.step(Event::Written, &mut catalog);
    assert!(matches!(state, Resolver::Failed));
    assert!(matches!(action, Action::Fail(ResolveError::OutOfTurn)));
    let (state, action) = state.step(Event::Config(None), &mut catalog);
    assert!(matches!(state, Resolver::Failed));
    assert!(matches!(action, Action::Fail(ResolveError::OutOfTurn)));
    let (state, action) = Resolver::Saved.step(Event::Written, &mut catalog);
    assert!(matches!(state, Resolver::Failed));
    assert!(matches!(action, Action::Fail(ResolveError::OutOfTurn)));
}
