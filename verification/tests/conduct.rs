use curator::conduct::{Conduct, ConductManager, CONDUCT_FILE};
use curator::config::{Configuration, ProjectIdentity};
use curator::data::ProjectData;
use curator::fetch::{FetchError, Fetched};
use curator::files::{Notice, Removal};

fn config() -> Configuration {
    Configuration {
        settings: ProjectIdentity {
            project: "engine".to_string(),
            path: "/home/ada/engine".to_string(),
            author: "Ada".to_string(),
        },
        data: ProjectData::new(),
    }
}

#[test]
fn file_name() {
    assert_eq!(CONDUCT_FILE, "CODE_OF_CONDUCT.md");
}

#[test]
fn pick_reads_one_two_three() {
    assert_eq!(ConductManager::pick("1"), Some(Conduct::ContributorCovenant));
    assert_eq!(ConductManager::pick("2"), Some(Conduct::Django));
    assert_eq!(ConductManager::pick("3"), Some(Conduct::Citizen));
    assert_eq!(ConductManager::pick("  2\t\n"), Some(Conduct::Django));
}

#[test]
fn pick_refuses_anything_else() {
    for answer in ["", " ", "0", "4", "12", "1 2", "one", "１", "1.", "-1"] {
        assert_eq!(ConductManager::pick(answer), None);
    }
}

#[test]
fn titles_and_slugs() {
    let all = [Conduct::ContributorCovenant, Conduct::Django, Conduct::Citizen];
    let titles = ["Contributor Covenant", "Django", "Citizen"];
    let slugs = ["contributor-covenant", "django", "citizen"];
    for i in 0..3 {
        assert_eq!(all[i].title(), titles[i]);
        assert_eq!(all[i].slug(), slugs[i]);
        assert_eq!(all[i].slug(), titles[i].to_lowercase().replace(" ", "-"));
    }
}

#[test]
fn conduct_url_follows_the_upstream_layout() {
    assert_eq!(
        ConductManager::conduct_url("contributor-covenant"),
        "https://raw.githubusercontent.com/Saturnyx/curator/refs/heads/main/templates/contributor-covenant.md"
    );
}

#[test]
fn set_conduct_records_the_slug() {
    let mut cfg = config();
    assert_eq!(ConductManager::set_conduct(Conduct::ContributorCovenant, &mut cfg), None);
    assert_eq!(cfg.data.get("conduct"), Some(&"contributor-covenant".to_string()));
    assert_eq!(ConductManager::set_conduct(Conduct::Django, &mut cfg), None);
    assert_eq!(cfg.data.get("conduct"), Some(&"django".to_string()));
    assert_eq!(cfg.data.pairs().len(), 1);
}

#[test]
fn citizen_comes_with_a_note() {
    let mut cfg = config();
    let note = ConductManager::set_conduct(Conduct::Citizen, &mut cfg).unwrap();
    assert!(note.starts_with("NOTE: Every organization's governing policies"));
    assert!(note.ends_with("a mechanism for addressing grievances."));
    assert_eq!(cfg.data.get("conduct"), Some(&"citizen".to_string()));
}

#[test]
fn download_conduct_gives_the_body_or_the_error() {
    let ok = Fetched::Reply { status: 200, body: "# Code".to_string() };
    assert_eq!(ConductManager::download_conduct("django", ok).unwrap(), "# Code");
    let gone = Fetched::Reply { status: 410, body: String::new() };
    let error = ConductManager::download_conduct("django", gone).unwrap_err();
    assert_eq!(error.message(""), "Failed to download 'django': HTTP 410 - Gone");
}

#[test]
fn preview_shows_the_text_as_it_came() {
    let ok = Fetched::Reply { status: 200, body: "Contact <email>".to_string() };
    assert_eq!(ConductManager::preview_conduct(Conduct::Citizen, ok).unwrap(), "Contact <email>");
}

#[test]
fn preview_error_names_the_title() {
    let missing = Fetched::Reply { status: 404, body: String::new() };
    let error =
        ConductManager::preview_conduct(Conduct::ContributorCovenant, missing).unwrap_err();
    assert_eq!(
        error.message("conduct "),
        "Failed to download conduct 'Contributor Covenant': HTTP 404 - Not Found"
    );
    let down = Fetched::Failed { detail: "no route".to_string() };
    match ConductManager::preview_conduct(Conduct::Django, down).unwrap_err() {
        FetchError::Network { identifier, detail } => {
            assert_eq!(identifier, "Django");
            assert_eq!(detail, "no route");
        },
        other => panic!("{:?}", other),
    }
}

#[test]
fn removing_the_code_of_conduct() {
    match ConductManager::remove_conduct(Removal::Removed).unwrap() {
        Notice::Success(text) => assert_eq!(text, "CODE_OF_CONDUCT.md file removed."),
        other => panic!("{:?}", other),
    }
    match ConductManager::remove_conduct(Removal::NotFound).unwrap() {
        Notice::Info(text) => assert_eq!(text, "CODE_OF_CONDUCT.md file does not exist."),
        other => panic!("{:?}", other),
    }
    let error = ConductManager::remove_conduct(Removal::Failed("busy".to_string())).unwrap_err();
    assert_eq!(error.message, "Failed to remove CODE_OF_CONDUCT.md file: busy");
}
