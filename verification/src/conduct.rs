//! The code of conduct: the three that are on offer, and the steps that give
//! a project one of them.

use vstd::prelude::*;
use vstd::string::StringExecFns;
use crate::config::Configuration;
use crate::fetch::{is_success, reason_of, receive, FetchError, FetchErrorView, Fetched};
use crate::files::{removal_notice, removal_spec, FileError, Notice, NoticeView, Removal};
use crate::text::{to_chars, trim_chars, trimmed};

verus! {

/// The file that the code of conduct is written to.
pub const CONDUCT_FILE: &'static str = "CODE_OF_CONDUCT.md";

/// The codes of conduct on offer.
#[derive(Debug, Clone, Copy, PartialEq, Eq, Structural)]
pub enum Conduct {
    /// Contributor Covenant: for projects of all sizes.
    ContributorCovenant,
    /// Django: for large communities and events.
    Django,
    /// Citizen: for most projects.
    Citizen,
}

/// The key under which the chosen code of conduct is recorded.
pub open spec fn conduct_key() -> Seq<char> {
    "conduct"@
}

/// The name under which a code of conduct is shown.
pub open spec fn title_of(conduct: Conduct) -> Seq<char> {
    match conduct {
        Conduct::ContributorCovenant => "Contributor Covenant"@,
        Conduct::Django => "Django"@,
        Conduct::Citizen => "Citizen"@,
    }
}

/// The name under which a code of conduct is stored and fetched: its title
/// in lowercase, with a hyphen for each space.
pub open spec fn slug_of(conduct: Conduct) -> Seq<char> {
    match conduct {
        Conduct::ContributorCovenant => "contributor-covenant"@,
        Conduct::Django => "django"@,
        Conduct::Citizen => "citizen"@,
    }
}

/// Where the text of a code of conduct is fetched from.
pub open spec fn conduct_url_of(conduct: Seq<char>) -> Seq<char> {
    "https://raw.githubusercontent.com/Saturnyx/curator/refs/heads/main/templates/"@ + conduct
        + ".md"@
}

/// The code of conduct that an answer picks: `1`, `2` or `3`, white space
/// around it aside.
pub open spec fn choice_of(answer: Seq<char>) -> Option<Conduct> {
    if trimmed(answer) == seq!['1'] {
        Some(Conduct::ContributorCovenant)
    } else if trimmed(answer) == seq!['2'] {
        Some(Conduct::Django)
    } else if trimmed(answer) == seq!['3'] {
        Some(Conduct::Citizen)
    } else {
        None
    }
}

/// What is said to a project that takes the Citizen code of conduct.
pub open spec fn citizen_note() -> Seq<char> {
    "NOTE: Every organization's governing policies should dictate how you handle warnings and expulsions of community members. It is strongly recommended that you mention those policies here or in Section 7 and that you include a mechanism for addressing grievances."@
}

impl Conduct {
    /// The name under which this code of conduct is shown.
    pub fn title(&self) -> (title: &'static str)
        ensures
            title@ == title_of(*self),
    {
        match self {
            Conduct::ContributorCovenant => "Contributor Covenant",
            Conduct::Django => "Django",
            Conduct::Citizen => "Citizen",
        }
    }

    /// The name under which this code of conduct is stored and fetched.
    pub fn slug(&self) -> (slug: &'static str)
        ensures
            slug@ == slug_of(*self),
    {
        match self {
            Conduct::ContributorCovenant => "contributor-covenant",
            Conduct::Django => "django",
            Conduct::Citizen => "citizen",
        }
    }
}

/// The steps that give a project its code of conduct.
pub struct ConductManager;

impl ConductManager {
    /// Reads the answer to the question which code of conduct is wanted.
    /// `None` asks for the question to be put again.
    pub fn pick(answer: &str) -> (choice: Option<Conduct>)
        ensures
            choice == choice_of(answer@),
    {
        let picked = trim_chars(&to_chars(answer));
        if picked.len() != 1 {
            return None;
        }
        assert(picked@ =~= seq![picked@[0]]);
        if picked[0] == '1' {
            Some(Conduct::ContributorCovenant)
        } else if picked[0] == '2' {
            Some(Conduct::Django)
        } else if picked[0] == '3' {
            Some(Conduct::Citizen)
        } else {
            None
        }
    }

    /// Where the text of a code of conduct is fetched from.
    pub fn conduct_url(conduct: &str) -> (url: String)
        ensures
            url@ == conduct_url_of(conduct@),
    {
        let mut url =
            "https://raw.githubusercontent.com/Saturnyx/curator/refs/heads/main/templates/".to_owned();
        url.append(conduct);
        url.append(".md");
        url
    }

    /// The text of the code of conduct `conduct`, out of what the request for
    /// it brought back.
    pub fn download_conduct(conduct: &str, fetched: Fetched) -> (text: Result<String, FetchError>)
        ensures
            match fetched {
                Fetched::Reply { status, body } => if is_success(status) {
                    text == Ok::<String, FetchError>(body)
                } else {
                    text is Err && text->Err_0@ == (FetchErrorView::TemplateNotFound {
                        identifier: conduct@,
                        status,
                        reason: reason_of(status),
                    })
                },
                Fetched::Failed { detail } => text is Err && text->Err_0@ == (
                FetchErrorView::Network { identifier: conduct@, detail: detail@ }),
            },
    {
        receive(conduct, fetched)
    }

    /// Records the code of conduct that was written to the project in the
    /// configuration, under `conduct`, and returns what there is to say to
    /// the user about it: a note for Citizen, nothing for the others.
    pub fn set_conduct(conduct: Conduct, config: &mut Configuration) -> (note: Option<&'static str>)
        ensures
            final(config).settings == old(config).settings,
            final(config).data@ == old(config).data@.insert(conduct_key(), slug_of(conduct)),
            match note {
                Some(words) => conduct == Conduct::Citizen && words@ == citizen_note(),
                None => conduct != Conduct::Citizen,
            },
    {
        config.data.insert("conduct".to_owned(), conduct.slug().to_owned());
        match conduct {
            Conduct::Citizen => Some(
                "NOTE: Every organization's governing policies should dictate how you handle warnings and expulsions of community members. It is strongly recommended that you mention those policies here or in Section 7 and that you include a mechanism for addressing grievances.",
            ),
            _ => None,
        }
    }

    /// Reports the removal of the code of conduct.
    pub fn remove_conduct(removal: Removal) -> (report: Result<Notice, FileError>)
        ensures
            match report {
                Ok(notice) => removal_spec("CODE_OF_CONDUCT.md"@, removal) == Ok::<
                    NoticeView,
                    Seq<char>,
                >(notice@),
                Err(error) => removal_spec("CODE_OF_CONDUCT.md"@, removal) == Err::<
                    NoticeView,
                    Seq<char>,
                >(error.message@),
            },
    {
        removal_notice("CODE_OF_CONDUCT.md", removal)
    }

    /// The text to show as a preview of the code of conduct `conduct`, out
    /// of what the request for it brought back. The text is shown as it
    /// came: no placeholder is filled in and nothing is recorded. An error
    /// names the code of conduct by its title.
    pub fn preview_conduct(conduct: Conduct, fetched: Fetched) -> (text: Result<String, FetchError>)
        ensures
            match fetched {
                Fetched::Reply { status, body } => if is_success(status) {
                    text == Ok::<String, FetchError>(body)
                } else {
                    text is Err && text->Err_0@ == (FetchErrorView::TemplateNotFound {
                        identifier: title_of(conduct),
                        status,
                        reason: reason_of(status),
                    })
                },
                Fetched::Failed { detail } => text is Err && text->Err_0@ == (
                FetchErrorView::Network { identifier: title_of(conduct), detail: detail@ }),
            },
    {
        receive(conduct.title(), fetched)
    }
}

} // verus!
