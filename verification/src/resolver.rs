//! One request, from the configuration file to the finished document, as a
//! state machine.
//!
//! The machine decides; its caller does what it is told — read a file, fetch
//! a text, ask the user, write the results — and hands back what came of it.
//! A request starts at `Start`. The configuration must load in the working
//! directory (`Loaded`), else the request is `Rejected`. The template's
//! identifier is then taken from the catalog, from the configuration or from
//! the choice made (`CatalogResolved`); a license that the catalog does not
//! have ends the request with suggestions (`Suggested`). The text is fetched
//! (`TextFetched`), its placeholders are filled (`Substituted`), and the
//! document and the configuration are written (`Saved`). Any error ends the
//! request (`Failed`).

use vstd::prelude::*;
use crate::conduct::{
    citizen_note, conduct_key, conduct_url_of, slug_of, Conduct, ConductManager,
};
use crate::config::{
    load_spec, save_spec, ConfigError, ConfigManager, Configuration, ConfigurationView,
    WorkingDirectory,
};
use crate::data::ProjectData;
use crate::fetch::{is_success, reason_of, FetchError, FetchErrorView, Fetched};
use crate::license::{
    blob_paths, license_key, license_url_of, lowered, resolve_spec, suggestions_of, CatalogError,
    LicenseChoice, LicenseError, LicenseManager, TreeItem,
};
use crate::template::{missing, resolved, substituted, tokenize_spec};
use crate::text::{lowercase_of, texts_of};
use crate::tools::is_ranking;

verus! {

/// What the user asks for.
#[derive(Debug)]
pub enum Request {
    /// Give the project the license of this name.
    SetLicense(String),
    /// Write the license that the configuration names once more.
    ReloadLicense,
    /// Give the project this code of conduct.
    SetConduct(Conduct),
}

/// The document that a request writes.
#[derive(Debug, Clone, Copy, PartialEq, Eq, Structural)]
pub enum Document {
    License,
    Conduct(Conduct),
}

/// Why a request ended without its document.
#[derive(Debug)]
pub enum ResolveError {
    /// The list of licenses could not be had.
    Catalog(CatalogError),
    /// The configuration names no license to reload.
    License(LicenseError),
    /// The template could not be fetched.
    Fetch(FetchError),
    /// A file could not be written; the cause in the system's words.
    FileWrite(String),
    /// The machine was handed something it had not asked for.
    OutOfTurn,
}

/// What the caller found out or did.
#[derive(Debug)]
pub enum Event {
    /// The content of the configuration file; `None` where there is none.
    Config(Option<String>),
    /// The remote listing; `None` where it could not be fetched or read.
    Listing(Option<Vec<TreeItem>>),
    /// What the request for the template brought back.
    Reply(Fetched),
    /// The user's answers, by name.
    Answers(ProjectData),
    /// The files were written.
    Written,
    /// A file could not be written.
    WriteFailed(String),
}

/// What the caller is to do next.
#[derive(Debug)]
pub enum Action {
    /// Read the configuration file and hand back `Event::Config`.
    ReadConfig,
    /// Fetch the remote listing and hand back `Event::Listing`.
    FetchListing,
    /// Write `store`, if there is one, to the configuration file; then fetch
    /// `url` and hand back `Event::Reply`, or `Event::WriteFailed` where the
    /// file could not be written.
    Download { url: String, store: Option<String> },
    /// Ask the user for a value for each name and hand back
    /// `Event::Answers`.
    Ask(Vec<String>),
    /// Write `text` to `file` and `config_text` to the configuration file, show
    /// `note` if there is one, and hand back `Event::Written` or
    /// `Event::WriteFailed`.
    Write { file: String, text: String, config_text: String, note: Option<String> },
    /// The request is done.
    Done,
    /// Tell the user to set the project up again.
    Reject(ConfigError),
    /// Tell the user that there is no such license, and show these.
    Suggest(Vec<(String, i64)>),
    /// Report the error.
    Fail(ResolveError),
}

/// The state of a request.
#[derive(Debug)]
pub enum Resolver {
    /// Waiting for the configuration file.
    Start { request: Request, cwd: WorkingDirectory },
    /// The configuration is loaded; waiting for the list of licenses.
    Loaded { name: String, config: Configuration },
    /// The identifier is known; waiting for the template.
    CatalogResolved { document: Document, identifier: String, config: Configuration },
    /// The template is here; waiting for the user's answers.
    TextFetched { document: Document, config: Configuration, text: String },
    /// The placeholders are filled; waiting for the files to be written.
    Substituted,
    /// Done: the document and the configuration are written.
    Saved,
    /// Done: the configuration is absent, broken or made for another
    /// directory.
    Rejected,
    /// Done: the catalog has no such license.
    Suggested,
    /// Done: an error ended the request.
    Failed,
}

/// The file that a document is written to.
pub open spec fn file_of(document: Document) -> Seq<char> {
    match document {
        Document::License => "LICENSE"@,
        Document::Conduct(_) => "CODE_OF_CONDUCT.md"@,
    }
}

/// Where a document's template is fetched from.
pub open spec fn url_of(document: Document, identifier: Seq<char>) -> Seq<char> {
    match document {
        Document::License => license_url_of(identifier),
        Document::Conduct(_) => conduct_url_of(identifier),
    }
}

/// The configuration once the document is filled in: the answers that were
/// used are recorded, and so is a code of conduct.
pub open spec fn settled_config(
    document: Document,
    config: ConfigurationView,
    text: Seq<char>,
    answers: Map<Seq<char>, Seq<char>>,
) -> ConfigurationView {
    let learned = resolved(tokenize_spec(text), config.data, answers);
    ConfigurationView {
        settings: config.settings,
        data: match document {
            Document::License => learned,
            Document::Conduct(conduct) => learned.insert(conduct_key(), slug_of(conduct)),
        },
    }
}

/// Filling in: the finished text goes to the document's file, and the text
/// for the configuration file loads as the settled configuration.
pub open spec fn fills(
    document: Document,
    config: ConfigurationView,
    text: Seq<char>,
    answers: Map<Seq<char>, Seq<char>>,
    next: Resolver,
    action: Action,
) -> bool {
    match action {
        Action::Write { file, text: finished, config_text: written, note } => {
            &&& next is Substituted
            &&& file@ == file_of(document)
            &&& finished@ == substituted(text, config.data, answers)
            &&& written@ == save_spec(settled_config(document, config, text, answers))
            &&& load_spec(Some(written@), config.settings.path, config.settings.project) == Ok::<
                ConfigurationView,
                ConfigError,
            >(settled_config(document, config, text, answers))
            &&& match note {
                Some(words) => document == Document::Conduct(Conduct::Citizen) && words@
                    == citizen_note(),
                None => document != Document::Conduct(Conduct::Citizen),
            }
        },
        _ => false,
    }
}

/// With the template in hand: where the configuration resolves every field,
/// the text is filled in at once; else the user is asked for the missing
/// values, each once, in the order in which the text first uses them.
pub open spec fn reads(
    document: Document,
    config: ConfigurationView,
    text: Seq<char>,
    next: Resolver,
    action: Action,
) -> bool {
    if missing(tokenize_spec(text), config.data).len() == 0 {
        fills(document, config, text, Map::empty(), next, action)
    } else {
        &&& next matches Resolver::TextFetched { document: d, config: c, text: t }
        &&& d == document
        &&& c@ == config
        &&& t@ == text
        &&& action matches Action::Ask(names)
        &&& texts_of(names@) == missing(tokenize_spec(text), config.data)
    }
}

/// With what the request for the template brought back: a reply with a
/// status from 200 to 299 gives the text; anything else ends the request.
pub open spec fn receives(
    document: Document,
    identifier: Seq<char>,
    config: ConfigurationView,
    fetched: Fetched,
    next: Resolver,
    action: Action,
) -> bool {
    match fetched {
        Fetched::Reply { status, body } => if is_success(status) {
            reads(document, config, body@, next, action)
        } else {
            &&& next is Failed
            &&& action matches Action::Fail(ResolveError::Fetch(e))
            &&& e@ == (FetchErrorView::TemplateNotFound {
                identifier,
                status,
                reason: reason_of(status),
            })
        },
        Fetched::Failed { detail } => {
            &&& next is Failed
            &&& action matches Action::Fail(ResolveError::Fetch(e))
            &&& e@ == (FetchErrorView::Network { identifier, detail: detail@ })
        },
    }
}

/// With the identifier known: the template is to be downloaded, after the
/// configuration was written out where `store` asks for it.
pub open spec fn locates(
    document: Document,
    identifier: Seq<char>,
    config: ConfigurationView,
    store: bool,
    next: Resolver,
    action: Action,
) -> bool {
    match action {
        Action::Download { url, store: written } => {
            &&& next matches Resolver::CatalogResolved { document: d, identifier: i, config: c }
            &&& d == document
            &&& i@ == identifier
            &&& c@ == config
            &&& url@ == url_of(document, identifier)
            &&& match written {
                Some(text) => store && text@ == save_spec(config) && load_spec(
                    Some(text@),
                    config.settings.path,
                    config.settings.project,
                ) == Ok::<ConfigurationView, ConfigError>(config),
                None => !store,
            }
        },
        _ => false,
    }
}

/// With the list of licenses, if it could be had: the license asked for is
/// recorded in the configuration and located, or the closest entries are
/// suggested.
pub open spec fn selects(
    name: Seq<char>,
    config: ConfigurationView,
    names: Option<Seq<Seq<char>>>,
    next: Resolver,
    action: Action,
) -> bool {
    match names {
        None => {
            &&& next is Failed
            &&& action matches Action::Fail(ResolveError::Catalog(CatalogError::Unavailable))
        },
        Some(list) => match resolve_spec(list, name) {
            Some(identifier) => locates(
                Document::License,
                identifier,
                ConfigurationView {
                    settings: config.settings,
                    data: config.data.insert(license_key(), identifier),
                },
                true,
                next,
                action,
            ),
            None => {
                &&& next is Suggested
                &&& action matches Action::Suggest(closest)
                &&& is_ranking(lowered(list), lowercase_of(name), suggestions_of(closest@))
            },
        },
    }
}

/// The list of licenses after a fetch: what was kept before, or else the
/// downloadable entries of what was fetched.
pub open spec fn listing_after(kept: Option<Seq<Seq<char>>>, fetched: Option<Vec<TreeItem>>) -> Option<
    Seq<Seq<char>>,
> {
    match kept {
        Some(list) => Some(list),
        None => match fetched {
            Some(tree) => Some(blob_paths(tree@)),
            None => None,
        },
    }
}

/// With the content of the configuration file: a configuration that does
/// not load in the working directory ends the request. Else a code of
/// conduct, or the license that the configuration names, is located at
/// once; a license asked for by name is selected from the list that is
/// kept, or the list is fetched first.
pub open spec fn begins(
    request: Request,
    cwd: WorkingDirectory,
    kept: Option<Seq<Seq<char>>>,
    content: Option<Seq<char>>,
    next: Resolver,
    action: Action,
) -> bool {
    match load_spec(content, cwd.path@, cwd.name@) {
        Err(e) => {
            &&& next is Rejected
            &&& action matches Action::Reject(r)
            &&& r == e
        },
        Ok(config) => match request {
            Request::SetLicense(name) => if kept is Some {
                selects(name@, config, kept, next, action)
            } else {
                &&& next matches Resolver::Loaded { name: n, config: c }
                &&& n@ == name@
                &&& c@ == config
                &&& action is FetchListing
            },
            Request::ReloadLicense => if config.data.contains_key(license_key()) {
                locates(Document::License, config.data[license_key()], config, false, next, action)
            } else {
                &&& next is Failed
                &&& action matches Action::Fail(ResolveError::License(LicenseError::NoneConfigured))
            },
            Request::SetConduct(conduct) => locates(
                Document::Conduct(conduct),
                slug_of(conduct),
                config,
                false,
                next,
                action,
            ),
        },
    }
}

/// One step of a request: what the machine makes of `event` in state
/// `state`, with `kept` the list of licenses that is kept. Something that
/// was not asked for ends the request.
pub open spec fn steps(
    state: Resolver,
    kept: Option<Seq<Seq<char>>>,
    event: Event,
    next: Resolver,
    action: Action,
) -> bool {
    match (state, event) {
        (Resolver::Start { request, cwd }, Event::Config(content)) => begins(
            request,
            cwd,
            kept,
            match content {
                Some(text) => Some(text@),
                None => None,
            },
            next,
            action,
        ),
        (Resolver::Loaded { name, config }, Event::Listing(fetched)) => selects(
            name@,
            config@,
            listing_after(kept, fetched),
            next,
            action,
        ),
        (Resolver::CatalogResolved { document, identifier, config }, Event::Reply(fetched)) => {
            receives(document, identifier@, config@, fetched, next, action)
        },
        (Resolver::TextFetched { document, config, text }, Event::Answers(answers)) => fills(
            document,
            config@,
            text@,
            answers@,
            next,
            action,
        ),
        (Resolver::Substituted, Event::Written) => next is Saved && action is Done,
        (Resolver::CatalogResolved { .. }, Event::WriteFailed(cause))
        | (Resolver::Substituted, Event::WriteFailed(cause)) => {
            &&& next is Failed
            &&& action matches Action::Fail(ResolveError::FileWrite(words))
            &&& words@ == cause@
        },
        _ => {
            &&& next is Failed
            &&& action matches Action::Fail(ResolveError::OutOfTurn)
        },
    }
}

/// The list of licenses that is kept after a step: a step changes it only
/// by keeping what was fetched when a list was awaited.
pub open spec fn kept_after(state: Resolver, kept: Option<Seq<Seq<char>>>, event: Event) -> Option<
    Seq<Seq<char>>,
> {
    match (state, event) {
        (Resolver::Loaded { name, config }, Event::Listing(fetched)) => listing_after(kept, fetched),
        _ => kept,
    }
}

fn fill(document: Document, config: Configuration, text: String, answers: &ProjectData) -> (out: (
    Resolver,
    Action,
))
    ensures
        fills(document, config@, text@, answers@, out.0, out.1),
{
    let mut config = config;
    let finished = LicenseManager::modify_license(text, &mut config, answers);
    let (file, note) = match document {
        Document::License => ("LICENSE".to_owned(), None),
        Document::Conduct(conduct) => {
            let note = match ConductManager::set_conduct(conduct, &mut config) {
                Some(words) => Some(words.to_owned()),
                None => None,
            };
            ("CODE_OF_CONDUCT.md".to_owned(), note)
        },
    };
    let written = ConfigManager::save_config(&config);
    (Resolver::Substituted, Action::Write { file, text: finished, config_text: written, note })
}

fn read(document: Document, config: Configuration, text: String) -> (out: (Resolver, Action))
    ensures
        reads(document, config@, text@, out.0, out.1),
{
    let names = LicenseManager::pending_prompts(text.as_str(), &config);
    if names.len() == 0 {
        let nothing = ProjectData::new();
        fill(document, config, text, &nothing)
    } else {
        (Resolver::TextFetched { document, config, text }, Action::Ask(names))
    }
}

fn receive(document: Document, identifier: String, config: Configuration, fetched: Fetched) -> (out:
    (Resolver, Action))
    ensures
        receives(document, identifier@, config@, fetched, out.0, out.1),
{
    match crate::fetch::receive(identifier.as_str(), fetched) {
        Ok(text) => read(document, config, text),
        Err(e) => (Resolver::Failed, Action::Fail(ResolveError::Fetch(e))),
    }
}

fn locate(document: Document, identifier: String, config: Configuration, store: bool) -> (out: (
    Resolver,
    Action,
))
    ensures
        locates(document, identifier@, config@, store, out.0, out.1),
{
    let url = match document {
        Document::License => LicenseManager::license_url(identifier.as_str()),
        Document::Conduct(_) => ConductManager::conduct_url(identifier.as_str()),
    };
    let written = if store {
        Some(ConfigManager::save_config(&config))
    } else {
        None
    };
    (
        Resolver::CatalogResolved { document, identifier, config },
        Action::Download { url, store: written },
    )
}

fn select(name: String, config: Configuration, names: Result<Vec<String>, CatalogError>) -> (out: (
    Resolver,
    Action,
))
    ensures
        selects(
            name@,
            config@,
            match names {
                Ok(list) => Some(texts_of(list@)),
                Err(_) => None,
            },
            out.0,
            out.1,
        ),
{
    match names {
        Err(e) => (Resolver::Failed, Action::Fail(ResolveError::Catalog(e))),
        Ok(list) => {
            let mut config = config;
            match LicenseManager::set_license(name, list.as_slice(), &mut config) {
                LicenseChoice::Selected(identifier) => locate(
                    Document::License,
                    identifier,
                    config,
                    true,
                ),
                LicenseChoice::Unknown(closest) => (Resolver::Suggested, Action::Suggest(closest)),
            }
        },
    }
}

fn begin(request: Request, cwd: WorkingDirectory, content: Option<String>, catalog: &mut LicenseManager) -> (out:
    (Resolver, Action))
    ensures
        final(catalog).listing() == old(catalog).listing(),
        begins(
            request,
            cwd,
            old(catalog).listing(),
            match content {
                Some(text) => Some(text@),
                None => None,
            },
            out.0,
            out.1,
        ),
{
    let loaded = match &content {
        Some(text) => ConfigManager::load_config(Some(text.as_str()), &cwd),
        None => ConfigManager::load_config(None, &cwd),
    };
    let config = match loaded {
        Ok(config) => config,
        Err(e) => {
            return (Resolver::Rejected, Action::Reject(e));
        },
    };
    match request {
        Request::SetLicense(name) => {
            if catalog.needs_listing() {
                (Resolver::Loaded { name, config }, Action::FetchListing)
            } else {
                let names = catalog.get_licenses(None);
                select(name, config, names)
            }
        },
        Request::ReloadLicense => match LicenseManager::reload_license(&config) {
            Ok(identifier) => locate(Document::License, identifier, config, false),
            Err(e) => (Resolver::Failed, Action::Fail(ResolveError::License(e))),
        },
        Request::SetConduct(conduct) => locate(
            Document::Conduct(conduct),
            conduct.slug().to_owned(),
            config,
            false,
        ),
    }
}

impl Resolver {
    /// A request at its start, and the first thing to do for it.
    pub fn start(request: Request, cwd: WorkingDirectory) -> (out: (Resolver, Action))
        ensures
            out.0 == (Resolver::Start { request, cwd }),
            out.1 is ReadConfig,
    {
        (Resolver::Start { request, cwd }, Action::ReadConfig)
    }

    /// Whether the request has ended.
    pub fn is_done(&self) -> (done: bool)
        ensures
            done == (*self is Saved || *self is Rejected || *self is Suggested || *self is Failed),
    {
        match self {
            Resolver::Saved | Resolver::Rejected | Resolver::Suggested | Resolver::Failed => true,
            _ => false,
        }
    }

    /// Takes one step: makes of `event` what the state asks for, and says
    /// what to do next. `catalog` holds the list of licenses of this run.
    pub fn step(self, event: Event, catalog: &mut LicenseManager) -> (out: (Resolver, Action))
        ensures
            steps(self, old(catalog).listing(), event, out.0, out.1),
            final(catalog).listing() == kept_after(self, old(catalog).listing(), event),
    {
        match (self, event) {
            (Resolver::Start { request, cwd }, Event::Config(content)) => begin(
                request,
                cwd,
                content,
                catalog,
            ),
            (Resolver::Loaded { name, config }, Event::Listing(fetched)) => {
                let names = catalog.get_licenses(fetched);
                select(name, config, names)
            },
            (Resolver::CatalogResolved { document, identifier, config }, Event::Reply(fetched)) => {
                receive(document, identifier, config, fetched)
            },
            (Resolver::TextFetched { document, config, text }, Event::Answers(answers)) => fill(
                document,
                config,
                text,
                &answers,
            ),
            (Resolver::Substituted, Event::Written) => (Resolver::Saved, Action::Done),
            (Resolver::CatalogResolved { .. }, Event::WriteFailed(cause))
            | (Resolver::Substituted, Event::WriteFailed(cause)) => (
                Resolver::Failed,
                Action::Fail(ResolveError::FileWrite(cause)),
            ),
            _ => (Resolver::Failed, Action::Fail(ResolveError::OutOfTurn)),
        }
    }
}

/// Nothing is resolved without a valid identity: where the configuration
/// does not load in the working directory, the first step ends the request
/// as rejected, with the reason.
pub proof fn lemma_identity_comes_first(
    request: Request,
    cwd: WorkingDirectory,
    kept: Option<Seq<Seq<char>>>,
    content: Option<String>,
    next: Resolver,
    action: Action,
)
    requires
        steps(Resolver::Start { request, cwd }, kept, Event::Config(content), next, action),
        load_spec(
            match content {
                Some(text) => Some(text@),
                None => None,
            },
            cwd.path@,
            cwd.name@,
        ) is Err,
    ensures
        next is Rejected,
        action is Reject,
{
}

/// A request that has ended takes no further step: whatever it is handed,
/// the answer is that it came out of turn.
pub proof fn lemma_ended_stays_ended(
    state: Resolver,
    kept: Option<Seq<Seq<char>>>,
    event: Event,
    next: Resolver,
    action: Action,
)
    requires
        state is Saved || state is Rejected || state is Suggested || state is Failed,
        steps(state, kept, event, next, action),
    ensures
        next is Failed,
        action matches Action::Fail(ResolveError::OutOfTurn),
{
}

} // verus!
