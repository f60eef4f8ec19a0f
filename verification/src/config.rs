//! The persisted configuration of a project and its binding to the directory
//! it was made in.

use vstd::prelude::*;
use crate::data::{find_pair, keys_distinct, lemma_pairs_push, pairs_map, ProjectData};
use crate::json::{json_sections, parse_sections, pretty_json, print_sections};
use crate::files::{removal_notice, removal_spec, FileError, Notice, NoticeView, Removal};
use crate::ignore::{ignore_spec, is_entry, lemma_listing_settles};
use crate::text::{
    decimal, decimal_text, digits, lowercase, lowercase_of, optional_text, same_text, to_chars,
};

verus! {

/// Who a project belongs to and where it lives.
#[derive(Debug)]
pub struct ProjectIdentity {
    /// The project's name: the last segment of `path`.
    pub project: String,
    /// The absolute path of the project's directory.
    pub path: String,
    /// The author's legal name.
    pub author: String,
}

/// A `ProjectIdentity` as the contracts see it.
pub struct IdentityView {
    pub project: Seq<char>,
    pub path: Seq<char>,
    pub author: Seq<char>,
}

impl View for ProjectIdentity {
    type V = IdentityView;

    open spec fn view(&self) -> IdentityView {
        IdentityView { project: self.project@, path: self.path@, author: self.author@ }
    }
}

/// The whole persisted record.
#[derive(Debug)]
pub struct Configuration {
    pub settings: ProjectIdentity,
    pub data: ProjectData,
}

impl Clone for Configuration {
    fn clone(&self) -> (copy: Self)
        ensures
            copy@ == self@,
    {
        Configuration {
            settings: ProjectIdentity {
                project: self.settings.project.clone(),
                path: self.settings.path.clone(),
                author: self.settings.author.clone(),
            },
            data: self.data.clone(),
        }
    }
}

/// A `Configuration` as the contracts see it.
pub struct ConfigurationView {
    pub settings: IdentityView,
    pub data: Map<Seq<char>, Seq<char>>,
}

impl View for Configuration {
    type V = ConfigurationView;

    open spec fn view(&self) -> ConfigurationView {
        ConfigurationView { settings: self.settings@, data: self.data@ }
    }
}

/// The directory a command runs in, as the operating system reports it.
#[derive(Debug)]
pub struct WorkingDirectory {
    /// Its absolute path.
    pub path: String,
    /// The last segment of that path.
    pub name: String,
}

/// Why a configuration cannot be used.
#[derive(Debug, Clone, Copy, PartialEq, Eq, Structural)]
pub enum ConfigError {
    /// There is no configuration file.
    Missing,
    /// The file is not a configuration: it does not parse, or it lacks the
    /// identity section or one of its three entries.
    Corrupt,
    /// The configuration was made for another directory.
    IdentityMismatch,
}

/// The sections of a configuration file, by name, each a map from key to
/// value.
pub type Sections = Vec<(String, Vec<(String, String)>)>;

/// The map that a list of sections stands for; a later section overrides an
/// earlier one with the same name.
pub open spec fn sections_map(sections: Seq<(String, Vec<(String, String)>)>) -> Map<
    Seq<char>,
    Map<Seq<char>, Seq<char>>,
>
    decreases sections.len(),
{
    if sections.len() == 0 {
        Map::empty()
    } else {
        sections_map(sections.drop_last()).insert(
            sections.last().0@,
            pairs_map(sections.last().1@),
        )
    }
}

/// No section name occurs twice, and within a section no key.
pub open spec fn sections_distinct(sections: Seq<(String, Vec<(String, String)>)>) -> bool {
    &&& forall|i: int, j: int| 0 <= i < j < sections.len() ==> sections[i].0@ != sections[j].0@
    &&& forall|i: int| 0 <= i < sections.len() ==> keys_distinct(#[trigger] sections[i].1@)
}

/// The name of the identity section.
pub open spec fn settings_key() -> Seq<char> {
    "settings"@
}

/// The name of the data section.
pub open spec fn data_key() -> Seq<char> {
    "data"@
}

/// The key of the project's name in the identity section.
pub open spec fn project_key() -> Seq<char> {
    "project"@
}

/// The key of the project's path in the identity section.
pub open spec fn path_key() -> Seq<char> {
    "path"@
}

/// The key of the author's name in the identity section.
pub open spec fn author_key() -> Seq<char> {
    "author"@
}

/// The configuration that a file's sections hold, if they hold one: the
/// identity section must be there with its three entries; a missing data
/// section counts as an empty one.
pub open spec fn decode(sections: Map<Seq<char>, Map<Seq<char>, Seq<char>>>) -> Option<
    ConfigurationView,
> {
    if sections.contains_key(settings_key()) && sections[settings_key()].contains_key(
        project_key(),
    ) && sections[settings_key()].contains_key(path_key())
        && sections[settings_key()].contains_key(author_key()) {
        let settings = sections[settings_key()];
        Some(
            ConfigurationView {
                settings: IdentityView {
                    project: settings[project_key()],
                    path: settings[path_key()],
                    author: settings[author_key()],
                },
                data: if sections.contains_key(data_key()) {
                    sections[data_key()]
                } else {
                    Map::empty()
                },
            },
        )
    } else {
        None
    }
}

/// A configuration belongs to a directory when it records that directory's
/// path and name, character for character.
pub open spec fn bound_to(settings: IdentityView, path: Seq<char>, name: Seq<char>) -> bool {
    settings.path == path && settings.project == name
}

/// What loading makes of a file's content in a directory: the configuration,
/// or the reason why there is none.
pub open spec fn load_spec(content: Option<Seq<char>>, path: Seq<char>, name: Seq<char>) -> Result<
    ConfigurationView,
    ConfigError,
> {
    match content {
        None => Err(ConfigError::Missing),
        Some(text) => match json_sections(text) {
            None => Err(ConfigError::Corrupt),
            Some(sections) => adopt_spec(sections, path, name),
        },
    }
}

/// What loading makes of a file's sections in a directory.
pub open spec fn adopt_spec(
    sections: Map<Seq<char>, Map<Seq<char>, Seq<char>>>,
    path: Seq<char>,
    name: Seq<char>,
) -> Result<ConfigurationView, ConfigError> {
    match decode(sections) {
        None => Err(ConfigError::Corrupt),
        Some(config) => if bound_to(config.settings, path, name) {
            Ok(config)
        } else {
            Err(ConfigError::IdentityMismatch)
        },
    }
}

/// The sections that a configuration is written out as.
pub open spec fn encode(config: ConfigurationView) -> Map<Seq<char>, Map<Seq<char>, Seq<char>>> {
    Map::<Seq<char>, Map<Seq<char>, Seq<char>>>::empty().insert(
        settings_key(),
        Map::<Seq<char>, Seq<char>>::empty().insert(project_key(), config.settings.project).insert(
            path_key(),
            config.settings.path,
        ).insert(author_key(), config.settings.author),
    ).insert(data_key(), config.data)
}

/// The text that a configuration is written out as.
pub open spec fn save_spec(config: ConfigurationView) -> Seq<char> {
    pretty_json(encode(config))
}

/// Writing a configuration out and reading it back gives the same
/// configuration.
pub proof fn lemma_decode_encode(config: ConfigurationView)
    ensures
        decode(encode(config)) == Some(config),
{
    reveal_strlit("settings");
    reveal_strlit("data");
    reveal_strlit("project");
    reveal_strlit("path");
    reveal_strlit("author");
    assert(settings_key().len() != data_key().len());
    assert(project_key().len() != path_key().len());
    assert(project_key().len() != author_key().len());
    assert(path_key().len() != author_key().len());
}

proof fn lemma_sections_absent(sections: Seq<(String, Vec<(String, String)>)>, key: Seq<char>)
    requires
        forall|i: int| 0 <= i < sections.len() ==> sections[i].0@ != key,
    ensures
        !sections_map(sections).contains_key(key),
    decreases sections.len(),
{
    if sections.len() > 0 {
        lemma_sections_absent(sections.drop_last(), key);
    }
}

proof fn lemma_sections_last(sections: Seq<(String, Vec<(String, String)>)>, at: int)
    requires
        0 <= at < sections.len(),
        forall|k: int| at < k < sections.len() ==> sections[k].0@ != sections[at].0@,
    ensures
        sections_map(sections).contains_key(sections[at].0@),
        sections_map(sections)[sections[at].0@] == pairs_map(sections[at].1@),
    decreases sections.len(),
{
    if at < sections.len() - 1 {
        lemma_sections_last(sections.drop_last(), at);
    }
}

fn find_section(sections: &Sections, key: &str) -> (at: Option<usize>)
    ensures
        at is Some <==> sections_map(sections@).contains_key(key@),
        at is Some ==> at->0 < sections@.len() && pairs_map(sections@[at->0 as int].1@)
            == sections_map(sections@)[key@],
{
    let mut i: usize = sections.len();
    while i > 0
        invariant
            i <= sections@.len(),
            forall|k: int| i <= k < sections@.len() ==> sections@[k].0@ != key@,
        decreases i,
    {
        i -= 1;
        if same_text(sections[i].0.as_str(), key) {
            proof {
                lemma_sections_last(sections@, i as int);
            }
            return Some(i);
        }
    }
    proof {
        lemma_sections_absent(sections@, key@);
    }
    None
}

impl Configuration {
    /// The configuration that a file's sections hold, if they hold one.
    pub fn from_sections(sections: &Sections) -> (config: Option<Configuration>)
        ensures
            match config {
                Some(c) => decode(sections_map(sections@)) == Some(c@),
                None => decode(sections_map(sections@)) is None,
            },
    {
        let settings = match find_section(sections, "settings") {
            Some(at) => &sections[at].1,
            None => {
                return None;
            },
        };
        let project = match find_pair(settings, "project") {
            Some(at) => settings[at].1.clone(),
            None => {
                return None;
            },
        };
        let path = match find_pair(settings, "path") {
            Some(at) => settings[at].1.clone(),
            None => {
                return None;
            },
        };
        let author = match find_pair(settings, "author") {
            Some(at) => settings[at].1.clone(),
            None => {
                return None;
            },
        };
        let data = match find_section(sections, "data") {
            Some(at) => ProjectData::from_pairs(&sections[at].1),
            None => ProjectData::new(),
        };
        Some(Configuration { settings: ProjectIdentity { project, path, author }, data })
    }

    /// The sections that this configuration is written out as.
    pub fn to_sections(&self) -> (sections: Sections)
        ensures
            sections_distinct(sections@),
            sections_map(sections@) == encode(self@),
            decode(sections_map(sections@)) == Some(self@),
    {
        let mut settings: Vec<(String, String)> = Vec::new();
        let ghost s0 = settings@;
        settings.push(("project".to_owned(), self.settings.project.clone()));
        let ghost s1 = settings@;
        settings.push(("path".to_owned(), self.settings.path.clone()));
        let ghost s2 = settings@;
        settings.push(("author".to_owned(), self.settings.author.clone()));
        let data = self.data.pairs();
        let mut sections: Sections = Vec::new();
        let ghost t0 = sections@;
        sections.push(("settings".to_owned(), settings));
        let ghost t1 = sections@;
        sections.push(("data".to_owned(), data));
        proof {
            lemma_pairs_push(s0, s1.last());
            lemma_pairs_push(s1, s2.last());
            lemma_pairs_push(s2, settings@.last());
            assert(pairs_map(s0) =~= Map::<Seq<char>, Seq<char>>::empty());
            assert(t1.drop_last() =~= t0);
            assert(sections@.drop_last() =~= t1);
            assert(sections_map(t0) =~= Map::<Seq<char>, Map<Seq<char>, Seq<char>>>::empty());
            assert(sections_map(t1) == sections_map(t0).insert(
                settings_key(),
                pairs_map(settings@),
            ));
            assert(sections_map(sections@) =~= encode(self@));
            lemma_decode_encode(self@);
            reveal_strlit("settings");
            reveal_strlit("data");
            reveal_strlit("project");
            reveal_strlit("path");
            reveal_strlit("author");
            assert(settings_key().len() != data_key().len());
            assert(project_key().len() != path_key().len());
            assert(project_key().len() != author_key().len());
            assert(path_key().len() != author_key().len());
            assert(keys_distinct(sections@[0].1@));
            assert(keys_distinct(sections@[1].1@));
        }
        sections
    }
}

/// The steps that read, check, make and store a project's configuration.
pub struct ConfigManager;

impl ConfigManager {
    /// Reads a configuration out of a file's sections, for the directory
    /// `cwd`: `Corrupt` where they hold none, `IdentityMismatch` where the
    /// configuration names another path or project.
    pub fn adopt(sections: &Sections, cwd: &WorkingDirectory) -> (loaded: Result<
        Configuration,
        ConfigError,
    >)
        ensures
            match loaded {
                Ok(config) => adopt_spec(sections_map(sections@), cwd.path@, cwd.name@) == Ok::<
                    ConfigurationView,
                    ConfigError,
                >(config@),
                Err(e) => adopt_spec(sections_map(sections@), cwd.path@, cwd.name@) == Err::<
                    ConfigurationView,
                    ConfigError,
                >(e),
            },
    {
        match Configuration::from_sections(sections) {
            None => Err(ConfigError::Corrupt),
            Some(config) => {
                if same_text(config.settings.path.as_str(), cwd.path.as_str()) && same_text(
                    config.settings.project.as_str(),
                    cwd.name.as_str(),
                ) {
                    Ok(config)
                } else {
                    Err(ConfigError::IdentityMismatch)
                }
            },
        }
    }

    /// Loads the configuration from the content of the configuration file,
    /// `None` standing for a file that is not there, in the directory `cwd`.
    pub fn load_config(content: Option<&str>, cwd: &WorkingDirectory) -> (loaded: Result<
        Configuration,
        ConfigError,
    >)
        ensures
            match loaded {
                Ok(config) => load_spec(optional_text(content), cwd.path@, cwd.name@) == Ok::<
                    ConfigurationView,
                    ConfigError,
                >(config@),
                Err(e) => load_spec(optional_text(content), cwd.path@, cwd.name@) == Err::<
                    ConfigurationView,
                    ConfigError,
                >(e),
            },
    {
        match content {
            None => Err(ConfigError::Missing),
            Some(text) => match parse_sections(text) {
                Err(_) => Err(ConfigError::Corrupt),
                Ok(sections) => Self::adopt(&sections, cwd),
            },
        }
    }

    /// Whether the configuration file, with this content, holds a
    /// configuration made for the directory `cwd`.
    pub fn check_config(content: Option<&str>, cwd: &WorkingDirectory) -> (valid: bool)
        ensures
            valid == load_spec(optional_text(content), cwd.path@, cwd.name@) is Ok,
    {
        Self::load_config(content, cwd).is_ok()
    }

    /// The text to write to the configuration file: the same text for the
    /// same configuration. Read back in the directory that the
    /// configuration names, it loads as this configuration.
    pub fn save_config(config: &Configuration) -> (text: String)
        ensures
            text@ == save_spec(config@),
            load_spec(Some(text@), config.settings.path@, config.settings.project@) == Ok::<
                ConfigurationView,
                ConfigError,
            >(config@),
    {
        let sections = config.to_sections();
        match print_sections(&sections) {
            Ok(text) => text,
            Err(_) => unreached(),
        }
    }
}

/// The name of the configuration file.
pub const CONFIG_FILE: &'static str = "curator.json";

/// The name of the file that lists what version control leaves out.
pub const IGNORE_FILE: &'static str = ".gitignore";

/// The line that stands for the configuration file in the ignore list.
pub open spec fn config_entry() -> Seq<char> {
    "curator.json"@
}

/// The configuration that initialization makes: the identity of the
/// directory and the author, and as data the license and the year.
pub open spec fn fresh_spec(
    author: Seq<char>,
    license: Seq<char>,
    year: i32,
    path: Seq<char>,
    name: Seq<char>,
) -> ConfigurationView {
    ConfigurationView {
        settings: IdentityView { project: name, path, author },
        data: Map::<Seq<char>, Seq<char>>::empty().insert("license"@, license).insert(
            "year"@,
            decimal_text(year as int),
        ),
    }
}

/// Whether a lowercase answer to a yes-or-no question says yes: it begins
/// with `y`.
pub open spec fn begins_with_y(answer: Seq<char>) -> bool {
    answer.len() > 0 && answer[0] == 'y'
}

/// Whether an answer to a yes-or-no question says yes: in lowercase it
/// begins with `y`.
pub open spec fn says_yes(answer: Seq<char>) -> bool {
    begins_with_y(lowercase_of(answer))
}

/// All that initialization decides: the configuration, the text of the
/// configuration file and, where the ignore list changes, its new text.
#[derive(Debug)]
pub struct Initialization {
    pub config: Configuration,
    pub document: String,
    pub ignore_list: Option<String>,
}

impl ConfigManager {
    /// The configuration of a project that is being set up: for the author
    /// and the license that were asked for, the year that it is, and the
    /// directory that the command runs in.
    pub fn ask_config(author: String, license: String, year: i32, cwd: &WorkingDirectory) -> (config:
        Configuration)
        ensures
            config@ == fresh_spec(author@, license@, year, cwd.path@, cwd.name@),
    {
        let mut data = ProjectData::new();
        data.insert("license".to_owned(), license);
        data.insert("year".to_owned(), decimal(year as i64));
        Configuration {
            settings: ProjectIdentity {
                project: cwd.name.clone(),
                path: cwd.path.clone(),
                author,
            },
            data,
        }
    }

    /// Whether a lowercase answer says yes.
    pub fn affirms(answer: &str) -> (yes: bool)
        ensures
            yes == begins_with_y(answer@),
    {
        let letters = to_chars(answer);
        letters.len() > 0 && letters[0] == 'y'
    }

    /// Whether the answer to the question if the configuration file should
    /// be kept out of version control says yes.
    pub fn wants_ignore(answer: &str) -> (yes: bool)
        ensures
            yes == says_yes(answer@),
    {
        Self::affirms(lowercase(answer).as_str())
    }

    /// What to write to the ignore list so that the configuration file is on
    /// it (`in_gitignore`) or off it, given the list's present text; `None`
    /// where nothing is to be written.
    pub fn gitignored(in_gitignore: bool, existing: Option<&str>) -> (update: Option<String>)
        ensures
            match update {
                Some(text) => ignore_spec(config_entry(), in_gitignore, optional_text(existing))
                    == Some(text@),
                None => ignore_spec(config_entry(), in_gitignore, optional_text(existing))
                    is None,
            },
    {
        crate::ignore::update("curator.json", in_gitignore, existing)
    }

    /// Sets a project up: makes its configuration, writes it out, and
    /// decides from `ignore_answer` whether the configuration file goes on
    /// the ignore list, whose present text is `ignore_list`.
    pub fn init_config(
        author: String,
        license: String,
        year: i32,
        cwd: &WorkingDirectory,
        ignore_answer: &str,
        ignore_list: Option<&str>,
    ) -> (init: Initialization)
        ensures
            init.config@ == fresh_spec(author@, license@, year, cwd.path@, cwd.name@),
            init.document@ == save_spec(init.config@),
            load_spec(Some(init.document@), cwd.path@, cwd.name@) == Ok::<
                ConfigurationView,
                ConfigError,
            >(init.config@),
            match init.ignore_list {
                Some(text) => ignore_spec(
                    config_entry(),
                    says_yes(ignore_answer@),
                    optional_text(ignore_list),
                ) == Some(text@),
                None => ignore_spec(
                    config_entry(),
                    says_yes(ignore_answer@),
                    optional_text(ignore_list),
                ) is None,
            },
    {
        let config = Self::ask_config(author, license, year, cwd);
        let document = Self::save_config(&config);
        let update = Self::gitignored(Self::wants_ignore(ignore_answer), ignore_list);
        Initialization { config, document, ignore_list: update }
    }

    /// Reports the removal of the configuration file.
    pub fn remove_config(removal: Removal) -> (report: Result<Notice, FileError>)
        ensures
            match report {
                Ok(notice) => removal_spec(config_entry(), removal) == Ok::<NoticeView, Seq<char>>(
                    notice@,
                ),
                Err(error) => removal_spec(config_entry(), removal) == Err::<
                    NoticeView,
                    Seq<char>,
                >(error.message@),
            },
    {
        removal_notice("curator.json", removal)
    }
}

/// A configuration loads only in the directory that it names: where loading
/// succeeds, the configuration holds the directory's path and name.
pub proof fn lemma_identity_binding(content: Option<Seq<char>>, path: Seq<char>, name: Seq<char>)
    ensures
        load_spec(content, path, name) is Ok ==> load_spec(content, path, name)->Ok_0.settings.path
            == path && load_spec(content, path, name)->Ok_0.settings.project == name,
{
}

/// A configuration made for one directory does not load in another: where
/// the path or the name differs from what the file records, loading fails
/// with `IdentityMismatch`.
pub proof fn lemma_moved_is_rejected(
    sections: Map<Seq<char>, Map<Seq<char>, Seq<char>>>,
    path: Seq<char>,
    name: Seq<char>,
)
    requires
        decode(sections) is Some,
        decode(sections)->0.settings.path != path || decode(sections)->0.settings.project != name,
    ensures
        adopt_spec(sections, path, name) == Err::<ConfigurationView, ConfigError>(
            ConfigError::IdentityMismatch,
        ),
{
}

/// Writing a configuration out and loading it in its own directory gives
/// the configuration back.
pub proof fn lemma_round_trip(config: ConfigurationView)
    ensures
        adopt_spec(encode(config), config.settings.path, config.settings.project) == Ok::<
            ConfigurationView,
            ConfigError,
        >(config),
{
    lemma_decode_encode(config);
}

/// For the years from 1000 to 9999 the configuration records the year in
/// four digits.
pub proof fn lemma_year_has_four_digits(
    author: Seq<char>,
    license: Seq<char>,
    year: i32,
    path: Seq<char>,
    name: Seq<char>,
)
    requires
        1000 <= year <= 9999,
    ensures
        fresh_spec(author, license, year, path, name).data["year"@].len() == 4,
{
    reveal_strlit("year");
    reveal_strlit("license");
    reveal_with_fuel(digits, 5);
    let n = year as nat;
    assert(n / 10 >= 100 && n / 10 / 10 >= 10 && n / 10 / 10 / 10 >= 1 && n / 10 / 10 / 10 < 10);
}

/// Once the configuration file is on the ignore list, putting it there
/// again changes nothing.
pub proof fn lemma_ignored_once(existing: Option<Seq<char>>)
    requires
        ignore_spec(config_entry(), true, existing) is Some,
    ensures
        ignore_spec(config_entry(), true, ignore_spec(config_entry(), true, existing)) is None,
{
    reveal_strlit("curator.json");
    let entry = config_entry();
    assert(entry.len() == 12);
    assert(entry[0] == 'c' && entry.last() == 'n');
    assert(is_entry(entry));
    lemma_listing_settles(entry, existing);
}

} // verus!
