//! The configuration of a whole deployment: APIs, databases and static
//! files, with the variables replaced and the names checked.

pub use crate::config::{ConfigVariable, ConfigVariableError};
use crate::config::cloud_config::{all_distinct, lowercase_names, lowercased};
use crate::config::{substitute, ConfigVariables, ContainsVariables};
use crate::text::{distinct, lowercase, same_text, texts, to_lower};
use vstd::prelude::*;
use vstd::string::*;

verus! {

/// An API: its name, where its definitions lie, its domain, and what its
/// routes begin with.
#[derive(Debug)]
pub struct ApiConfig {
    pub name: String,
    pub root: String,
    pub domain: String,
    pub prefix: Option<String>,
}

impl ContainsVariables for ApiConfig {
    open spec fn substituted(&self, vars: Seq<(Seq<char>, Seq<char>)>, after: &Self) -> bool {
        &&& self.name.substituted(vars, &after.name)
        &&& self.root.substituted(vars, &after.root)
        &&& self.domain.substituted(vars, &after.domain)
        &&& self.prefix.substituted(vars, &after.prefix)
    }

    fn replace_variables(&mut self, vars: &ConfigVariables) {
        self.name.replace_variables(vars);
        self.root.replace_variables(vars);
        self.domain.replace_variables(vars);
        self.prefix.replace_variables(vars);
    }
}

/// A set of static files: its name, where the files lie, its domain, and
/// what its paths begin with.
#[derive(Debug)]
pub struct StaticConfig {
    pub name: String,
    pub root: String,
    pub domain: String,
    pub prefix: Option<String>,
}

impl ContainsVariables for StaticConfig {
    open spec fn substituted(&self, vars: Seq<(Seq<char>, Seq<char>)>, after: &Self) -> bool {
        &&& self.name.substituted(vars, &after.name)
        &&& self.root.substituted(vars, &after.root)
        &&& self.domain.substituted(vars, &after.domain)
        &&& self.prefix.substituted(vars, &after.prefix)
    }

    fn replace_variables(&mut self, vars: &ConfigVariables) {
        self.name.replace_variables(vars);
        self.root.replace_variables(vars);
        self.domain.replace_variables(vars);
        self.prefix.replace_variables(vars);
    }
}

/// The engine of a database.
#[derive(Clone, Copy, Debug, PartialEq, Eq, Structural)]
pub enum DatabaseEngine {
    Postgres,
}

/// A database as the configuration names it.
#[derive(Debug)]
pub struct DatabaseConfigRaw {
    pub name: String,
    pub engine: String,
}

impl ContainsVariables for DatabaseConfigRaw {
    open spec fn substituted(&self, vars: Seq<(Seq<char>, Seq<char>)>, after: &Self) -> bool {
        &&& self.name.substituted(vars, &after.name)
        &&& self.engine.substituted(vars, &after.engine)
    }

    fn replace_variables(&mut self, vars: &ConfigVariables) {
        self.name.replace_variables(vars);
        self.engine.replace_variables(vars);
    }
}

/// A database with its engine understood.
#[derive(Debug)]
pub struct DatabaseConfig {
    pub name: String,
    pub engine: DatabaseEngine,
}

/// The configuration as it is written.
#[derive(Debug)]
pub struct CloudConfigRaw {
    pub api: Option<Vec<ApiConfig>>,
    pub database: Option<Vec<DatabaseConfigRaw>>,
    pub static_files: Option<Vec<StaticConfig>>,
}

impl ContainsVariables for CloudConfigRaw {
    open spec fn substituted(&self, vars: Seq<(Seq<char>, Seq<char>)>, after: &Self) -> bool {
        &&& self.api.substituted(vars, &after.api)
        &&& self.database.substituted(vars, &after.database)
        &&& self.static_files.substituted(vars, &after.static_files)
    }

    fn replace_variables(&mut self, vars: &ConfigVariables) {
        self.api.replace_variables(vars);
        self.database.replace_variables(vars);
        self.static_files.replace_variables(vars);
    }
}

/// The configuration, checked.
#[derive(Debug)]
pub struct CloudConfig {
    pub api: Vec<ApiConfig>,
    pub database: Vec<DatabaseConfig>,
    pub static_files: Vec<StaticConfig>,
}

/// A part of the configuration.
#[derive(Clone, Copy, Debug, PartialEq, Eq, Structural)]
pub enum ConfigSection {
    Api,
    Database,
    StaticFiles,
}

/// Why a configuration was refused.
#[derive(Debug)]
pub enum CloudConfigError {
    /// A database, and the engine that is not known.
    InvalidDatabaseEngine(String, String),
    /// Two entries of a part share a name, whatever the capitalization.
    DuplicateNames(ConfigSection),
}

/// What an error of the configuration says.
pub enum ConfigErrorView {
    InvalidDatabaseEngine(Seq<char>, Seq<char>),
    DuplicateNames(ConfigSection),
}

impl View for CloudConfigError {
    type V = ConfigErrorView;

    open spec fn view(&self) -> ConfigErrorView {
        match self {
            CloudConfigError::InvalidDatabaseEngine(name, engine) => {
                ConfigErrorView::InvalidDatabaseEngine(name@, engine@)
            },
            CloudConfigError::DuplicateNames(section) => ConfigErrorView::DuplicateNames(*section),
        }
    }
}

impl ConfigSection {
    pub open spec fn spec_name(&self) -> Seq<char> {
        match self {
            ConfigSection::Api => "api"@,
            ConfigSection::Database => "database"@,
            ConfigSection::StaticFiles => "static"@,
        }
    }

    /// The name of the part, as the configuration writes it.
    pub fn name(&self) -> (s: &'static str)
        ensures
            s@ == self.spec_name(),
    {
        match self {
            ConfigSection::Api => "api",
            ConfigSection::Database => "database",
            ConfigSection::StaticFiles => "static",
        }
    }
}

impl ConfigErrorView {
    /// The error in words.
    pub open spec fn message(self) -> Seq<char> {
        match self {
            ConfigErrorView::InvalidDatabaseEngine(name, engine) => "The database `"@ + name
                + "`'s engine '"@ + engine + "' is not a valid type."@,
            ConfigErrorView::DuplicateNames(section) => "Not all names for "@ + section.spec_name()
                + " are unique!"@,
        }
    }
}

impl CloudConfigError {
    /// The error in words.
    pub fn message(&self) -> (s: String)
        ensures
            s@ == self@.message(),
    {
        match self {
            CloudConfigError::InvalidDatabaseEngine(name, engine) => {
                let mut s = "The database `".to_owned();
                s.append(name.as_str());
                s.append("`'s engine '");
                s.append(engine.as_str());
                s.append("' is not a valid type.");
                s
            },
            CloudConfigError::DuplicateNames(section) => {
                let mut s = "Not all names for ".to_owned();
                s.append(section.name());
                s.append(" are unique!");
                s
            },
        }
    }
}

/// The engine that a name in lower case stands for.
pub open spec fn engine_named(lower: Seq<char>) -> Option<DatabaseEngine> {
    if lower == "postgres"@ {
        Some(DatabaseEngine::Postgres)
    } else {
        None
    }
}

/// The engine that a name in lower case stands for.
pub fn engine_from_name(lower: &str) -> (r: Option<DatabaseEngine>)
    ensures
        r == engine_named(lower@),
{
    if same_text(lower, "postgres") {
        Some(DatabaseEngine::Postgres)
    } else {
        None
    }
}

impl DatabaseConfigRaw {
    /// Reads the engine, whatever its capitalization.
    pub fn parse(self) -> (r: Result<DatabaseConfig, CloudConfigError>)
        ensures
            match r {
                Ok(config) => engine_named(lowercase(self.engine@)) == Some(config.engine)
                    && config.name == self.name,
                Err(e) => engine_named(lowercase(self.engine@)) is None && e@
                    == ConfigErrorView::InvalidDatabaseEngine(self.name@, self.engine@),
            },
    {
        let lower = to_lower(self.engine.as_str());
        match engine_from_name(lower.as_str()) {
            Some(engine) => Ok(DatabaseConfig { engine, name: self.name }),
            None => Err(CloudConfigError::InvalidDatabaseEngine(self.name, self.engine)),
        }
    }
}

/// Whether no two names are the same once put in lower case.
pub fn check_all_unique(names: &Vec<String>) -> (unique: bool)
    ensures
        unique == distinct(lowercased(texts(names@))),
{
    let lower = lowercase_names(names);
    all_distinct(&lower)
}

/// What a part of the configuration lists: nothing where it is missing.
pub open spec fn listed<T>(part: Option<Vec<T>>) -> Seq<T> {
    match part {
        Some(entries) => entries@,
        None => Seq::empty(),
    }
}

/// Whether `after` holds the entries of `before`, in order, with the
/// variables replaced.
pub open spec fn each_substituted<T: ContainsVariables>(
    before: Seq<T>,
    vars: Seq<(Seq<char>, Seq<char>)>,
    after: Seq<T>,
) -> bool {
    &&& after.len() == before.len()
    &&& forall|i: int| 0 <= i < before.len() ==> (#[trigger] before[i]).substituted(vars, &after[i])
}

/// The names of the APIs, with the variables replaced.
pub open spec fn api_names(apis: Seq<ApiConfig>, vars: Seq<(Seq<char>, Seq<char>)>) -> Seq<Seq<char>> {
    Seq::new(apis.len(), |i: int| substitute(apis[i].name@, vars))
}

/// The names of the sets of static files, with the variables replaced.
pub open spec fn static_names(statics: Seq<StaticConfig>, vars: Seq<(Seq<char>, Seq<char>)>) -> Seq<
    Seq<char>,
> {
    Seq::new(statics.len(), |i: int| substitute(statics[i].name@, vars))
}

/// The names of the databases, with the variables replaced.
pub open spec fn database_names(
    databases: Seq<DatabaseConfigRaw>,
    vars: Seq<(Seq<char>, Seq<char>)>,
) -> Seq<Seq<char>> {
    Seq::new(databases.len(), |i: int| substitute(databases[i].name@, vars))
}

/// The engines of the databases, with the variables replaced.
pub open spec fn database_engines(
    databases: Seq<DatabaseConfigRaw>,
    vars: Seq<(Seq<char>, Seq<char>)>,
) -> Seq<Seq<char>> {
    Seq::new(databases.len(), |i: int| substitute(databases[i].engine@, vars))
}

/// `i` is the first engine that is not known.
pub open spec fn first_unknown_at(engines: Seq<Seq<char>>, i: int) -> bool {
    &&& 0 <= i < engines.len()
    &&& engine_named(lowercase(engines[i])) is None
    &&& forall|j: int| 0 <= j < i ==> engine_named(lowercase(#[trigger] engines[j])) is Some
}

/// Whether every engine is known.
pub open spec fn all_known(engines: Seq<Seq<char>>) -> bool {
    forall|j: int| 0 <= j < engines.len() ==> engine_named(lowercase(#[trigger] engines[j])) is Some
}

/// The first engine that is not known, where there is one.
pub open spec fn first_unknown(engines: Seq<Seq<char>>) -> int {
    choose|i: int| first_unknown_at(engines, i)
}

impl CloudConfigRaw {
    /// Why the configuration is refused, if it is. The first of these that
    /// holds decides: the engine of a database is not known; two APIs share
    /// a name; two databases do; two sets of static files do. Names are
    /// compared in lower case, after the variables are replaced.
    pub open spec fn spec_error(&self, vars: Seq<(Seq<char>, Seq<char>)>) -> Option<
        ConfigErrorView,
    > {
        let names = database_names(listed(self.database), vars);
        let engines = database_engines(listed(self.database), vars);
        if !all_known(engines) {
            Some(
                ConfigErrorView::InvalidDatabaseEngine(
                    names[first_unknown(engines)],
                    engines[first_unknown(engines)],
                ),
            )
        } else if !distinct(lowercased(api_names(listed(self.api), vars))) {
            Some(ConfigErrorView::DuplicateNames(ConfigSection::Api))
        } else if !distinct(lowercased(names)) {
            Some(ConfigErrorView::DuplicateNames(ConfigSection::Database))
        } else if !distinct(lowercased(static_names(listed(self.static_files), vars))) {
            Some(ConfigErrorView::DuplicateNames(ConfigSection::StaticFiles))
        } else {
            None
        }
    }
}

fn parse_databases(raws: Vec<DatabaseConfigRaw>, Ghost(engines): Ghost<Seq<Seq<char>>>, Ghost(names): Ghost<Seq<Seq<char>>>) -> (r: Result<
    Vec<DatabaseConfig>,
    CloudConfigError,
>)
    requires
        engines.len() == raws.len(),
        names.len() == raws.len(),
        forall|i: int| 0 <= i < raws.len() ==> (#[trigger] raws[i]).engine@ == engines[i],
        forall|i: int| 0 <= i < raws.len() ==> (#[trigger] raws[i]).name@ == names[i],
    ensures
        match r {
            Ok(databases) => all_known(engines) && databases.len() == raws.len() && forall|i: int|
                0 <= i < databases.len() ==> (#[trigger] databases[i]).name@ == names[i]
                    && engine_named(lowercase(engines[i])) == Some(databases[i].engine),
            Err(e) => !all_known(engines) && e@ == ConfigErrorView::InvalidDatabaseEngine(
                names[first_unknown(engines)],
                engines[first_unknown(engines)],
            ),
        },
{
    let mut raws = raws;
    let n = raws.len();
    let mut reversed: Vec<DatabaseConfigRaw> = Vec::new();
    while raws.len() > 0
        invariant
            raws.len() + reversed.len() == n,
            n == engines.len(),
            n == names.len(),
            forall|i: int| 0 <= i < raws.len() ==> (#[trigger] raws[i]).engine@ == engines[i],
            forall|i: int| 0 <= i < raws.len() ==> (#[trigger] raws[i]).name@ == names[i],
            forall|k: int|
                0 <= k < reversed.len() ==> (#[trigger] reversed[k]).engine@ == engines[n - 1 - k]
                    && reversed[k].name@ == names[n - 1 - k],
        decreases raws.len(),
    {
        let raw = raws.pop().unwrap();
        reversed.push(raw);
    }
    let mut databases: Vec<DatabaseConfig> = Vec::new();
    while reversed.len() > 0
        invariant
            databases.len() + reversed.len() == n,
            n == engines.len(),
            n == names.len(),
            forall|k: int|
                0 <= k < reversed.len() ==> (#[trigger] reversed[k]).engine@ == engines[n - 1 - k]
                    && reversed[k].name@ == names[n - 1 - k],
            forall|i: int|
                0 <= i < databases.len() ==> (#[trigger] databases[i]).name@ == names[i]
                    && engine_named(lowercase(engines[i])) == Some(databases[i].engine),
        decreases reversed.len(),
    {
        let ghost at = databases.len() as int;
        assert(reversed[reversed.len() - 1].engine@ == engines[n - 1 - (reversed.len() - 1)]);
        let raw = reversed.pop().unwrap();
        match raw.parse() {
            Ok(database) => {
                databases.push(database);
            },
            Err(e) => {
                proof {
                    assert forall|j: int| 0 <= j < at implies engine_named(
                        lowercase(#[trigger] engines[j]),
                    ) is Some by {
                        assert(engine_named(lowercase(engines[j])) == Some(databases[j].engine));
                    }
                    assert(first_unknown_at(engines, at));
                    let other = first_unknown(engines);
                    assert(first_unknown_at(engines, other));
                    assert(other == at);
                }
                return Err(e);
            },
        }
    }
    proof {
        assert forall|j: int| 0 <= j < engines.len() implies engine_named(
            lowercase(#[trigger] engines[j]),
        ) is Some by {
            assert(engine_named(lowercase(engines[j])) == Some(databases[j].engine));
        }
    }
    Ok(databases)
}

impl CloudConfig {
    /// Checks a configuration: replaces the variables everywhere, reads the
    /// engines of the databases, and makes sure that no two entries of a
    /// part share a name.
    pub fn new(variables: ConfigVariables, raw_config: CloudConfigRaw) -> (r: Result<
        Self,
        CloudConfigError,
    >)
        ensures
            match r {
                Ok(config) => {
                    &&& raw_config.spec_error(variables@) is None
                    &&& each_substituted(listed(raw_config.api), variables@, config.api@)
                    &&& each_substituted(
                        listed(raw_config.static_files),
                        variables@,
                        config.static_files@,
                    )
                    &&& config.database.len() == listed(raw_config.database).len()
                    &&& forall|i: int|
                        0 <= i < config.database.len() ==> (#[trigger] config.database[i]).name@
                            == substitute(listed(raw_config.database)[i].name@, variables@)
                            && engine_named(
                            lowercase(
                                substitute(listed(raw_config.database)[i].engine@, variables@),
                            ),
                        ) == Some(config.database[i].engine)
                },
                Err(e) => raw_config.spec_error(variables@) == Some(e@),
            },
    {
        let ghost before = raw_config;
        let ghost vars = variables@;
        let mut raw = raw_config;
        raw.replace_variables(&variables);

        let api = match raw.api {
            Some(api) => api,
            None => Vec::new(),
        };
        let static_files = match raw.static_files {
            Some(static_files) => static_files,
            None => Vec::new(),
        };
        let raws = match raw.database {
            Some(raws) => raws,
            None => Vec::new(),
        };
        let ghost names = database_names(listed(before.database), vars);
        let ghost engines = database_engines(listed(before.database), vars);
        proof {
            assert(each_substituted(listed(before.api), vars, api@));
            assert(each_substituted(listed(before.static_files), vars, static_files@));
            assert(each_substituted(listed(before.database), vars, raws@));
        }

        let mut api_list: Vec<String> = Vec::new();
        let mut i: usize = 0;
        while i < api.len()
            invariant
                i <= api.len(),
                each_substituted(listed(before.api), vars, api@),
                texts(api_list@) == api_names(listed(before.api), vars).take(i as int),
            decreases api.len() - i,
        {
            let ghost listed_before = texts(api_list@);
            let name = api[i].name.clone();
            assert(listed(before.api)[i as int].substituted(vars, &api[i as int]));
            api_list.push(name);
            assert(texts(api_list@) =~= listed_before.push(name@));
            assert(texts(api_list@) =~= api_names(listed(before.api), vars).take(i + 1));
            i += 1;
        }
        assert(texts(api_list@) =~= api_names(listed(before.api), vars));

        let mut static_list: Vec<String> = Vec::new();
        let mut i: usize = 0;
        while i < static_files.len()
            invariant
                i <= static_files.len(),
                each_substituted(listed(before.static_files), vars, static_files@),
                texts(static_list@) == static_names(listed(before.static_files), vars).take(
                    i as int,
                ),
            decreases static_files.len() - i,
        {
            let ghost listed_before = texts(static_list@);
            let name = static_files[i].name.clone();
            assert(listed(before.static_files)[i as int].substituted(
                vars,
                &static_files[i as int],
            ));
            static_list.push(name);
            assert(texts(static_list@) =~= listed_before.push(name@));
            assert(texts(static_list@) =~= static_names(listed(before.static_files), vars).take(
                i + 1,
            ));
            i += 1;
        }
        assert(texts(static_list@) =~= static_names(listed(before.static_files), vars));

        proof {
            assert forall|i: int| 0 <= i < raws.len() implies (#[trigger] raws[i]).engine@
                == engines[i] && raws[i].name@ == names[i] by {
                assert(listed(before.database)[i].substituted(vars, &raws[i]));
            }
        }
        let databases = match parse_databases(raws, Ghost(engines), Ghost(names)) {
            Ok(databases) => databases,
            Err(e) => {
                return Err(e);
            },
        };
        let mut database_list: Vec<String> = Vec::new();
        let mut i: usize = 0;
        while i < databases.len()
            invariant
                i <= databases.len(),
                databases.len() == names.len(),
                forall|k: int| 0 <= k < databases.len() ==> (#[trigger] databases[k]).name@ == names[k],
                texts(database_list@) == names.take(i as int),
            decreases databases.len() - i,
        {
            let ghost listed_before = texts(database_list@);
            let name = databases[i].name.clone();
            database_list.push(name);
            assert(texts(database_list@) =~= listed_before.push(name@));
            assert(texts(database_list@) =~= names.take(i + 1));
            i += 1;
        }
        assert(texts(database_list@) =~= names);

        if !check_all_unique(&api_list) {
            return Err(CloudConfigError::DuplicateNames(ConfigSection::Api));
        }
        if !check_all_unique(&database_list) {
            return Err(CloudConfigError::DuplicateNames(ConfigSection::Database));
        }
        if !check_all_unique(&static_list) {
            return Err(CloudConfigError::DuplicateNames(ConfigSection::StaticFiles));
        }
        Ok(Self { api, database: databases, static_files })
    }
}

} // verus!
