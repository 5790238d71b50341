//! Backup configuration and its three-level inheritance
//! (global, then remote source, then backup project).

use vstd::prelude::*;
use vstd::string::*;
use crate::text::{append, chars_of, drop_back, string_of, trim_back, CharClass};

verus! {

/// The whole configuration.
#[derive(Debug)]
pub struct Config {
    pub global: GlobalConfig,
    pub source: Vec<RemoteSource>,
    pub project: Vec<BackupProject>,
}

/// Settings that apply to every project unless overridden.
#[derive(Debug)]
pub struct GlobalConfig {
    pub zip_password: Option<String>,
    pub retain_count: Option<usize>,
    pub log_level: Option<String>,
    pub mysqldump_path: Option<String>,
    pub pg_dump_path: Option<String>,
    pub sqlite3_path: Option<String>,
}

/// A WebDAV remote.
#[derive(Debug)]
pub struct RemoteSource {
    pub name: String,
    pub url: String,
    pub username: String,
    pub password: String,
    pub sub_dir: Option<String>,
    pub zip_password: Option<String>,
    pub retain_count: Option<usize>,
    pub proxy: Option<String>,
}

/// One backup item; exactly one of `file`, `mysql`, `pgsql`, `sqlite` is set
/// in a valid configuration.
#[derive(Debug)]
pub struct BackupProject {
    pub name: String,
    pub source: String,
    pub sub_dir: Option<String>,
    pub zip_password: Option<String>,
    pub retain_count: Option<usize>,
    pub file: Option<FileConfig>,
    pub mysql: Option<MySqlConfig>,
    pub pgsql: Option<PgSqlConfig>,
    pub sqlite: Option<SqliteConfig>,
}

/// Local files to archive, with white-space separated glob patterns to skip.
#[derive(Debug)]
pub struct FileConfig {
    pub local_path: Vec<String>,
    pub exclude: Option<String>,
}

#[derive(Debug)]
pub struct MySqlConfig {
    pub host: String,
    pub port: u16,
    pub username: String,
    pub password: String,
    pub database: String,
    pub tables: Option<String>,
    pub ssl_mode: Option<String>,
}

/// PostgreSQL databases to dump: each entry of `database` is a database
/// name, or `database.table` for one table of it.
#[derive(Debug)]
pub struct PgSqlConfig {
    pub host: String,
    pub port: u16,
    pub username: String,
    pub password: String,
    pub database: Vec<String>,
    pub ssl_mode: Option<String>,
}

/// SQLite database files, each archived as one entry.
#[derive(Debug)]
pub struct SqliteConfig {
    pub database: Vec<String>,
}

/// Why a configuration is refused.
#[derive(Debug)]
pub enum ConfigError {
    /// A project names a source that no remote source has.
    UnknownSource { project: String, source: String },
    /// A project does not have exactly one backup kind.
    KindCount { project: String },
}

impl Default for GlobalConfig {
    fn default() -> (g: Self)
        ensures
            g.zip_password is None,
            g.retain_count is None,
            g.log_level is None,
            g.mysqldump_path is None,
            g.pg_dump_path is None,
            g.sqlite3_path is None,
    {
        GlobalConfig {
            zip_password: None,
            retain_count: None,
            log_level: None,
            mysqldump_path: None,
            pg_dump_path: None,
            sqlite3_path: None,
        }
    }
}

/// The MySQL port used when none is configured.
pub fn default_mysql_port() -> (p: u16)
    ensures
        p == 3306,
{
    3306
}

/// The PostgreSQL port used when none is configured.
pub fn default_pgsql_port() -> (p: u16)
    ensures
        p == 5432,
{
    5432
}

pub open spec fn opt_view(o: Option<String>) -> Option<Seq<char>> {
    match o {
        Some(s) => Some(s@),
        None => None,
    }
}

/// `a`, or `b` when `a` is absent.
pub open spec fn or_else<T>(a: Option<T>, b: Option<T>) -> Option<T> {
    if a is Some {
        a
    } else {
        b
    }
}

/// Position of the first source named `name`, or the number of sources.
pub open spec fn source_pos(srcs: Seq<RemoteSource>, name: Seq<char>) -> nat
    decreases srcs.len(),
{
    if srcs.len() == 0 {
        0
    } else if srcs[0].name@ == name {
        0
    } else {
        1 + source_pos(srcs.drop_first(), name)
    }
}

/// The first source named `name`.
pub open spec fn find_source(srcs: Seq<RemoteSource>, name: Seq<char>) -> Option<RemoteSource> {
    let i = source_pos(srcs, name);
    if i < srcs.len() {
        Some(srcs[i as int])
    } else {
        None
    }
}

pub open spec fn source_known(c: Config, p: BackupProject) -> bool {
    exists|i: int| 0 <= i < c.source@.len() && #[trigger] c.source@[i].name@ == p.source@
}

/// How many backup kinds a project sets.
pub open spec fn kind_count(p: BackupProject) -> int {
    (if p.file is Some { 1int } else { 0int }) + (if p.mysql is Some { 1int } else { 0int }) + (
    if p.pgsql is Some { 1int } else { 0int }) + (if p.sqlite is Some { 1int } else { 0int })
}

pub open spec fn project_valid(c: Config, p: BackupProject) -> bool {
    source_known(c, p) && kind_count(p) == 1
}

pub open spec fn config_valid(c: Config) -> bool {
    forall|i: int| 0 <= i < c.project@.len() ==> project_valid(c, #[trigger] c.project@[i])
}

/// The error that the first invalid project `p` gives.
pub open spec fn project_error(c: Config, p: BackupProject, e: ConfigError) -> bool {
    if !source_known(c, p) {
        e matches ConfigError::UnknownSource { project, source } && project@ == p.name@ && source@
            == p.source@
    } else {
        e matches ConfigError::KindCount { project } && project@ == p.name@
    }
}

pub open spec fn spec_resolve_password(c: Config, p: BackupProject) -> Option<Seq<char>> {
    let from_source = match find_source(c.source@, p.source@) {
        Some(s) => opt_view(s.zip_password),
        None => None,
    };
    or_else(opt_view(p.zip_password), or_else(from_source, opt_view(c.global.zip_password)))
}

pub open spec fn spec_resolve_retain_count(c: Config, p: BackupProject) -> usize {
    let from_source = match find_source(c.source@, p.source@) {
        Some(s) => s.retain_count,
        None => None,
    };
    match or_else(p.retain_count, or_else(from_source, c.global.retain_count)) {
        Some(n) => n,
        None => 0,
    }
}

pub open spec fn spec_resolve_sub_dir(c: Config, p: BackupProject) -> Seq<char> {
    let from_source = match find_source(c.source@, p.source@) {
        Some(s) => opt_view(s.sub_dir),
        None => None,
    };
    match or_else(opt_view(p.sub_dir), from_source) {
        Some(d) => drop_back(d, CharClass::Exactly('/')),
        None => Seq::empty(),
    }
}

pub proof fn lemma_source_pos(srcs: Seq<RemoteSource>, name: Seq<char>)
    ensures
        source_pos(srcs, name) <= srcs.len(),
        source_pos(srcs, name) < srcs.len() ==> srcs[source_pos(srcs, name) as int].name@ == name,
        forall|k: int| 0 <= k < source_pos(srcs, name) ==> srcs[k].name@ != name,
    decreases srcs.len(),
{
    if srcs.len() > 0 && srcs[0].name@ != name {
        lemma_source_pos(srcs.drop_first(), name);
        assert forall|k: int| 0 <= k < source_pos(srcs, name) implies srcs[k].name@ != name by {
            if k > 0 {
                assert(srcs[k] == srcs.drop_first()[k - 1]);
            }
        }
    }
}

/// A copy of an optional string.
pub fn clone_opt(o: &Option<String>) -> (r: Option<String>)
    ensures
        r == *o,
{
    match o {
        Some(s) => Some(s.clone()),
        None => None,
    }
}

impl Config {
    /// Index of the first source named `name`.
    pub fn source_index(&self, name: &String) -> (r: Option<usize>)
        ensures
            match r {
                Some(i) => i < self.source@.len() && find_source(self.source@, name@) == Some(
                    self.source@[i as int],
                ),
                None => find_source(self.source@, name@) is None,
            },
            (r is Some) == (exists|i: int|
                0 <= i < self.source@.len() && #[trigger] self.source@[i].name@ == name@),
    {
        let mut i: usize = 0;
        while i < self.source.len()
            invariant
                i <= self.source@.len(),
                forall|k: int| 0 <= k < i ==> self.source@[k].name@ != name@,
            decreases self.source.len() - i,
        {
            if self.source[i].name == *name {
                proof {
                    lemma_source_pos(self.source@, name@);
                    let f: int = source_pos(self.source@, name@) as int;
                    if f < i {
                        assert(self.source@[f].name@ != name@);
                    }
                    if i < f {
                        assert(self.source@[i as int].name@ != name@);
                    }
                }
                return Some(i);
            }
            i = i + 1;
        }
        proof {
            lemma_source_pos(self.source@, name@);
            let f: int = source_pos(self.source@, name@) as int;
            if f < self.source@.len() {
                assert(self.source@[f].name@ != name@);
            }
        }
        None
    }

    /// Checks that every project names a known source and has exactly one
    /// backup kind; the error names the first project that does not.
    pub fn validate(&self) -> (r: Result<(), ConfigError>)
        ensures
            r is Ok <==> config_valid(*self),
            r matches Err(e) ==> exists|i: int|
                0 <= i < self.project@.len() && (forall|j: int|
                    0 <= j < i ==> project_valid(*self, #[trigger] self.project@[j])) && !project_valid(
                    *self,
                    self.project@[i],
                ) && project_error(*self, self.project@[i], e),
    {
        let mut i: usize = 0;
        while i < self.project.len()
            invariant
                i <= self.project@.len(),
                forall|j: int| 0 <= j < i ==> project_valid(*self, #[trigger] self.project@[j]),
            decreases self.project.len() - i,
        {
            let project = &self.project[i];
            if self.source_index(&project.source).is_none() {
                return Err(
                    ConfigError::UnknownSource {
                        project: project.name.clone(),
                        source: project.source.clone(),
                    },
                );
            }
            let mut count: usize = 0;
            if project.file.is_some() {
                count = count + 1;
            }
            if project.mysql.is_some() {
                count = count + 1;
            }
            if project.pgsql.is_some() {
                count = count + 1;
            }
            if project.sqlite.is_some() {
                count = count + 1;
            }
            if count != 1 {
                return Err(ConfigError::KindCount { project: project.name.clone() });
            }
            i = i + 1;
        }
        Ok(())
    }

    /// The ZIP password of `project`: its own, else its source's, else the
    /// global one.
    pub fn resolve_password(&self, project: &BackupProject) -> (r: Option<String>)
        ensures
            opt_view(r) == spec_resolve_password(*self, *project),
    {
        if let Some(pwd) = &project.zip_password {
            return Some(pwd.clone());
        }
        if let Some(i) = self.source_index(&project.source) {
            if let Some(pwd) = &self.source[i].zip_password {
                return Some(pwd.clone());
            }
        }
        clone_opt(&self.global.zip_password)
    }

    /// How many backups to keep for `project`: its own count, else its
    /// source's, else the global one, else 0 (keep all).
    pub fn resolve_retain_count(&self, project: &BackupProject) -> (r: usize)
        ensures
            r == spec_resolve_retain_count(*self, *project),
    {
        if let Some(count) = project.retain_count {
            return count;
        }
        if let Some(i) = self.source_index(&project.source) {
            if let Some(count) = self.source[i].retain_count {
                return count;
            }
        }
        match self.global.retain_count {
            Some(n) => n,
            None => 0,
        }
    }

    /// The remote subdirectory of `project` (its own, else its source's)
    /// without trailing slashes; empty when neither is set.
    pub fn resolve_sub_dir(&self, project: &BackupProject) -> (r: String)
        ensures
            r@ == spec_resolve_sub_dir(*self, *project),
    {
        if let Some(dir) = &project.sub_dir {
            let v = chars_of(dir.as_str());
            return string_of(&trim_back(&v, CharClass::Exactly('/')));
        }
        if let Some(i) = self.source_index(&project.source) {
            if let Some(dir) = &self.source[i].sub_dir {
                let v = chars_of(dir.as_str());
                return string_of(&trim_back(&v, CharClass::Exactly('/')));
            }
        }
        String::new()
    }

    /// The `mysqldump` program: the configured path, else `mysqldump`.
    pub fn resolve_mysqldump_path(&self) -> (r: String)
        ensures
            r@ == (match self.global.mysqldump_path {
                Some(p) => p@,
                None => "mysqldump"@,
            }),
    {
        match &self.global.mysqldump_path {
            Some(p) => p.clone(),
            None => String::from_str("mysqldump"),
        }
    }

    /// The `pg_dump` program: the configured path, else `pg_dump`.
    pub fn resolve_pg_dump_path(&self) -> (r: String)
        ensures
            r@ == (match self.global.pg_dump_path {
                Some(p) => p@,
                None => "pg_dump"@,
            }),
    {
        match &self.global.pg_dump_path {
            Some(p) => p.clone(),
            None => String::from_str("pg_dump"),
        }
    }

    /// The `sqlite3` program: the configured path, else `sqlite3`.
    pub fn resolve_sqlite3_path(&self) -> (r: String)
        ensures
            r@ == (match self.global.sqlite3_path {
                Some(p) => p@,
                None => "sqlite3"@,
            }),
    {
        match &self.global.sqlite3_path {
            Some(p) => p.clone(),
            None => String::from_str("sqlite3"),
        }
    }
}

/// The source settings of project `p`, if its source exists.
pub open spec fn project_source(c: Config, p: BackupProject) -> Option<RemoteSource> {
    find_source(c.source@, p.source@)
}

/// Three-level inheritance: a project's own ZIP password, retention count
/// and subdirectory win; when the project leaves one unset, its source's
/// applies; when both leave it unset, the global one applies (no
/// subdirectory and a count of 0 when none is set anywhere).
pub proof fn lemma_inheritance(c: Config, p: BackupProject)
    ensures
        p.zip_password is Some ==> spec_resolve_password(c, p) == opt_view(p.zip_password),
        p.retain_count is Some ==> spec_resolve_retain_count(c, p) == p.retain_count.unwrap(),
        p.sub_dir is Some ==> spec_resolve_sub_dir(c, p) == drop_back(
            p.sub_dir.unwrap()@,
            CharClass::Exactly('/'),
        ),
        match project_source(c, p) {
            Some(s) => {
                &&& (p.zip_password is None && s.zip_password is Some) ==> spec_resolve_password(c, p)
                    == opt_view(s.zip_password)
                &&& (p.retain_count is None && s.retain_count is Some) ==> spec_resolve_retain_count(
                    c,
                    p,
                ) == s.retain_count.unwrap()
                &&& (p.sub_dir is None && s.sub_dir is Some) ==> spec_resolve_sub_dir(c, p)
                    == drop_back(s.sub_dir.unwrap()@, CharClass::Exactly('/'))
            },
            None => true,
        },
        (p.zip_password is None && (project_source(c, p) is None || project_source(
            c,
            p,
        ).unwrap().zip_password is None)) ==> spec_resolve_password(c, p) == opt_view(
            c.global.zip_password,
        ),
        (p.retain_count is None && (project_source(c, p) is None || project_source(
            c,
            p,
        ).unwrap().retain_count is None)) ==> spec_resolve_retain_count(c, p) == (
        match c.global.retain_count {
            Some(n) => n,
            None => 0,
        }),
        (p.sub_dir is None && (project_source(c, p) is None || project_source(
            c,
            p,
        ).unwrap().sub_dir is None)) ==> spec_resolve_sub_dir(c, p).len() == 0,
{
}

impl ConfigError {
    /// The error as a sentence.
    pub fn message(&self) -> (m: String)
        ensures
            m@ == (match self {
                ConfigError::UnknownSource { project, source } => "project '"@ + project@
                    + "' references unknown source '"@ + source@ + "'"@,
                ConfigError::KindCount { project } => "project '"@ + project@
                    + "' must have exactly one of: file, mysql, pgsql, sqlite"@,
            }),
    {
        let mut v = chars_of("project '");
        match self {
            ConfigError::UnknownSource { project, source } => {
                append(&mut v, &chars_of(project.as_str()));
                append(&mut v, &chars_of("' references unknown source '"));
                append(&mut v, &chars_of(source.as_str()));
                append(&mut v, &chars_of("'"));
            },
            ConfigError::KindCount { project } => {
                append(&mut v, &chars_of(project.as_str()));
                append(&mut v, &chars_of("' must have exactly one of: file, mysql, pgsql, sqlite"));
            },
        }
        string_of(&v)
    }
}

} // verus!
