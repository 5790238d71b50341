use webdav_backup::plan::{project_kind, BackupKind};
use webdav_backup::config::{
    default_mysql_port, default_pgsql_port, BackupProject, Config, ConfigError, FileConfig,
    GlobalConfig, MySqlConfig, RemoteSource, SqliteConfig,
};

fn source(name: &str, sub_dir: Option<&str>, pwd: Option<&str>, retain: Option<usize>) -> RemoteSource {
    RemoteSource {
        name: name.to_string(),
        url: "https://dav.example.com/".to_string(),
        username: "u".to_string(),
        password: "p".to_string(),
        sub_dir: sub_dir.map(|s| s.to_string()),
        zip_password: pwd.map(|s| s.to_string()),
        retain_count: retain,
        proxy: None,
    }
}

fn file_project(name: &str, src: &str) -> BackupProject {
    BackupProject {
        name: name.to_string(),
        source: src.to_string(),
        sub_dir: None,
        zip_password: None,
        retain_count: None,
        file: Some(FileConfig { local_path: vec!["/data".to_string()], exclude: None }),
        mysql: None,
        pgsql: None,
        sqlite: None,
    }
}

fn mysql() -> MySqlConfig {
    MySqlConfig {
        host: "db".to_string(),
        port: 3306,
        username: "root".to_string(),
        password: "pw".to_string(),
        database: "shop".to_string(),
        tables: None,
        ssl_mode: None,
    }
}

fn config(global: GlobalConfig, sources: Vec<RemoteSource>, projects: Vec<BackupProject>) -> Config {
    Config { global, source: sources, project: projects }
}

#[test]
fn default_ports_are_standard() {
    assert_eq!(default_mysql_port(), 3306);
    assert_eq!(default_pgsql_port(), 5432);
}

#[test]
fn global_default_sets_nothing() {
    let g = GlobalConfig::default();
    assert!(g.zip_password.is_none() && g.retain_count.is_none() && g.log_level.is_none());
    assert!(g.mysqldump_path.is_none() && g.pg_dump_path.is_none() && g.sqlite3_path.is_none());
}

#[test]
fn validate_accepts_good_config() {
    let c = config(GlobalConfig::default(), vec![source("nas", None, None, None)], vec![file_project("docs", "nas")]);
    assert!(c.validate().is_ok());
}

#[test]
fn validate_reports_unknown_source() {
    let c = config(
        GlobalConfig::default(),
        vec![source("nas", None, None, None)],
        vec![file_project("docs", "nas"), file_project("photos", "cloud")],
    );
    match c.validate() {
        Err(ConfigError::UnknownSource { project, source }) => {
            assert_eq!(project, "photos");
            assert_eq!(source, "cloud");
        }
        other => panic!("unexpected {:?}", other),
    }
}

#[test]
fn validate_reports_two_kinds() {
    let mut p = file_project("both", "nas");
    p.mysql = Some(mysql());
    let c = config(GlobalConfig::default(), vec![source("nas", None, None, None)], vec![p]);
    match c.validate() {
        Err(ConfigError::KindCount { project }) => assert_eq!(project, "both"),
        other => panic!("unexpected {:?}", other),
    }
}

#[test]
fn validate_reports_no_kind() {
    let mut p = file_project("none", "nas");
    p.file = None;
    let c = config(GlobalConfig::default(), vec![source("nas", None, None, None)], vec![p]);
    assert!(matches!(c.validate(), Err(ConfigError::KindCount { .. })));
}

#[test]
fn validate_accepts_sqlite_project() {
    let mut p = file_project("lite", "nas");
    p.file = None;
    p.sqlite = Some(SqliteConfig { database: vec!["/var/app.db".to_string()] });
    let c = config(GlobalConfig::default(), vec![source("nas", None, None, None)], vec![p]);
    assert!(c.validate().is_ok());
}

#[test]
fn password_inherits_through_three_levels() {
    let mut g = GlobalConfig::default();
    g.zip_password = Some("global".to_string());
    let c = config(
        g,
        vec![source("a", None, Some("src"), None), source("b", None, None, None)],
        vec![],
    );
    let mut own = file_project("x", "a");
    own.zip_password = Some("own".to_string());
    assert_eq!(c.resolve_password(&own).as_deref(), Some("own"));
    assert_eq!(c.resolve_password(&file_project("y", "a")).as_deref(), Some("src"));
    assert_eq!(c.resolve_password(&file_project("z", "b")).as_deref(), Some("global"));
    assert_eq!(c.resolve_password(&file_project("w", "missing")).as_deref(), Some("global"));
}

#[test]
fn password_absent_everywhere() {
    let c = config(GlobalConfig::default(), vec![source("a", None, None, None)], vec![]);
    assert_eq!(c.resolve_password(&file_project("x", "a")), None);
}

#[test]
fn retain_count_inherits_and_defaults_to_zero() {
    let mut g = GlobalConfig::default();
    let c0 = config(g.clone_for_test(), vec![source("a", None, None, None)], vec![]);
    assert_eq!(c0.resolve_retain_count(&file_project("x", "a")), 0);
    g.retain_count = Some(9);
    let c = config(g, vec![source("a", None, None, Some(4)), source("b", None, None, None)], vec![]);
    let mut own = file_project("x", "a");
    own.retain_count = Some(2);
    assert_eq!(c.resolve_retain_count(&own), 2);
    assert_eq!(c.resolve_retain_count(&file_project("y", "a")), 4);
    assert_eq!(c.resolve_retain_count(&file_project("z", "b")), 9);
}

trait CloneForTest {
    fn clone_for_test(&self) -> Self;
}

impl CloneForTest for GlobalConfig {
    fn clone_for_test(&self) -> Self {
        GlobalConfig {
            zip_password: self.zip_password.clone(),
            retain_count: self.retain_count,
            log_level: self.log_level.clone(),
            mysqldump_path: self.mysqldump_path.clone(),
            pg_dump_path: self.pg_dump_path.clone(),
            sqlite3_path: self.sqlite3_path.clone(),
        }
    }
}

#[test]
fn sub_dir_trims_trailing_slashes() {
    let c = config(
        GlobalConfig::default(),
        vec![source("a", Some("nas/backups//"), None, None), source("b", None, None, None)],
        vec![],
    );
    let mut own = file_project("x", "a");
    own.sub_dir = Some("mine/".to_string());
    assert_eq!(c.resolve_sub_dir(&own), "mine");
    assert_eq!(c.resolve_sub_dir(&file_project("y", "a")), "nas/backups");
    assert_eq!(c.resolve_sub_dir(&file_project("z", "b")), "");
}

#[test]
fn dump_paths_default_to_program_names() {
    let mut c = config(GlobalConfig::default(), vec![], vec![]);
    assert_eq!(c.resolve_mysqldump_path(), "mysqldump");
    assert_eq!(c.resolve_pg_dump_path(), "pg_dump");
    assert_eq!(c.resolve_sqlite3_path(), "sqlite3");
    c.global.mysqldump_path = Some("/opt/mysql/bin/mysqldump".to_string());
    c.global.pg_dump_path = Some("C:\\pg\\pg_dump.exe".to_string());
    c.global.sqlite3_path = Some("/usr/local/bin/sqlite3".to_string());
    assert_eq!(c.resolve_mysqldump_path(), "/opt/mysql/bin/mysqldump");
    assert_eq!(c.resolve_pg_dump_path(), "C:\\pg\\pg_dump.exe");
    assert_eq!(c.resolve_sqlite3_path(), "/usr/local/bin/sqlite3");
}

#[test]
fn source_index_finds_first_match() {
    let c = config(
        GlobalConfig::default(),
        vec![source("a", None, None, None), source("b", None, None, None), source("b", None, None, None)],
        vec![],
    );
    assert_eq!(c.source_index(&"b".to_string()), Some(1));
    assert_eq!(c.source_index(&"c".to_string()), None);
}

#[test]
fn config_error_messages() {
    let e = ConfigError::UnknownSource { project: "docs".to_string(), source: "nas".to_string() };
    assert_eq!(e.message(), "project 'docs' references unknown source 'nas'");
    let k = ConfigError::KindCount { project: "x".to_string() };
    assert_eq!(k.message(), "project 'x' must have exactly one of: file, mysql, pgsql, sqlite");
}

#[test]
fn valid_projects_have_source_and_kind() {
    let mut p2 = file_project("db", "nas");
    p2.file = None;
    p2.mysql = Some(mysql());
    let c = config(GlobalConfig::default(), vec![source("nas", None, None, None)], vec![file_project("docs", "nas"), p2]);
    assert!(c.validate().is_ok());
    assert_eq!(project_kind(&c.project[0]), BackupKind::File);
    assert_eq!(project_kind(&c.project[1]), BackupKind::MySql);
    assert!(c.source_index(&c.project[1].source).is_some());
}
