use webdav_backup::config::{BackupProject, Config, GlobalConfig, MySqlConfig, PgSqlConfig, RemoteSource, SqliteConfig};
use webdav_backup::exclude::{build_exclude_set, pattern_globs, ExcludeError};
use webdav_backup::plan::{
    archive_name_prefix, archive_target, concat_dumps, file_entry_name, parse_db_table, join_remote, mysql_entry_name, mysqldump_args,
    pg_dump_args, pg_dump_env, pg_entry_name, plan_file_entry, plan_project, project_kind,
    relative_path, sqlite_backup_args, sqlite_entry_name, BackupKind,
};
use webdav_backup::stamp::{decimal_digits, padded_digits, Stamp};

fn now() -> Stamp {
    Stamp { year: 2024, month: 3, day: 9, hour: 4, minute: 5, second: 6, nanosecond: 0 }
}

fn mysql(tables: Option<&str>, ssl: Option<&str>) -> MySqlConfig {
    MySqlConfig {
        host: "db.local".to_string(),
        port: 3307,
        username: "root".to_string(),
        password: "pw".to_string(),
        database: "shop".to_string(),
        tables: tables.map(|s| s.to_string()),
        ssl_mode: ssl.map(|s| s.to_string()),
    }
}

fn pg(databases: &[&str], ssl: Option<&str>) -> PgSqlConfig {
    PgSqlConfig {
        host: "pg".to_string(),
        port: 5432,
        username: "postgres".to_string(),
        password: "pw".to_string(),
        database: databases.iter().map(|s| s.to_string()).collect(),
        ssl_mode: ssl.map(|s| s.to_string()),
    }
}

fn project() -> BackupProject {
    BackupProject {
        name: "db".to_string(),
        source: "nas".to_string(),
        sub_dir: None,
        zip_password: None,
        retain_count: None,
        file: None,
        mysql: Some(mysql(None, None)),
        pgsql: None,
        sqlite: None,
    }
}

fn config(sub_dir: Option<&str>) -> Config {
    Config {
        global: GlobalConfig {
            zip_password: Some("g".to_string()),
            retain_count: Some(3),
            log_level: None,
            mysqldump_path: None,
            pg_dump_path: Some("/usr/bin/pg_dump".to_string()),
            sqlite3_path: None,
        },
        source: vec![RemoteSource {
            name: "nas".to_string(),
            url: "https://x".to_string(),
            username: "u".to_string(),
            password: "p".to_string(),
            sub_dir: sub_dir.map(|s| s.to_string()),
            zip_password: None,
            retain_count: None,
            proxy: None,
        }],
        project: vec![],
    }
}

#[test]
fn plan_uses_backup_dir_by_default() {
    let p = plan_project(&config(None), &project());
    assert_eq!(p.kind, BackupKind::MySql);
    assert_eq!(p.password.as_deref(), Some("g"));
    assert_eq!(p.retain_count, 3);
    assert_eq!(p.remote_dir, "backup");
    assert_eq!(p.tool.as_deref(), Some("mysqldump"));
    let (name, path) = archive_target(&p.remote_dir, &now());
    assert_eq!(name, "backup_20240309_040506.zip");
    assert_eq!(path, "backup/backup_20240309_040506.zip");
}

#[test]
fn plan_uses_source_dir() {
    let p = plan_project(&config(Some("nas/db/")), &project());
    assert_eq!(p.remote_dir, "nas/db");
    assert_eq!(archive_target(&p.remote_dir, &now()).1, "nas/db/backup_20240309_040506.zip");
    let p2 = plan_project(&config(Some("/")), &project());
    assert_eq!(p2.remote_dir, "backup");
}

#[test]
fn plan_tools_per_kind() {
    let mut p = project();
    p.mysql = None;
    p.pgsql = Some(pg(&["app"], None));
    assert_eq!(plan_project(&config(None), &p).tool.as_deref(), Some("/usr/bin/pg_dump"));
    p.pgsql = None;
    p.sqlite = Some(SqliteConfig { database: vec!["a.db".to_string()] });
    assert_eq!(project_kind(&p), BackupKind::Sqlite);
    assert_eq!(plan_project(&config(None), &p).tool.as_deref(), Some("sqlite3"));
    p.sqlite = None;
    assert_eq!(project_kind(&p), BackupKind::Unset);
    assert_eq!(plan_project(&config(None), &p).tool, None);
}

#[test]
fn mysqldump_arguments() {
    assert_eq!(
        mysqldump_args(&mysql(None, None)),
        vec!["--host=db.local", "--port=3307", "--user=root", "--password=pw", "--single-transaction", "--routines", "--triggers", "shop"]
    );
    assert_eq!(
        mysqldump_args(&mysql(Some(" users  orders\t"), Some("REQUIRED"))),
        vec!["--host=db.local", "--port=3307", "--user=root", "--password=pw", "--single-transaction", "--routines", "--triggers", "--ssl-mode=REQUIRED", "shop", "users", "orders"]
    );
    assert_eq!(mysqldump_args(&mysql(Some("*"), None)).len(), 8);
}

#[test]
fn pg_dump_arguments_and_env() {
    let c = pg(&["app", "shop.orders"], None);
    assert_eq!(
        pg_dump_args(&c, "app"),
        vec!["--host=pg", "--port=5432", "--username=postgres", "--dbname=app", "--no-password", "--clean", "--if-exists"]
    );
    assert_eq!(
        pg_dump_args(&c, "shop.orders"),
        vec!["--host=pg", "--port=5432", "--username=postgres", "--dbname=shop", "--no-password", "--clean", "--if-exists", "--table", "orders"]
    );
    assert_eq!(pg_dump_args(&c, "shop.public.orders").last().unwrap(), "public.orders");
    assert_eq!(pg_dump_env(&c), vec![("PGPASSWORD".to_string(), "pw".to_string())]);
    assert_eq!(
        pg_dump_env(&pg(&["app"], Some("require"))),
        vec![("PGSSLMODE".to_string(), "require".to_string()), ("PGPASSWORD".to_string(), "pw".to_string())]
    );
}

#[test]
fn db_table_entries() {
    assert_eq!(parse_db_table("shop.orders"), ("shop".to_string(), Some("orders".to_string())));
    assert_eq!(parse_db_table("shop"), ("shop".to_string(), None));
    assert_eq!(parse_db_table("shop."), ("shop".to_string(), Some(String::new())));
}

#[test]
fn dumps_concatenate_in_order() {
    let outs = vec![b"-- a\n".to_vec(), Vec::new(), b"-- b\n".to_vec()];
    assert_eq!(concat_dumps(&outs), b"-- a\n-- b\n".to_vec());
    assert!(concat_dumps(&Vec::new()).is_empty());
}

#[test]
fn dump_entry_names() {
    assert_eq!(mysql_entry_name("shop", &now()), "shop_20240309_040506.sql");
    assert_eq!(pg_entry_name(&now()), "backup_20240309_040506.sql");
    assert_eq!(archive_name_prefix(), "backup_");
    assert_eq!(join_remote("a/b", "c.zip"), "a/b/c.zip");
}

#[test]
fn sqlite_arguments_and_names() {
    assert_eq!(sqlite_backup_args("/var/app.db", "/tmp/x"), vec!["/var/app.db", ".backup '/tmp/x'"]);
    assert_eq!(sqlite_entry_name("/var/data/app.db"), "app.db");
    assert_eq!(sqlite_entry_name("/"), "backup.db");
    assert_eq!(sqlite_entry_name(".."), "backup.db");
    assert_eq!(sqlite_entry_name("data//x.db"), "x.db");
    assert_eq!(sqlite_entry_name("a/./b.db/."), "b.db");
    assert_eq!(sqlite_entry_name("a/b/.."), "backup.db");
}

#[test]
fn file_entry_names() {
    assert_eq!(file_entry_name("D:\\data", "sub\\config.ini"), "D__data/sub/config.ini");
    assert_eq!(file_entry_name("/srv/www", "index.html"), "_srv_www/index.html");
    assert_eq!(file_entry_name("/etc/hosts", ""), "_etc_hosts");
    assert_eq!(relative_path("a\\b/c"), "a/b/c");
}

#[test]
fn exclusion_patterns() {
    let set = build_exclude_set(Some("*.log  node_modules/**\n.git/**")).ok().unwrap();
    assert_eq!(plan_file_entry(&set, "/p", "app.log"), None);
    assert_eq!(plan_file_entry(&set, "/p", "node_modules\\x\\y.js"), None);
    assert_eq!(plan_file_entry(&set, "/p", "src/main.rs").as_deref(), Some("_p/src/main.rs"));
    let none = build_exclude_set(None).ok().unwrap();
    assert!(!none.is_excluded("anything"));
    assert!(matches!(build_exclude_set(Some("ok a[")), Err(ExcludeError::Pattern(p, _)) if p == "a["));
}

#[test]
fn gitignore_style_patterns() {
    let set = build_exclude_set(Some("node_modules /build target/ docs/*.tmp")).ok().unwrap();
    assert!(set.is_excluded("node_modules/index.js"));
    assert!(set.is_excluded("web/node_modules/a.js"));
    assert!(set.is_excluded("node_modules"));
    assert!(set.is_excluded("build/out.o"));
    assert!(!set.is_excluded("src/build/out.o"));
    assert!(set.is_excluded("target/debug/x"));
    assert!(set.is_excluded("crates/target/x"));
    assert!(!set.is_excluded("target"));
    assert!(set.is_excluded("docs/a.tmp"));
    assert!(!set.is_excluded("x/docs/a.tmp"));
    assert!(!set.is_excluded("src/main.rs"));
    let globs: Vec<String> = pattern_globs(&"node_modules".chars().collect())
        .into_iter()
        .map(|g| g.into_iter().collect())
        .collect();
    assert_eq!(globs, vec!["**/node_modules", "**/node_modules/**"]);
}

#[test]
fn stamp_text_forms() {
    assert_eq!(now().compact_text().into_iter().collect::<String>(), "20240309_040506");
    let early = Stamp { year: 7, month: 1, day: 2, hour: 3, minute: 4, second: 5, nanosecond: 0 };
    assert_eq!(early.compact_text().into_iter().collect::<String>(), "00070102_030405");
    let far = Stamp { year: 12345, month: 12, day: 31, hour: 23, minute: 59, second: 59, nanosecond: 0 };
    assert_eq!(far.compact_text().into_iter().collect::<String>(), "+123451231_235959");
    let bc = Stamp { year: -44, month: 3, day: 15, hour: 0, minute: 0, second: 0, nanosecond: 0 };
    assert_eq!(bc.compact_text().into_iter().collect::<String>(), "-00440315_000000");
    assert_eq!(decimal_digits(0), vec!['0']);
    assert_eq!(padded_digits(42, 5).into_iter().collect::<String>(), "00042");
    assert_eq!(padded_digits(123456, 4).into_iter().collect::<String>(), "123456");
}

#[test]
fn exclude_error_messages() {
    assert_eq!(
        ExcludeError::Pattern("a[".to_string(), "unclosed character class".to_string()).message(),
        "invalid exclude pattern 'a[': unclosed character class"
    );
    assert_eq!(
        ExcludeError::Build("too big".to_string()).message(),
        "cannot compile the exclude patterns: too big"
    );
    match build_exclude_set(Some("a[")) {
        Err(ExcludeError::Pattern(p, why)) => {
            assert_eq!(p, "a[");
            assert!(!why.is_empty());
        },
        _ => panic!("expected a refused pattern"),
    }
}
