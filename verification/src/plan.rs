//! What one backup run does, decided ahead of the I/O: where the archive
//! goes and under which name, with which password, which dump program to
//! run with which arguments, and how entries are named inside the archive.

use vstd::prelude::*;
use crate::config::{
    opt_view, spec_resolve_password, spec_resolve_retain_count, spec_resolve_sub_dir,
    BackupProject, Config, MySqlConfig, PgSqlConfig,
};
use crate::stamp::{decimal, decimal_digits, stamp_text, Stamp};
use crate::text::{
    append, chars_of, find, find_char, lacks, same, slice, split, split_words, string_of, words,
};

verus! {

/// The kind of a backup project.
#[derive(Debug, Clone, Copy, PartialEq, Eq)]
pub enum BackupKind {
    File,
    MySql,
    PgSql,
    Sqlite,
    /// A project with no kind set (refused by validation).
    Unset,
}

/// The kind of a project: the first of file, MySQL, PostgreSQL, SQLite
/// that is set.
pub open spec fn spec_kind(p: BackupProject) -> BackupKind {
    if p.file is Some {
        BackupKind::File
    } else if p.mysql is Some {
        BackupKind::MySql
    } else if p.pgsql is Some {
        BackupKind::PgSql
    } else if p.sqlite is Some {
        BackupKind::Sqlite
    } else {
        BackupKind::Unset
    }
}

/// The prefix of every archive name a run uploads.
pub open spec fn archive_prefix() -> Seq<char> {
    "backup_"@
}

/// `backup_<YYYYMMDD_HHMMSS>.zip`.
pub open spec fn archive_name(t: Stamp) -> Seq<char> {
    archive_prefix() + stamp_text(t) + ".zip"@
}

/// The remote directory: the resolved subdirectory, or `backup` when it is
/// empty.
pub open spec fn spec_remote_dir(sub_dir: Seq<char>) -> Seq<char> {
    if sub_dir.len() == 0 {
        "backup"@
    } else {
        sub_dir
    }
}

/// Everything a backup run needs to know before it starts.
#[derive(Debug)]
pub struct ProjectPlan {
    pub kind: BackupKind,
    /// The ZIP password, if the archive is encrypted.
    pub password: Option<String>,
    /// How many archives to keep remotely; 0 keeps all.
    pub retain_count: usize,
    pub remote_dir: String,
    /// The dump program for database kinds.
    pub tool: Option<String>,
}

/// The archive name for a run started at `t`.
pub fn archive_name_for(t: &Stamp) -> (r: String)
    ensures
        r@ == archive_name(*t),
{
    let mut v = chars_of("backup_");
    append(&mut v, &t.compact_text());
    append(&mut v, &chars_of(".zip"));
    string_of(&v)
}

/// The prefix that retention looks for (`backup_`).
pub fn archive_name_prefix() -> (r: String)
    ensures
        r@ == archive_prefix(),
{
    string_of(&chars_of("backup_"))
}

/// `dir/name`.
pub fn join_remote(dir: &str, name: &str) -> (r: String)
    ensures
        r@ == crate::retention::remote_join(dir@, name@),
{
    let mut v = chars_of(dir);
    v.push('/');
    append(&mut v, &chars_of(name));
    string_of(&v)
}

/// The kind of `project`.
pub fn project_kind(project: &BackupProject) -> (k: BackupKind)
    ensures
        k == spec_kind(*project),
{
    if project.file.is_some() {
        BackupKind::File
    } else if project.mysql.is_some() {
        BackupKind::MySql
    } else if project.pgsql.is_some() {
        BackupKind::PgSql
    } else if project.sqlite.is_some() {
        BackupKind::Sqlite
    } else {
        BackupKind::Unset
    }
}

/// The archive name and remote path of a run into `remote_dir` whose
/// archive is named at `now`.
pub fn archive_target(remote_dir: &str, now: &Stamp) -> (r: (String, String))
    ensures
        r.0@ == archive_name(*now),
        r.1@ == crate::retention::remote_join(remote_dir@, archive_name(*now)),
{
    let name = archive_name_for(now);
    let path = join_remote(remote_dir, name.as_str());
    (name, path)
}

/// Plans the run of `project`: settings inherited through the
/// configuration, the remote directory (the resolved subdirectory, or
/// `backup`), and the dump program.
pub fn plan_project(config: &Config, project: &BackupProject) -> (r: ProjectPlan)
    ensures
        r.kind == spec_kind(*project),
        opt_view(r.password) == spec_resolve_password(*config, *project),
        r.retain_count == spec_resolve_retain_count(*config, *project),
        r.remote_dir@ == spec_remote_dir(spec_resolve_sub_dir(*config, *project)),
        opt_view(r.tool) == (match spec_kind(*project) {
            BackupKind::MySql => Some(
                match config.global.mysqldump_path {
                    Some(p) => p@,
                    None => "mysqldump"@,
                },
            ),
            BackupKind::PgSql => Some(
                match config.global.pg_dump_path {
                    Some(p) => p@,
                    None => "pg_dump"@,
                },
            ),
            BackupKind::Sqlite => Some(
                match config.global.sqlite3_path {
                    Some(p) => p@,
                    None => "sqlite3"@,
                },
            ),
            _ => None,
        }),
{
    let password = config.resolve_password(project);
    let retain_count = config.resolve_retain_count(project);
    let sub_dir = config.resolve_sub_dir(project);
    let remote_dir = if sub_dir.as_str().is_empty() {
        string_of(&chars_of("backup"))
    } else {
        sub_dir
    };
    let kind = project_kind(project);
    let tool = match kind {
        BackupKind::MySql => Some(config.resolve_mysqldump_path()),
        BackupKind::PgSql => Some(config.resolve_pg_dump_path()),
        BackupKind::Sqlite => Some(config.resolve_sqlite3_path()),
        _ => None,
    };
    ProjectPlan { kind, password, retain_count, remote_dir, tool }
}

/// The `--key=value` argument.
pub open spec fn flag(key: Seq<char>, value: Seq<char>) -> Seq<char> {
    key + value
}

/// The table arguments of a dump: the white-space separated names, unless
/// the setting is absent or `*` (all tables).
pub open spec fn table_names(tables: Option<String>) -> Seq<Seq<char>> {
    match tables {
        Some(t) => if t@ == "*"@ {
            Seq::empty()
        } else {
            words(t@)
        },
        None => Seq::empty(),
    }
}

/// The arguments of `mysqldump`.
pub open spec fn spec_mysqldump_args(c: MySqlConfig) -> Seq<Seq<char>> {
    seq![
        flag("--host="@, c.host@),
        flag("--port="@, decimal(c.port as nat)),
        flag("--user="@, c.username@),
        flag("--password="@, c.password@),
        "--single-transaction"@,
        "--routines"@,
        "--triggers"@,
    ] + (match c.ssl_mode {
        Some(s) => seq![flag("--ssl-mode="@, s@)],
        None => Seq::empty(),
    }) + seq![c.database@] + table_names(c.tables)
}

/// A `database` entry of a PostgreSQL setting split at its first `.`:
/// the database, and the table when there is a `.`.
pub open spec fn spec_db_table(entry: Seq<char>) -> (Seq<char>, Option<Seq<char>>) {
    let i = find(entry, '.');
    if i < entry.len() {
        (entry.take(i as int), Some(entry.skip((i + 1) as int)))
    } else {
        (entry, None)
    }
}

/// Splits a `database` entry as `database` or `database.table`.
pub fn parse_db_table(entry: &str) -> (r: (String, Option<String>))
    ensures
        r.0@ == spec_db_table(entry@).0,
        opt_view(r.1) == spec_db_table(entry@).1,
{
    let v = chars_of(entry);
    let i = find_char(&v, '.');
    if i < v.len() {
        let db = slice(&v, 0, i);
        let table = slice(&v, i + 1, v.len());
        assert(db@ =~= v@.take(i as int));
        assert(table@ =~= v@.skip((i + 1) as int));
        (string_of(&db), Some(string_of(&table)))
    } else {
        (string_of(&v), None)
    }
}

/// The arguments of the `pg_dump` run for one `database` entry.
pub open spec fn spec_pg_dump_args(c: PgSqlConfig, entry: Seq<char>) -> Seq<Seq<char>> {
    seq![
        flag("--host="@, c.host@),
        flag("--port="@, decimal(c.port as nat)),
        flag("--username="@, c.username@),
        flag("--dbname="@, spec_db_table(entry).0),
        "--no-password"@,
        "--clean"@,
        "--if-exists"@,
    ] + (match spec_db_table(entry).1 {
        Some(t) => seq!["--table"@, t],
        None => Seq::empty(),
    })
}

/// The environment of `pg_dump`: the SSL mode if set, and the password.
pub open spec fn spec_pg_dump_env(c: PgSqlConfig) -> Seq<(Seq<char>, Seq<char>)> {
    (match c.ssl_mode {
        Some(s) => seq![("PGSSLMODE"@, s@)],
        None => Seq::empty(),
    }) + seq![("PGPASSWORD"@, c.password@)]
}

pub open spec fn views(v: Seq<String>) -> Seq<Seq<char>> {
    v.map_values(|s: String| s@)
}

fn flag_arg(key: &str, value: &Vec<char>) -> (r: String)
    ensures
        r@ == flag(key@, value@),
{
    let mut v = chars_of(key);
    append(&mut v, value);
    string_of(&v)
}

fn text(s: &str) -> (r: String)
    ensures
        r@ == s@,
{
    string_of(&chars_of(s))
}

/// The table names of a dump setting.
fn tables_of(tables: &Option<String>) -> (r: Vec<Vec<char>>)
    ensures
        r@.len() == table_names(*tables).len(),
        forall|i: int| 0 <= i < r@.len() ==> #[trigger] r@[i]@ == table_names(*tables)[i],
{
    match tables {
        Some(t) => {
            let v = chars_of(t.as_str());
            if same(&v, &chars_of("*")) {
                Vec::new()
            } else {
                split_words(&v)
            }
        },
        None => Vec::new(),
    }
}

/// The arguments of `mysqldump` for a configuration.
pub fn mysqldump_args(c: &MySqlConfig) -> (r: Vec<String>)
    ensures
        views(r@) == spec_mysqldump_args(*c),
{
    let mut r: Vec<String> = Vec::new();
    r.push(flag_arg("--host=", &chars_of(c.host.as_str())));
    r.push(flag_arg("--port=", &decimal_digits(c.port as u64)));
    r.push(flag_arg("--user=", &chars_of(c.username.as_str())));
    r.push(flag_arg("--password=", &chars_of(c.password.as_str())));
    r.push(text("--single-transaction"));
    r.push(text("--routines"));
    r.push(text("--triggers"));
    if let Some(s) = &c.ssl_mode {
        r.push(flag_arg("--ssl-mode=", &chars_of(s.as_str())));
    }
    r.push(c.database.clone());
    let ghost head = views(r@);
    let names = tables_of(&c.tables);
    let mut i: usize = 0;
    while i < names.len()
        invariant
            i <= names@.len() == table_names(c.tables).len(),
            forall|k: int| 0 <= k < names@.len() ==> #[trigger] names@[k]@ == table_names(c.tables)[k],
            views(r@) == head + table_names(c.tables).take(i as int),
        decreases names.len() - i,
    {
        let ghost before = r@;
        r.push(string_of(&names[i]));
        assert(views(r@) =~= views(before).push(names@[i as int]@));
        assert(table_names(c.tables).take(i + 1) =~= table_names(c.tables).take(i as int).push(
            table_names(c.tables)[i as int],
        ));
        assert(views(r@) =~= head + table_names(c.tables).take(i + 1));
        i = i + 1;
    }
    assert(table_names(c.tables).take(names.len() as int) =~= table_names(c.tables));
    assert(views(r@) =~= spec_mysqldump_args(*c));
    r
}

/// The arguments of the `pg_dump` run for one `database` entry: one
/// run per entry, the entry split as `database` or `database.table`.
pub fn pg_dump_args(c: &PgSqlConfig, entry: &str) -> (r: Vec<String>)
    ensures
        views(r@) == spec_pg_dump_args(*c, entry@),
{
    let (db, table) = parse_db_table(entry);
    let mut r: Vec<String> = Vec::new();
    r.push(flag_arg("--host=", &chars_of(c.host.as_str())));
    r.push(flag_arg("--port=", &decimal_digits(c.port as u64)));
    r.push(flag_arg("--username=", &chars_of(c.username.as_str())));
    r.push(flag_arg("--dbname=", &chars_of(db.as_str())));
    r.push(text("--no-password"));
    r.push(text("--clean"));
    r.push(text("--if-exists"));
    if let Some(t) = table {
        r.push(text("--table"));
        r.push(t);
    }
    assert(views(r@) =~= spec_pg_dump_args(*c, entry@));
    r
}

/// The flattening of `parts`, in order.
pub open spec fn concat_all(parts: Seq<Seq<u8>>) -> Seq<u8>
    decreases parts.len(),
{
    if parts.len() == 0 {
        Seq::empty()
    } else {
        concat_all(parts.drop_last()) + parts.last()
    }
}

/// The archive content of a PostgreSQL backup: the outputs of the dump
/// runs, one per `database` entry, concatenated in order.
pub fn concat_dumps(outputs: &Vec<Vec<u8>>) -> (r: Vec<u8>)
    ensures
        r@ == concat_all(outputs@.map_values(|o: Vec<u8>| o@)),
{
    let ghost os = outputs@.map_values(|o: Vec<u8>| o@);
    let mut r: Vec<u8> = Vec::new();
    let mut i: usize = 0;
    assert(os.take(0) =~= Seq::<Seq<u8>>::empty());
    while i < outputs.len()
        invariant
            i <= outputs@.len() == os.len(),
            os == outputs@.map_values(|o: Vec<u8>| o@),
            r@ == concat_all(os.take(i as int)),
        decreases outputs.len() - i,
    {
        let ghost before = r@;
        let part = &outputs[i];
        let mut j: usize = 0;
        while j < part.len()
            invariant
                j <= part@.len(),
                r@ == before + part@.take(j as int),
            decreases part.len() - j,
        {
            r.push(part[j]);
            assert(part@.take(j + 1) =~= part@.take(j as int).push(part@[j as int]));
            j = j + 1;
        }
        assert(part@.take(part.len() as int) =~= part@);
        assert(os.take(i + 1).drop_last() =~= os.take(i as int));
        assert(os.take(i + 1).last() == part@);
        i = i + 1;
    }
    assert(os.take(outputs.len() as int) =~= os);
    r
}

/// The environment variables of `pg_dump` for a configuration.
pub fn pg_dump_env(c: &PgSqlConfig) -> (r: Vec<(String, String)>)
    ensures
        r@.map_values(|kv: (String, String)| (kv.0@, kv.1@)) == spec_pg_dump_env(*c),
{
    let mut r: Vec<(String, String)> = Vec::new();
    if let Some(s) = &c.ssl_mode {
        r.push((text("PGSSLMODE"), s.clone()));
    }
    r.push((text("PGPASSWORD"), c.password.clone()));
    assert(r@.map_values(|kv: (String, String)| (kv.0@, kv.1@)) =~= spec_pg_dump_env(*c));
    r
}

/// The name of a MySQL dump inside the archive: `<database>_<stamp>.sql`.
pub fn mysql_entry_name(database: &str, t: &Stamp) -> (r: String)
    ensures
        r@ == database@ + "_"@ + stamp_text(*t) + ".sql"@,
{
    let mut v = chars_of(database);
    append(&mut v, &chars_of("_"));
    append(&mut v, &t.compact_text());
    append(&mut v, &chars_of(".sql"));
    string_of(&v)
}

/// The name of a PostgreSQL dump inside the archive: `backup_<stamp>.sql`.
pub fn pg_entry_name(t: &Stamp) -> (r: String)
    ensures
        r@ == "backup_"@ + stamp_text(*t) + ".sql"@,
{
    let mut v = chars_of("backup_");
    append(&mut v, &t.compact_text());
    append(&mut v, &chars_of(".sql"));
    string_of(&v)
}

/// The arguments of `sqlite3` that copy `database` to `target`:
/// the database and `.backup '<target>'`.
pub fn sqlite_backup_args(database: &str, target: &str) -> (r: Vec<String>)
    ensures
        views(r@) == seq![database@, ".backup '"@ + target@ + "'"@],
{
    let mut cmd = chars_of(".backup '");
    append(&mut cmd, &chars_of(target));
    append(&mut cmd, &chars_of("'"));
    let mut r: Vec<String> = Vec::new();
    r.push(text(database));
    r.push(string_of(&cmd));
    assert(views(r@) =~= seq![database@, ".backup '"@ + target@ + "'"@]);
    r
}

/// A path that every platform reads alike: `/` separators only, no `\`,
/// no `:` (a drive on Windows) and no leading `//` (a network share there).
pub open spec fn portable_path(p: Seq<char>) -> bool {
    lacks(p, '\\') && lacks(p, ':') && !crate::text::has_prefix(p, seq!['/', '/'])
}

/// The final component of a `/`-separated path, as `Path::file_name` gives
/// it: empty and `.` components do not count; none when there is no
/// component left or the last one is `..`.
pub open spec fn final_component(p: Seq<char>) -> Option<Seq<char>> {
    let parts = split(p, '/').filter(|c: Seq<char>| c.len() > 0 && c != seq!['.']);
    if parts.len() == 0 || parts.last() == seq!['.', '.'] {
        None
    } else {
        Some(parts.last())
    }
}

/// A character that separates path components on some platform: `/`,
/// or `\` on Windows.
pub open spec fn is_path_separator(c: char) -> bool {
    c == '/' || c == '\\'
}

/// The text after the last `/` or `\` of a path (all of it when there is
/// none).
pub open spec fn last_piece(p: Seq<char>) -> Seq<char>
    decreases p.len(),
{
    if p.len() == 0 || is_path_separator(p.last()) {
        Seq::empty()
    } else {
        last_piece(p.drop_last()).push(p.last())
    }
}

/// A path that names a file on every platform: it ends in a piece (after
/// the last `/` or `\`) that is neither empty, `.` nor `..` and holds no
/// `:` (no bare drive), and it does not open with two separators (a network
/// share or device on Windows).
pub open spec fn names_a_file(p: Seq<char>) -> bool {
    let f = last_piece(p);
    &&& f.len() > 0
    &&& f != seq!['.']
    &&& f != seq!['.', '.']
    &&& lacks(f, ':')
    &&& !(p.len() >= 2 && is_path_separator(p[0]) && is_path_separator(p[1]))
}

/// Calls `std::path::Path::file_name` and converts the name with
/// `to_string_lossy` (which loses nothing of a `&str`). Claimed, as its
/// documentation and that of `Path::components` say: for paths that every
/// platform reads alike, the final normal component, none for a path that
/// ends in `..` or has no component. For a path that names a file on every
/// platform, some name that ends with the path's last piece: Windows splits
/// on `\` too and gives that piece, Unix gives the text after the last `/`.
/// Nothing more is claimed of other paths (with `\`, a drive or a share,
/// read differently on Windows).
#[verifier::external_body]
fn file_name_of(path: &str) -> (r: Option<String>)
    ensures
        portable_path(path@) ==> opt_view(r) == final_component(path@),
        names_a_file(path@) ==> r is Some && crate::text::has_suffix(r->0@, last_piece(path@)),
{
    std::path::Path::new(path).file_name().map(|n| n.to_string_lossy().to_string())
}

/// The name of a SQLite copy inside the archive: the database's file name,
/// or `backup.db` when the path has none. A path that names a file on every
/// platform (such as `D:\data\app.db`) gives a name that ends with its last
/// piece, never the fallback in its place.
pub fn sqlite_entry_name(database: &str) -> (r: String)
    ensures
        portable_path(database@) ==> r@ == (match final_component(database@) {
            Some(n) => n,
            None => "backup.db"@,
        }),
        names_a_file(database@) ==> crate::text::has_suffix(r@, last_piece(database@)),
{
    match file_name_of(database) {
        Some(n) => n,
        None => text("backup.db"),
    }
}

/// A local path as an archive directory: `/`, `\` and `:` become `_`.
pub open spec fn entry_prefix(local_path: Seq<char>) -> Seq<char> {
    Seq::new(
        local_path.len(),
        |i: int|
            if local_path[i] == '/' || local_path[i] == '\\' || local_path[i] == ':' {
                '_'
            } else {
                local_path[i]
            },
    )
}

/// A relative path with `/` separators (`\` becomes `/`).
pub open spec fn forward_slashes(p: Seq<char>) -> Seq<char> {
    Seq::new(p.len(), |i: int| if p[i] == '\\' { '/' } else { p[i] })
}

/// The archive entry of a file: `<prefix>/<relative>`, or the prefix alone
/// when the backed-up path is the file itself (empty relative path).
pub open spec fn spec_entry_name(local_path: Seq<char>, relative: Seq<char>) -> Seq<char> {
    let rel = forward_slashes(relative);
    if rel.len() == 0 {
        entry_prefix(local_path)
    } else {
        entry_prefix(local_path) + "/"@ + rel
    }
}

fn map_prefix(v: &Vec<char>) -> (r: Vec<char>)
    ensures
        r@ == entry_prefix(v@),
{
    let mut r: Vec<char> = Vec::new();
    let mut i: usize = 0;
    while i < v.len()
        invariant
            i <= v.len(),
            r@ == entry_prefix(v@).take(i as int),
        decreases v.len() - i,
    {
        let c = v[i];
        if c == '/' || c == '\\' || c == ':' {
            r.push('_');
        } else {
            r.push(c);
        }
        assert(r@ =~= entry_prefix(v@).take(i + 1));
        i = i + 1;
    }
    assert(r@ =~= entry_prefix(v@));
    r
}

fn map_slashes(v: &Vec<char>) -> (r: Vec<char>)
    ensures
        r@ == forward_slashes(v@),
{
    let mut r: Vec<char> = Vec::new();
    let mut i: usize = 0;
    while i < v.len()
        invariant
            i <= v.len(),
            r@ == forward_slashes(v@).take(i as int),
        decreases v.len() - i,
    {
        let c = v[i];
        if c == '\\' {
            r.push('/');
        } else {
            r.push(c);
        }
        assert(r@ =~= forward_slashes(v@).take(i + 1));
        i = i + 1;
    }
    assert(r@ =~= forward_slashes(v@));
    r
}

proof fn lemma_forward_slashes_portable(p: Seq<char>)
    ensures
        lacks(forward_slashes(p), '\\'),
{
}

/// The relative path of a file with `/` separators, as exclusion patterns
/// see it.
pub fn relative_path(relative: &str) -> (r: String)
    ensures
        r@ == forward_slashes(relative@),
{
    string_of(&map_slashes(&chars_of(relative)))
}

/// The archive entry name of a file found under `local_path` at
/// `relative`.
pub fn file_entry_name(local_path: &str, relative: &str) -> (r: String)
    ensures
        r@ == spec_entry_name(local_path@, relative@),
{
    let mut v = map_prefix(&chars_of(local_path));
    let rel = map_slashes(&chars_of(relative));
    if rel.len() > 0 {
        append(&mut v, &chars_of("/"));
        append(&mut v, &rel);
    }
    string_of(&v)
}

/// What happens to a file found under `local_path` at `relative`: `None`
/// when an exclusion pattern matches its relative path, else its archive
/// entry name.
pub fn plan_file_entry(excludes: &crate::exclude::ExcludeSet, local_path: &str, relative: &str) -> (r:
    Option<String>)
    ensures
        excludes.portable() ==> ((r is None) == (exists|i: int|
            0 <= i < excludes.patterns().len() && #[trigger] crate::exclude::glob_matches(
                excludes.patterns()[i],
                forward_slashes(relative@),
            ))),
        r matches Some(n) ==> n@ == spec_entry_name(local_path@, relative@),
{
    proof {
        lemma_forward_slashes_portable(relative@);
    }
    let rel = relative_path(relative);
    if excludes.is_excluded(rel.as_str()) {
        None
    } else {
        Some(file_entry_name(local_path, relative))
    }
}


proof fn lemma_decimal_lacks(n: nat)
    ensures
        lacks(decimal(n), '_'),
    decreases n,
{
    if n >= 10 {
        lemma_decimal_lacks(n / 10);
        let d = decimal(n / 10);
        assert(decimal(n) == d.push(crate::stamp::digit(n % 10)));
        assert((48 + (n % 10)) as char != '_');
    } else {
        assert((48 + n) as char != '_');
    }
}

proof fn lemma_padded_lacks(n: nat, w: nat)
    ensures
        lacks(crate::stamp::padded(n, w), '_'),
{
    lemma_decimal_lacks(n);
}

proof fn lemma_split_plain(x: Seq<char>, c: char, cur: Seq<char>)
    requires
        lacks(x, c),
    ensures
        crate::text::split_from(x, c, cur) == seq![cur + x],
    decreases x.len(),
{
    if x.len() == 0 {
        assert(cur + x =~= cur);
    } else {
        assert(lacks(x.drop_first(), c));
        lemma_split_plain(x.drop_first(), c, cur.push(x[0]));
        assert(cur.push(x[0]) + x.drop_first() =~= cur + x);
    }
}

proof fn lemma_split_at(x: Seq<char>, y: Seq<char>, c: char, cur: Seq<char>)
    requires
        lacks(x, c),
    ensures
        crate::text::split_from(x + seq![c] + y, c, cur) == seq![cur + x]
            + crate::text::split_from(y, c, Seq::empty()),
    decreases x.len(),
{
    let s = x + seq![c] + y;
    if x.len() == 0 {
        assert(s.drop_first() =~= y);
        assert(cur + x =~= cur);
    } else {
        assert(s.drop_first() =~= x.drop_first() + seq![c] + y);
        assert(lacks(x.drop_first(), c));
        lemma_split_at(x.drop_first(), y, c, cur.push(x[0]));
        assert(cur.push(x[0]) + x.drop_first() =~= cur + x);
    }
}

/// An archive that a run uploads is one that retention looks at: its name
/// starts with `backup_`, ends with `.zip`, and retention reads its date
/// and time fields (for years 0 to 9999) as the run's `%Y%m%d` and
/// `%H%M%S`.
pub proof fn lemma_archive_name_fields(t: Stamp)
    requires
        0 <= t.year <= 9999,
    ensures
        crate::text::has_prefix(archive_name(t), archive_prefix()),
        crate::text::has_suffix(archive_name(t), crate::retention::zip_suffix()),
        ({
            let name = archive_name(t);
            let parts = crate::text::split(name.take(name.len() - 4), '_');
            parts.len() == 3 && parts[1] == crate::stamp::date_text(t) && parts[2]
                == crate::stamp::time_text(t)
        }),
        crate::retention::spec_parse_timestamp(archive_name(t))
            == crate::stamp::naive_datetime_parse(
            crate::stamp::date_text(t) + seq![' '] + crate::stamp::time_text(t),
            crate::stamp::spaced_pattern(),
        ),
{
    reveal_strlit("backup_");
    reveal_strlit(".zip");
    let name = archive_name(t);
    let date = crate::stamp::date_text(t);
    let time = crate::stamp::time_text(t);
    let word = seq!['b', 'a', 'c', 'k', 'u', 'p'];
    assert(archive_prefix() =~= word + seq!['_']);
    assert(".zip"@ =~= crate::retention::zip_suffix());
    assert(name =~= word + seq!['_'] + date + seq!['_'] + time + crate::retention::zip_suffix());
    assert(name.subrange(0, archive_prefix().len() as int) =~= archive_prefix());
    assert(name.subrange(name.len() - 4, name.len() as int) =~= crate::retention::zip_suffix());
    let stem = name.take(name.len() - 4);
    assert(stem =~= word + seq!['_'] + (date + seq!['_'] + time));
    lemma_padded_lacks(t.year as nat, 4);
    lemma_padded_lacks(t.month as nat, 2);
    lemma_padded_lacks(t.day as nat, 2);
    lemma_padded_lacks(t.hour as nat, 2);
    lemma_padded_lacks(t.minute as nat, 2);
    lemma_padded_lacks(crate::stamp::shown_second(t), 2);
    assert(lacks(date, '_'));
    assert(lacks(time, '_'));
    assert(lacks(word, '_'));
    lemma_split_at(word, date + seq!['_'] + time, '_', Seq::empty());
    lemma_split_at(date, time, '_', Seq::empty());
    lemma_split_plain(time, '_', Seq::empty());
    let parts = crate::text::split(stem, '_');
    assert(Seq::<char>::empty() + date =~= date);
    assert(Seq::<char>::empty() + time =~= time);
    assert(parts =~= seq![Seq::<char>::empty() + word, date, time]);
    assert(parts[parts.len() - 2] + seq![' '] + parts[parts.len() - 1] == date + seq![' '] + time);
}

/// A backup whose project and source set no subdirectory goes to the
/// remote directory `backup`; otherwise to the resolved subdirectory when
/// it is not empty.
pub proof fn lemma_default_remote_dir(c: Config, p: BackupProject)
    ensures
        spec_resolve_sub_dir(c, p).len() == 0 ==> spec_remote_dir(spec_resolve_sub_dir(c, p))
            == "backup"@,
        spec_resolve_sub_dir(c, p).len() > 0 ==> spec_remote_dir(spec_resolve_sub_dir(c, p))
            == spec_resolve_sub_dir(c, p),
        (p.sub_dir is None && (crate::config::project_source(c, p) is None
            || crate::config::project_source(c, p).unwrap().sub_dir is None)) ==> spec_remote_dir(
            spec_resolve_sub_dir(c, p),
        ) == "backup"@,
{
    crate::config::lemma_inheritance(c, p);
}

/// Every project of a valid configuration can run: its source exists,
/// and it has exactly one kind, which is the kind its plan carries.
pub proof fn lemma_valid_projects_run(c: Config, i: int)
    requires
        crate::config::config_valid(c),
        0 <= i < c.project@.len(),
    ensures
        crate::config::project_source(c, c.project@[i]) is Some,
        spec_kind(c.project@[i]) != BackupKind::Unset,
        (c.project@[i].file is Some) == (spec_kind(c.project@[i]) == BackupKind::File),
        (c.project@[i].mysql is Some) == (spec_kind(c.project@[i]) == BackupKind::MySql),
        (c.project@[i].pgsql is Some) == (spec_kind(c.project@[i]) == BackupKind::PgSql),
        (c.project@[i].sqlite is Some) == (spec_kind(c.project@[i]) == BackupKind::Sqlite),
{
    let p = c.project@[i];
    assert(crate::config::project_valid(c, p));
    crate::config::lemma_source_pos(c.source@, p.source@);
    let k = choose|k: int| 0 <= k < c.source@.len() && #[trigger] c.source@[k].name@ == p.source@;
    if crate::config::source_pos(c.source@, p.source@) >= c.source@.len() {
        assert(c.source@[k].name@ != p.source@);
    }
}

} // verus!
