# webdav_backup

A command-line tool that backs up local files and MySQL, PostgreSQL and
SQLite databases into ZIP archives (optionally AES-256 encrypted) and
uploads them to WebDAV servers, keeping the newest N archives remotely.

`src/` is the verified library (Verus):

- `config` — the configuration and its three-level inheritance
  (global, source, project), and validation;
- `auth`, `digest` — reading `WWW-Authenticate` challenges and building
  HTTP Digest `Authorization` headers;
- `webdav` — request addresses, authentication negotiation, recursive
  directory creation, directory listings;
- `propfind` — the `href`s of a PROPFIND answer;
- `retention` — which archives to delete, and the laws of retention;
- `stamp`, `plan` — archive names, dump program arguments (one `pg_dump`
  run per `database` or `database.table` entry), archive entry names, and
  the plan of one backup run;
- `exclude` — `.gitignore`-style exclusion patterns, matched with globset;
- `text` — character-level string operations with their specifications.

`app/` is the program around it: command line, configuration file,
logging, HTTP, processes, ZIP writing.
