# card_catalog

A catalog of files kept in SQLite: names, paths, sizes and xxHash checksums,
plus tags applied to listings.

- `src/` is the verified library (Verus):
  - `mods/util.rs`: escaping of paths for SQL literals, with the round-trip laws;
  - `mods/capabilities.rs`: file checksums (XXH64 through twox-hash), the
    lookup key and stored values of a scanned file and the decision a scan
    takes on it, and the duplicate (matching checksums), tagged and orphan
    reports;
  - `mods/sql.rs`: the records stored for new listings, tags and tag
    applications (fresh ids from random bytes through getrandom and uuid,
    clock through time), the find-or-create decisions for tags, and the lookup queries;
  - `mods/tables.rs`: the tables as sequences of rows, with the laws that
    find-or-create and a repeated scan keep over them;
  - `mods/models.rs`, `models.rs`: the records;
  - `server.rs`: the greetings of the web front end.
- `app/` is the program around it: command line (clap), SQLite access
  (rusqlite), directory walking (walkdir), settings (dotenv) and the web front
  end (rocket, rocket_cors).
- `tests/` runs the library on concrete values.
