# schedule_api

A service for college timetables. Groups of students each have a weekly
schedule imported from a CSV file; the API shows the lessons of a chosen
week, laid out day by day in numbered slots. An administrator, logged in
with the service password, can import schedules, manage groups and set the
epoch that week numbers count from.

Layout:

- `src/` — the verified library (Verus):
  - `timetable` — which lessons take place in a week and how each day's
    lessons fill numbered slots;
  - `data` — lessons, week ranges and the week-list syntax (`1-8,10,all`),
    the even/odd marker, configuration and reply types;
  - `auth` — login, session cookies and the check that guards protected
    routes (signing and verifying tokens and password hashes are done by
    the `jwt`, `hmac`, `sha2` and `argon2` crates);
  - `epoch`, `storage`, `import` — epoch updates, group records and query
    errors, the upload form;
  - `number`, `text` — decimal integers and splitting text, as the
    standard library does them;
  - `serialization` — UUIDs (via the `uuid` crate) and the numeric marker.
- `app/` — the HTTP server (axum, sqlx, tokio): routes, the SQLite store,
  CSV and TOML reading, and the serde forms of the library's types.
- `tests/` — tests of the library on concrete values.
