# Momentrace

Momentrace records which desktop application is in front, and for how long, and
reports that use per day, per range of days and over everything recorded, by category
and by application. It keeps everything in a local SQLite file.

## Layout

- `src/` is the library, written in Verus and verified:
  - `store.rs`: the four tables (categories, application rules, sessions, settings) held
    in memory, and every operation on them, from opening the tables to the day, range and
    all-time summaries;
  - `usage.rs`: how sessions add up within a window of time, per category and per
    application, and the per-hour lines of a day;
  - `tracker.rs`: the tracker as a machine that is told the time, the idle time and the
    foreground application, and asks its host to save spans of use;
  - `calendar.rs`, `text.rs`, `sorting.rs`: dates, strings and the stable order of the
    reports;
  - `icon.rs`, `widget.rs`: the icon data URLs and the position of the taskbar widget;
  - `laws.rs`, `store_laws.rs`, `report_laws.rs`, `tracker_laws.rs`: properties that span
    several operations, proved.
- `app/` is the desktop shell: the SQLite database, the Windows calls, the thread that
  drives the tracker, and the Tauri windows, tray and commands.
- `tests/` runs the library on concrete values.
