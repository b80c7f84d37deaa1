# calendar

Command-line tools for calendars, built on gcalcli and Excel workbooks:

- `gcal-search` searches events and prints them as TSV or CSV;
- `gcal-plan` imports a project plan (TOML) as calendar events tagged with
  a project ID, and lists, removes or re-syncs them;
- `gen-calendar` and `gen-project-schedule` write a week calendar and a
  gantt-style schedule into a workbook;
- `gcal-browse` is a terminal browser for accounts, calendars and events.

## Layout

- `src/` is the library, verified with Verus. Each public function states
  what it returns in its `ensures`; the properties that span several
  functions are public proof functions.
  - `text`: character sequences, decimal numerals, trimming, splitting,
    ordering of text.
  - `date`: dates as chrono represents them, modelled by day numbers, and
    the chrono operations used, behind trusted wrappers.
  - `sheet`: week snapping, cell labels, the months a sheet covers, its
    title, tab name, file name and grid.
  - `plan`, `ics`: plan files, time zones, attendees, escaping, project IDs
    and the iCalendar document.
  - `order`: stable ordering by text keys.
  - `agenda`: gcalcli's TSV listings, search results and their printing.
  - `browse`: calendar lists, agendas, event details and the browser's
    reactions to keys and loads.
- `app/` is the program: argument parsing, files, gcalcli processes, the
  workbook writer and the terminal (drawing, the clock and the local time
  zone's abbreviation). What it shows and decides comes from the library.
- `tests/` runs the library on concrete inputs.
