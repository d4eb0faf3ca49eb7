# movement_tracks_analyzer

Reads GPS movement tracks from KML or KMZ files and reports each track's
name, start and end time, duration, length, number of points and the labels
of its folders (category, activity, year, month) as JSON, CSV, TSV or an
aligned table.

The library under `src/` is verified with Verus:

- `parser` reads the XML events one at a time (through `quick_xml`, in
  `xml_source`) with a state machine whose every step is specified, and
  `kmz` finds the KML document of a KMZ archive (through `zip`).
- `path` derives the labels of a track from its folder path.
- `time_patterns`, `datetime` and `coordinates` read the times (through
  `regex` and `chrono`) and the coordinates of a track.
- `format` writes the reports, and `csv` shows that a CSV line reads back
  as its cells; `output`, `converter` and `path_resolver` decide where a
  report goes and which file is read.
- `complexity` rates the cognitive complexity of the functions of a Rust
  source text and lays out its report.

`app/` holds the command-line program: argument parsing (`clap`), file
access, the distance along a track (floating point), and the complexity tool,
which runs when the program is installed as `cognitive_complexity_analyzer`.
