# auto_boya

A command-line assistant that logs into the BUAA course system with a
headless Chrome, lists the courses that can be chosen, and chooses the one
the user picks.

- `src/` is the verified library (Verus):
  - `text.rs`: finding a pattern in a character sequence, splitting around
    its first occurrence, and splitting text into newline-terminated lines;
  - `course.rs`: reading one row of the course table (state, name and type,
    labelled fields, the "taken/capacity" seats field) and collecting the
    courses that are shown;
  - `config.rs`: the configuration, the settings that change it, and the
    command line;
  - `flow.rs`: what is shown and what happens next after each outside step of
    loading the configuration and of a browser session.
- `app/` is the program around it: command-line parsing, prompts, the
  configuration file, the browser session and the tables.
- `tests/` holds the tests, among them comparisons with readers written with
  nom's combinators.
