# lifeplanner

The core of an offline personal planner, written in Verus: events and tasks,
the dates, deadlines and to-dos found in free text, e-mails and PDFs, conflicts
and free time in a day, a day's overview, calendar files and servers, and
keeping stored events in step with a calendar, and what a stored row holds.

- `src/` is the verified library. Every function there carries a contract that
  Verus proves; the few calls into outside crates (`regex`, `chrono`, `ical`,
  `uuid`) and into parts of `std` without a specification sit behind small
  trusted wrappers whose doc comments say what is claimed of them.
  The laws the library keeps are public proof functions named `law_…`.
- `tests/` runs the library on concrete inputs.
- `app/` is the command line, and the input and output around the library:
  reading calendar files, the keychain, the model server and CalDAV over HTTP,
  the SQLite store, the PDF reader (which can panic on a malformed file, so
  the library takes its outcome), and the JSON of the model's answers.

Times are whole seconds since 1970-01-01 UTC. A date without a time zone in a
text is wall-clock time where the reader lives; the extraction reads the clock
once and turns each wall-clock reading into a UTC second through the machine's
time zone, which its contract states as a table of readings and answers.
