# my_daily_newspaper

The print edition and morning delivery of a one-subscriber daily paper,
written in Verus: the page, the commands and the decisions around them are
functions with contracts that the verifier proves; `app/` runs the
processes and touches the files, the clock and the environment.

- `src/text.rs` - strings as sequences of characters: trimming, lines,
  searching, decimal numbers, joining, and the few std calls the rest needs.
- `src/model.rs` - the edition, its cards, the settings and the scoreboard.
- `src/clock.rs` - timestamps read in the local time zone (through chrono),
  relative day names and the masthead's scoreboard.
- `src/render.rs` - HTML escaping, Roman numerals, paragraphs, QR codes
  (through qrcode), site names (through url), and each story's markup.
- `src/page.rs` - the whole page: head with the embedded masthead font
  (through base64), masthead, dateline, lead and desks; with the laws that
  every story is printed and the lead runs once.
- `src/print.rs` - the print switch's status, the browser and `lp` command
  lines, picking the printer one step at a time, and whether the morning run
  prints.
- `src/schedule.rs` - the launchd property list, reading its time back,
  and the delivery switch.
- `app/` - the processes, files, clock and environment around the library:
  running the browser, `lpstat`, `lp`, `launchctl` and `id`.
- `tests/` - the library's tests.
