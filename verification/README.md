# microvid

The verified core of MicroVid, a desktop re-encoder that wraps ffmpeg to make
small, good-looking copies of a video library. The library decides everything
that can be decided without touching the outside world, and Verus proves those
decisions against their contracts:

- `command` — encode settings and media info → the ffmpeg argument list
  (scaling, cropping, audio selection and downmix, subtitles, hardware encoders)
- `naming` — output file names and mirrored folder structure
- `cropdetect` — reading cropdetect reports and choosing a safe crop
- `probe` — ffprobe's report, once serde has read its bytes into the library's
  `Json` model → `MediaInfo`, or why the file cannot be queued
- `ffmpeg` — finding the binaries, reading their capabilities, the progress stream
- `subtitles` — language tags, subtitle candidates and their ranking, SRT delay
  shifting, the OpenSubtitles movie hash
- `queue`, `state`, `commands` — the job queue's rules: scheduling, retry,
  recovery, reordering, derived fields; OpenSubtitles requests and what their
  replies offer
- `history` — the encode history as CSV
- `machine`, `estimate`, `testencode` — the integer parts of the parallel-jobs
  suggestion, the estimates and the test encode
- `models`, `path`, `text` — data types and string/path helpers

`app/` holds the application around it: processes, files, SQLite, HTTP, timers
and the fractional figures (estimates and progress). `tests/` exercises the
library on concrete values.
