# yt_dlp

A YouTube downloader whose logic is a Verus-verified library.

`src/` holds the library, every function with a contract that Verus proves:

- `selector` — format selector expressions (`bestvideo[height<=1080]+bestaudio/best`),
  their grammar, and which formats they choose;
- `types` — formats, video information and download options;
- `player`, `innertube`, `youtube` — turning an InnerTube player response into
  video information, the order in which InnerTube clients are asked, and what
  the watch page adds;
- `output` — output templates, file name sanitizing and output paths;
- `hls`, `download`, `cookies`, `postprocess` — HLS playlists, the retry,
  resume and rate-limit decisions of the downloaders, cookie files and the
  ffmpeg command lines;
- `number` — numbers written as text (filter values, lengths in seconds,
  durations in milliseconds), read in the forms `str::parse::<f64>` accepts
  and kept exact;
- `utils`, `text`, `cli` — byte counts, rate limits, MIME types, text helpers
  and the command line's choices;
- `external` — the calls into `std`, `regex`, `url` and `m3u8-rs` whose
  contracts are trusted rather than proved.

`app/` is the program around it: argument parsing, HTTP requests, files,
progress bars and ffmpeg runs. `tests/` exercises the library.

Some representations are chosen for exactness: bit rates are whole bits per
second, frame rates and durations whole numbers (a length such as `213.5`
keeps its whole part, as `as u64` would), format scores exact integers, and
a number in a filter is compared with its exact value rather than the
nearest double; a format's HTTP headers are an ordered list of name/value pairs
(`Vec<(String, String)>`), and subtitle tables list each language once in
the order first met, in place of hash maps. With `-k` the video and audio
streams of a merge are kept beside the output file.
