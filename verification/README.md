# player_subtitles

A subtitle library that works on raw bytes, so that files in any
ASCII-compatible encoding (UTF-8, Windows-1251, ...) are read and written
as they are. It reads SubRip (`.srt`), WebVTT (`.vtt`) and SubStation Alpha
(`.ass`) files line by line, converts between the three formats, writes
them with optional time filtering and shifting, and validates and
standardizes SubRip subtitles.

The library in `src/` is verified with Verus: each public function states
what it returns in terms of specification functions over byte sequences,
and the writers, readers and standardization are proved against them.

- `byte_helpers`, `byte_lines`: trimming, words, numbers; splitting bytes
  into lines at `\n`, `\r\n` or `\r`.
- `time`: timestamps, their arithmetic and their text forms.
- `srt`, `vtt`, `ass`: one line of each format, the line readers (`*Lines`,
  which also convert from the other formats) and the writers.
- `srt::subtitles`, `srt::block`, `srt::standard`: SubRip subtitles held
  as a list of lines, their validation and standardization, and what
  standardization guarantees: standard blocks in the order of their times
  (stable), lines that keep their bytes, and nothing more to do a second
  time.
- `srt::canonical`, `vtt::canonical`: files in the form the writers give,
  and the proof that reading such a file and writing it back gives the
  same bytes.
- `ass::time`: SubStation Alpha timestamps, and the proof that an event
  time is written back as it was read.
- `ass::canonical`: SubStation Alpha scripts in the form the writer gives
  (the header, then dialogue lines in the default format), and the proof
  that reading such a script and writing it back gives the same bytes.
- `find`: finding the first line that a predicate accepts.
- `ass::from_srt`: what converting such a SubRip file to SubStation Alpha
  lines gives: the script header, then one event per block.
- `options`: the write options.

`app/` holds what touches files and streams: opening files, reading from
readers and writing to writers.
