# omakindle

The backend of a Kindle panel: it reads a library, the progress in it and its
highlights from read.amazon.com, keeps them, and serves them to local clients
over a Unix socket, one JSON object per line.

`src/` is a library that is verified with Verus. It holds the rules: what is asked of Amazon and what the answers mean (`amazon`,
`credentials`, `encoding`), what is kept and shown (`state`, `refresh`,
`reading`, `passages`, `highlights`, `enrich`, `recent`), what clients may ask
and how they are answered (`requests`, `wire`, `lines`), where files and the
socket may stand (`paths`, `secrets`, `socket`), and two commands (`fetch`,
`probe`). `json` and `text` hold what the rest builds on. Every function is
proved against its contract but for the wrappers around `serde_json` in `json`,
one wrapper each in `encoding` and `lines`, and `String::push` in `text`: these
call outside code, and their contracts are taken as given.

`app/` is the program around it: the HTTP client, the files, the clock, the
socket and the JSON forms of the library's types.

`tests/` runs the library from outside.

Percentages are held in tenths of a percent, so that the library needs no
floating point.
