# telegram-drive-headless

A small always-on service that keeps video parts as ordinary Telegram documents
and serves them back over HTTP: to clients that present a key, and, as fixed
64 MiB segments of a logical video, to a CDN that presents a key derived from
it.

`src/` is the library, verified with Verus. It holds every decision of the
service, as functions on plain values:

| module | what it decides |
| --- | --- |
| `text`, `number` | white space, header text, decimal and hexadecimal notation |
| `names`, `range` | safe file names; the byte range that a request asks for |
| `request`, `reply` | the headers that decisions rest on; errors and response heads |
| `auth`, `access` | the two keys, and who is let in where |
| `playback`, `registry` | playback assets: which are accepted, how they are found, saved and loaded |
| `stream`, `segment` | the stretch of a document or of a logical video, cut out of downloads |
| `files`, `upload` | listing, showing, downloading, deleting and uploading files |
| `peers` | the chat that a folder number stands for |
| `config`, `login` | settings and commands; logging the Telegram session in |

Public proof functions whose names start with `law_` state what holds of
several of these together: that all segments of a video are the video, byte for
byte; that a segment which breaks off has handed on its front, and is not taken
for a whole one; that a window hands on the same stretch however a download is
parted; that a registry that is saved is loaded back; that nobody is let in
without a key.

`app/` is the program around the library: the HTTP server, the connection to
Telegram, the files and the terminal. `tests/` runs the library.
