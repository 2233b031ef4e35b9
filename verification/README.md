# ytdl

A server that downloads videos and sound with yt-dlp, with its rules verified by
[Verus](https://github.com/verus-lang/verus).

- `src/` is the verified library: the settings and who may use the server, the requests and the
  arguments for yt-dlp, the steps of a download, the downloads that are under way, the formats
  that are offered, and the answers to requests. Contracts are stated over views; the functions
  named `law_*` state what holds of several functions together.
- `app/` is the program around it: the terminal, the settings file, the HTTP server, the
  processes and the timers. It performs the steps that the library decides on and hands back
  what came of them.
- `tests/` runs the library on concrete values.

The program takes at most one argument: `-a` adds a user and prints an invitation, `-r` removes
a user, `-l` lists the users; without one of these it serves requests.
