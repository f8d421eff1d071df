# mp3_downloader_gui

Search and download music from MP3Party, DriveMusic, Pesni.me and YouTube (through
yt-dlp), play it, and share texts through a small link server.

The rules of the program are a library verified with Verus (`src/`):

| module     | what it decides |
|------------|-----------------|
| `batch`    | the batch search box: one query per line, numbering and comments dropped |
| `links`    | the import box: direct file links, track pages, bare ids |
| `html`     | MP3Party track and search pages, download URLs of a track |
| `sources`  | site URLs, DriveMusic and Pesni.me pages, search result filtering |
| `ytdlp`    | yt-dlp command lines and how its output is read |
| `downloads`| trying candidate URLs in order, yt-dlp progress |
| `tasks`    | the downloads list: no download started twice, combined progress |
| `session`  | results, status line, progress counters, the bounded log |
| `playlist` | next / previous / shuffle / repeat |
| `library`  | which files of the downloads folder are media, newest first |
| `share`    | the share store: lifetimes, read limits, expiry |
| `display`, `tools` | labels and status lines; `which` output, mpv builds and command lines |

Calls into `regex`, `scraper`, `urlencoding`, `rand`, `chrono` and `uuid` stand
behind small trusted wrappers whose contracts name what they return.

`app/` holds the window (egui), the network and process plumbing, the audio player
and the share server's HTTP front (`mp3_downloader_gui share-server`).
`tests/` runs the library on concrete inputs.
