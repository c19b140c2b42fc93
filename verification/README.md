# katok

Search in a local archive of KakaoTalk conversations, and sending through the
running KakaoTalk app.

`src/` is the library. It holds what the program decides: how messages are cut
into chunks, what a sync changes, what is searched for and shown, which media
file is kept, which generation of the semantic index is valid, and, for
sending, what is done next on the screen and what an answer means. Every
function there has a contract that Verus proves. The public proof functions
whose names begin with `law_` state what holds of several functions together.

`app/` is the program around it: the command line, SQLite, files, HTTP, the
embedding models and the accessibility interface of macOS. Where its work and
the library's decisions take turns, the library has a machine: a state that
asks for something, and a function from a state and what came of it to the next
state.

| module | what it decides |
| --- | --- |
| `text`, `json`, `time`, `digest` | the forms of text, numbers and digests that the rest is stated in |
| `chunking`, `archive`, `commands::sync` | chunks, what a sync changes and removes, replies, mentions |
| `search`, `transcript`, `commands` | queries, hits, snippets, exports, what a command refuses |
| `semantic` | documents, embedders, generations of the index |
| `kakao::media*`, `kakao::bplist`, `kakao::filename` | media rows, keys, names, and the ladder from cache to CDN to thumbnail |
| `kakao::ax_send`, `kakao::send_curtain`, `commands::send` | rooms, windows, the screen, deliveries |

What is believed without proof stands in the functions marked `external_body`
and in one `assume_specification`: digests, AES in CBC mode, Unicode
normalization, JSON, RFC 3339, the clock, and the text forms of std that vstd
does not specify. Each says above it what it claims.
