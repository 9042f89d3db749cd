# rubbish

A small dump receiver with a terminal viewer. Programs under development post
JSON documents to it; the viewer lists them, filters them by tag and shows a
preview.

The library in `src/` holds the rules of the program and is verified with Verus.
The program itself, in `app/`, reads and writes files, talks HTTP and draws on
the terminal. What is listed, shown, stored and answered it asks the library
for.

## Using it

- The server listens on `127.0.0.1:7771` and takes posts to `/dump`. The headers
  `rubbish-title` and `rubbish-tags` give a title and a comma-separated list of
  tags.
- Each dump is stored as `<ULID>.json`, with a sidecar `<ULID>.metadata.json`
  that holds the title, the tags and the time in milliseconds since 1970.
- Dumps live in `$XDG_DATA_HOME/rubbish/dumps`, else in
  `$HOME/.local/share/rubbish/dumps`, else in `./dumps`.
- In the viewer the arrows or `h`, `j`, `k`, `l` move, a space picks a tag, `c`
  drops all picked tags, `m` switches between matching all picked tags and any
  of them, Enter opens the dump in `jless` or `less`, and `q`, Esc or
  Ctrl-C leaves.

## The library

| module | what it is about |
| --- | --- |
| `text` | texts as sequences of characters |
| `size` | sizes in binary units |
| `natural` | the natural order of tags |
| `tags` | picked tags, filtering, counting |
| `json` | reading and writing JSON documents |
| `metadata` | what a sidecar says of a dump |
| `names` | file names and directories |
| `clock` | points in time on the local clock |
| `listing` | the list of dumps and its order |
| `browser` | the state of the viewer, and files coming and going |
| `keys` | what the keys do |
| `width` | the columns a text takes |
| `render`, `layout`, `status` | what is drawn, and where |
| `preview` | the text of the preview |
| `server` | what is stored of a post, and what is answered |
| `poll` | finding changes by looking again |
| `pager` | the program that dumps are opened with |
| `shortlist` | the short list of a directory |

The calls into other crates stand behind a few small functions whose contracts
are taken on trust; each says in its comment what it claims: `json_field`,
`json_object` and `json_pretty` (`serde_json`), `local_stamp` and `now_millis`
(`chrono`), `text_width` (`unicode-width`), `header_text` (`axum`), `fresh_id`
(`ulid`), and `text_of_bytes` and `String::push` (`std`).
