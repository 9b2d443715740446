# Mizuki

Mizuki follows the weekly broadcast of anime: it shows the calendar, keeps the collection
and the watched episodes in step with Bangumi, reads RSS feeds of releases, picks what to
download by rules, and keeps the downloads in order.

`src/` is the logic, written in Verus: every function states what it returns or changes, and
the statements are proved. `app/` is the program around it: the window, the SQLite file, the
network and the torrent engine. With the argument `broker` the program runs the small
sign-in service.

| module | subject |
| --- | --- |
| `text`, `numbers`, `order`, `rows`, `table`, `json`, `clock`, `ids` | texts, decimals, sorting, rows of records, documents, time and ids |
| `models`, `stored` | subjects, feeds, items and downloads, and how subjects are stored |
| `matcher`, `subscriptions`, `rss`, `feeds`, `markup` | titles and rules, feeds and their items, how deep extensions are nested, refreshing and batch downloads |
| `links`, `bt` | what identifies a download source, trackers, what the engine is told |
| `db` | the records and every operation on them |
| `downloads`, `files` | the life of a download, its files on disk |
| `bangumi`, `bgmlist`, `calendar`, `covers`, `collection`, `sync_pass` | the calendar, the search, covers, the collection and its synchronisation |
| `settings` | the settings and their bounds |
| `broker` | the tickets of the sign-in service |

The records are held in memory and stated as sequences of rows. `app/store.rs` writes what
a change made different to SQLite in one transaction. Paths are read as Windows reads
them. Fractions are kept as two counts; only `app/` computes with floating point.

Laws that relate several functions are the public proof functions whose names begin with
`law_`. What is taken from outside crates without proof is marked
`#[verifier::external_body]` or `assume_specification`, each with a comment that names the
outside function and says what is claimed of it.
