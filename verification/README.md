# SeeDraft

SeeDraft turns speech into text on the user's own machine, tidies the text with a local language
model, and keeps it as notes, drafts, translations and live captions.

The library under `src/` holds the rules of the program. Nearly every function in it has a contract,
and Verus proves them all. The program under `app/` is the server, the database, the models, the
audio devices and the window around it.

## The library

| Modules | What they hold |
| --- | --- |
| `text`, `script`, `dictation` | characters, lines and words; the script of a text; fillers and spoken commands |
| `chat`, `process`, `pipeline`, `reply` | questions to a language model, and what is kept of its replies |
| `draft`, `caption`, `trial` | drafts out of notes, translated captions, the trial of a model |
| `live`, `session` | whole sentences out of a stream of speech, and the sessions that collect them |
| `records`, `tables`, `schema`, `storage`, `graph`, `context`, `requests` | the rows, what holds of them, and every operation on them |
| `promises` | what the store promises over several calls |
| `models`, `registry`, `catalog`, `loading`, `requirements` | which model runs on this machine, and how it is fetched and loaded |
| `audio`, `capture`, `normalize`, `transcription` | uploads, recordings, WAV files, and how an upload becomes a note |
| `locales`, `settings`, `server`, `desktop`, `shortcuts` | texts of the interface, settings, addresses, keys and shortcuts |
| `ids` | identifiers and the clock |

The store is a value in memory with the tables of the database; the program reads them when it
starts and writes them after every change. Work that waits for a device or a model is a state
machine: a step takes what became of the last action and says which one is next.

What holds over several calls is stated in public proof functions whose names begin with `law_`.

## What is not proved

A few functions of the standard library, `uuid` and `serde_json` are called through small functions
that are marked `#[verifier::external_body]`, or have an `assume_specification`. The comment above
each says what is taken for granted. Floating point numbers stay in `app/`; the library carries a
duration as its bits.
