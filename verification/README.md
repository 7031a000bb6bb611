# marchiver

`marchiver` archives media one file at a time: it inspects a file, plans its
migration, copies or encodes it, verifies the result, and only then disposes of
the source. Plans, manifests and journals are Pkl documents; Pkl is executable
configuration and must come from a trusted local source.

```sh
marchiver inspect movie.mkv --output inspection.pkl
marchiver plan movie.mkv /archive/movie.mkv --output plan.pkl
marchiver apply plan.pkl
marchiver verify /archive/movie.mkv.marchiver.pkl
marchiver restore /archive/movie.mkv.marchiver.pkl
```

Paths are worked with as the system holds them, UTF-8 or not; a path that is
written into a document has to be UTF-8. `ffmpeg` and `ffprobe` have to be on
`PATH`; the `av1` profile needs `libsvtav1`. The program runs on Unix.

## How it is built

The library under `src/` is written in Verus, and everything in it is proved
against its contracts, except the few declarations of outside functions named at
the end, whose contracts are taken on trust. It does no input or output. A
workflow is a function over a tape of the replies that were given so far: it runs
until it needs a reply that is not there yet, and then asks for it. The program
under `app/` performs what is asked, adds the reply to the tape and runs the
workflow again. A contract states, for every sequence of replies, what the
workflow asks next or what it ends with.

| Modules | What they hold |
| --- | --- |
| `text`, `os_text`, `seconds`, `path`, `digest`, `pkl` | texts, and texts as the system holds them; numbers of seconds, paths, SHA-256 digests, Pkl literals and document checks |
| `model`, `render` | the documents, and how they are written |
| `plan`, `compare` | the rules for plans, manifests and journals, and for outputs |
| `flow` | requests, replies and the tape |
| `inspect`, `tool`, `storage`, `load` | inspection, outside programs, durable file operations, reading documents |
| `disposal`, `apply`, `command` | what becomes of a source, the transaction, the commands |
| `identity`, `legible` | what identifiers and written documents tell apart |
| `trace`, `replay`, `safety`, `keeping`, `resume`, `outcome`, `world`, `lifetime`, `runs`, `rest` | what holds of whole runs |

## What is proved of whole runs

- Running a workflow again over the same replies asks for the same things
  (`replay`).
- Inspecting and verifying only look, and where no inspection or plan can be
  made, nothing is written. A transaction changes nothing outside its own files
  before the manifest is durable, and never writes to its source (`safety`).
- Every journal that is written can be resumed from, phases only advance, and a
  complete transaction rests (`resume`).
- What is archived was verified: its digest, its streams and a full decode
  (`outcome`). What is verified at one tolerance is so at every larger one
  (`compare`).
- On a model of a file system, at every moment of a quarantine or a restoration
  the source's bytes have a name, restoring reverses a quarantine, and no
  publication replaces a file (`world`).
- On the same model, a whole run of a plan with quarantine never loses the source,
  from whatever journal of its own it goes on and wherever it stops; a run that
  begins afresh, or goes on from a journal not behind the publication of its output,
  takes the source's name away only behind a manifest and a verified, decoded
  output, and what it has archived verifies; and behind a run that came to its end
  a restoration brings the source back, once and for all (`lifetime`).
- Over several runs, each of which takes up the journal that was left before it, the
  source goes only behind a manifest and an output that one of them verified and
  decoded, and what they have archived verifies (`runs`). Behind a run that came to
  its end, another one says that all is complete, and does nothing (`rest`).
- Two documents that are written alike are alike (`legible`), and plans that
  differ in what identifies them are digested from different bytes (`identity`).

## What is taken on trust

`sha2` computes SHA-256, `pklx` writes string literals and evaluates documents,
and the standard library decodes UTF-8; what is claimed of them stands above
each declaration. The proofs say nothing of what the performing side does with a
request, of the programs it runs, or of changes that others make meanwhile.
