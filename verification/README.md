# beng_leecher

A small downloader for the openly delivered HLS videos of De Schatkamer, with a web
interface. The decisions it takes are a library verified with Verus; the network, the
disk and ffmpeg are ordinary Rust around it.

- `src/` is the library. Every function states in its contract what it returns or
  changes, and the modules whose names end in `laws` state what holds across functions.
  - `text`, `numbers`, `paths`, `table`, `clock`: strings, numerals, file names, a map
    and log lines.
  - `duration`, `args`: the command line.
  - `names`: episode keys, cached files, kept files and job ids.
  - `page`, `series`: what is read from the pages of the site.
  - `jobs`, `state`, `index`, `cleanup`: the jobs, the server, the index of the media
    library and the sweep of the cache.
  - `encoder`, `pipeline`: the command lines of ffmpeg, and the run of a job as a state
    machine from events to actions.
  - `naming_laws`, `site_laws`, `pipeline_laws`: the laws.
- `tests/` runs the library on concrete values.
- `app/` is the program: it performs the actions that the library asks for and hands
  back what came of them.

Trusted are the regular expressions (`page`, `series`), the JSON of the index (`index`),
`char::is_alphanumeric` (`names`) and `String::push` (`text`); each says in its doc
comment what is believed of it.
