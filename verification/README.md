# frontpress_local

The core of FrontPress Local, a desktop app that runs FrontPress Studio sites
on a bundled PHP: the site list and settings, PHP version handling, slugs, and
the decisions behind every UI command, written in Verus and verified.

- `src/` — the verified library (`text`, `version`, `catalog`, `php`, `store`,
  `slug`, `errors`, `commands`, `lifecycle`, `editor`, `counting`).
- `tests/` — tests of the library on concrete values.
- `app/` — the desktop side: folders and files, `sites.json` as JSON, the
  installed PHP runtimes and the PHP servers, calling the library for every
  decision. Fetching PHP builds and FrontPress releases over the network is
  not part of it.
