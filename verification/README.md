# pocket_calibre

The books of a [calibre](https://calibre-ebook.com) content server on a PocketBook e-reader: browse
the list page by page, look at the covers, tap a book to download it.

`src/` is the library: everything that the program decides and computes, with contracts that Verus
proves.

- `calibre`, `listing`, `download`: the client of the server, its requests, the list of books, and
  the steps of a download.
- `worker`, `session`: what the worker does on each command, turn by turn, and what the UI sees of
  a whole command.
- `pager`: the list cut into pages, with the cache of covers.
- `settings`, `config`: the settings screen, the settings, and where their file is looked for.
- `ui`: events, messages of the worker, and the language of the interface.
- `cover`, `jpeg`: covers at 4 bits per pixel, and the headers of the files they come in.
- `keyboard`, `net`: the on-screen keyboard and the network of the firmware.
- `i18n`: every text that the program shows, in English and Russian.
- `encoding`, `number`, `path`, `text`, `json`: what the rest is built of.

`app/` is the program around it: the threads, the window, the firmware, the network and the disk.
`tests/` runs the library on concrete values.
