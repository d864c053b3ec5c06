# mangalike

A library for keeping a manga collection in sync with the chapmanganato site
and exporting it as EPUB books, with its logic proved in Verus.

- `src/` is the verified library: reading the site's search, manga and
  chapter pages (`scrape`, over the queries of `page`), the library's folders
  (`manga_list`), its `mangalike.toml` of starting chapters (`utils`), which
  chapters to sync and the `order.txt` that lists them (`sync`), the parts of
  an exported book (`export`), the progress messages and the steps of an image
  download (`progress`), and choosing a search result by number (`query`).
  `text` holds the model of searching, splitting and trimming text that the
  contracts are written in.
- `app/` is the command line program: arguments, files, the network, the
  progress bars and the EPUB writer.
- `tests/` runs the library on concrete values.
