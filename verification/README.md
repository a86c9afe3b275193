# rustscraper

Two small command-line tools over one SQLite file. `rustscraper` fetches pages and stores fields
that CSS selectors pick out of them. `botc` stores the editions and roles of Blood on the
Clocktower and keeps track of games.

- `src/` is the library. It is written in Verus, and every function is proved to do what its
  contract says. `models` and `tables` hold the data; `schema`, `catalog`, `games` and `scrapes`
  store and read it; `selectors`, `page` and `browser` say what is fetched and extracted;
  `scraping` and `botc` are the commands; `text`, `order`, `report` and `clock` serve them all.
- `storage_laws` and `reading_laws` state what holds of the storage operations together.
  Laws about one module stand in that module.
- `app/` is the program around the library: arguments, HTTP, the browser, JSON, and the SQLite
  file. It reads tables into a `Database`, hands that to the library, and adds what is stored to
  the file. It runs as `botc` where it is called by that name, and as `rustscraper` otherwise.
- `tests/` runs the library on concrete values.

What is believed without proof: `chrono` writes the time in RFC 3339, `serde_json` quotes a
string as JSON, and `scraper` parses a page and finds elements in it. The doc comments in
`clock`, `browser` and `page` say what is claimed of each.
