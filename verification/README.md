# rss-saved-queue

A private reading queue for saved web links, read in an RSS reader.

`src/` is the verified library (Verus): cleaning a link before it is saved
(`save`), device keys and their stored hashes (`auth`), the RSS feed and
feed-reader names (`feed`, `xml`), the CSV export (`csv`), the rules for
statuses, priorities and updates (`queue`), stored rows and their JSON tags
(`item`), errors and their HTTP answers (`error`), and start-up settings
(`config`). `app/` is the web service around it: routing, rate limits,
SQLite storage and static files. `tests/` runs the library on concrete
values.
