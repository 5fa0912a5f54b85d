# public_logs

The rules of a server that shows a game's round logs to the public, verified
with Verus. Of a game log, the IP addresses that stand in it, the word of a
login that tells the player's address and computer, and the entries that are not
for the public are taken out. An address can come about where the digits on both
sides of one that was taken out meet. Other kinds of files are sanitized by the
program around the library, or not shown. Paths are Unix paths.

* `src/` is the library. `parsers` says what is published of a log, `page` and
  `listing` write the HTML, `request` and `route` answer requests step by step,
  `paths` and `text` are what these are built on, `patterns` holds the regular
  expressions, and `laws` states what holds of the library as a whole.
* `app/` is the HTTP handler: it performs the steps that the library asks for.
* `tests/` runs the library, with the crates that it calls.
