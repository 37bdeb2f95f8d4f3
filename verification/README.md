# things

A command-line client library for the Things 3 cloud, with its logic verified by Verus.

`src/` holds the library: the ids and their base58 text, the store the cloud's history is read
into, the calendar and the rules of repeating to-dos, and the plans each command makes (new,
edit, schedule, reorder, mark, delete, the tag, area and project edits, find, the logbook,
`show`, the lists of projects and tags). Every plan states, in its contract, what it writes for
every input and which message refuses an input. Calls into chrono, rand and crc32fast stand
behind small trusted wrappers whose contracts say what those crates document.

`app/` is the program around it: argument parsing, reading the store, the machine's clock and
time zone, and printing.

`tests/` runs the library on concrete stores.
