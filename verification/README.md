# Astra Sentinel

Astra Sentinel looks at files: it hashes them, looks the hashes up in a database of known-bad
signatures, evaluates YARA rules on them, and reports what it found. It can scan one file or a
whole directory, bring public rule feeds up to date, and export a report.

The library in `src/` is written in Verus. Everything it decides is stated in contracts and proved:

- `text`, `hex`, `paths`: texts, hexadecimal, and paths as rows of parts.
- `signatures`, `digest`: the signature database, its records, and the hashes of a file.
- `yara`: what the `yara` program prints, and what its runs mean.
- `engine`, `session`: what a file is judged to be, and the course of a scan.
- `archive`, `feeds`: rule files out of ZIP archives, and the course of bringing feeds up to date.
- `display`, `app`, `report`, `view`: the texts that are shown, the state of the console, the
  report, and what the panels show.

What the proofs rest on, beside Verus and its library, is marked `external_body` or
`assume_specification`: calls into the `md-5`, `sha1`, `sha2` and `zip` crates and a few of `std`.

Reading and writing files, running programs, downloading and drawing are in `app/`. It performs
the actions that the library asks for and hands back what it saw.
