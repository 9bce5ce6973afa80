# manga2epub

A converter that packages ordered manga page images (JPEG and PNG) as a
fixed-layout EPUB 3 publication, written in Verus.

- `src/` is the verified library. It decides everything that plain values
  determine: the natural order of image files, the dimensions read from image
  headers, page placements in synthetic spreads, validation of bibliographic
  data, dates and the table of contents, the events of every XML document of
  the package, the names of the resources and the layout of the OCF archive.
  Each public function states its result in its contract; the laws that tie
  several functions together are public proof functions named `law_*`.
- `app/` is the command line program around it: argument parsing, the YAML
  configuration file, the file system, the clock, random identifiers, the ZIP
  writer and the localized messages.
- `tests/` runs the library on concrete values.
