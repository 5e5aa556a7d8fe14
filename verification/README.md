# Textify

Extracts text from any region of the screen: slurp selects a region, grim
captures it, magick prepares the image, tesseract reads it, and wl-copy puts
the text on the clipboard. Everything happens on the machine itself.

`src/` is the library, verified with Verus. It decides everything and touches
nothing: a command is a function from the replies of the machine to the next
request, a result or a failure. `app/` carries the requests out and hands the
replies back.

- `text`, `paths`, `unicode`, `json`: operations on text and bytes
- `host`: requests, replies, and the conversation made of them
- `tools`, `tempfile`, `lang`, `engine`: finding and running programs, private
  temporary files, the choice of the language, one reading
- `options`, `cli`: the command line
- `trace`, `walk`, `tidy`, `laws`: what holds of every conversation. Each
  request is of one of a few fixed forms, no temporary directory is left
  behind, and one more reply takes a command further from where it was.
  Replies of the kind asked for never lead to a mismatch.
