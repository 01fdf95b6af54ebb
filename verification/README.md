# tagger-neo

The core of a desktop editor for the captions of image datasets, verified with
[Verus](https://github.com/verus-lang/verus), and the egui application around it.

Images have their tags in text files of the same name, separated by commas. The
editor shows the images of a folder, filters them by their tags, edits captions
one by one or in batches with undo and redo, saves them without losing old
contents, exchanges them with metadata documents, and has a WD14 model suggest
tags.

## Layout

`src/` is the library. Every function in it has a contract.

- `text`, `order`, `paths`, `json`, `tag_set`, `pattern`: texts, sorting, paths,
  JSON values, ordered sets, regular expressions.
- `tags`, `edits`, `frequency`, `filter`: captions, what an edit makes of a list
  of tags, counts, filters.
- `item`, `history`, `dataset`, `batch`, `sorting`, `storage`: a dataset, its
  history, the edits of it, loading and saving.
- `tag_picker`, `thumbnails`, `settings`: controls and settings.
- `editor`, `session`, `panels`, `actions`, `grid`: the state of the editor and
  what each control does to it.
- `tagger`, `download`, `imaging`, `tagging`, `suggestions`: models, their files, the images
  that they take, and what becomes of their predictions.
- `metadata`, `file_ops`, `transfer`: metadata documents, moving and deleting,
  and the steps in which files are replaced and copied.
- `laws`, `editor_laws`, `metadata_laws`: what holds of several operations
  together. Laws of a single module stand in that module.

`tests/` runs the library on examples. `app/` is the application: windows,
dialogs, files, the network and the model runtime. Floating point numbers occur
there only; the library takes their bits.

Functions that call other crates or an unspecified part of the standard library
are marked `external_body`, and say above their contract what is claimed of the
call.
