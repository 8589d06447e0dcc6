# Satsuma

The backend of Satsuma, a desktop music player, as a verified library and a
thin application around it.

- `src/` is the library, written in Verus and proved: the play queue and what
  shuffle, repeat and "stop after this track" mean for it; the decisions of
  the player (what each command does, when a run of unplayable tracks stops,
  which end of track counts); the grouping tag; cover keys, their hex form and
  which image of a folder is the cover; what an incremental scan reads again,
  leaves alone or drops, and how it reports; playlist edits on the settings;
  and what is kept of an audio file's tags. Each public function states its
  result in its `ensures`, and the `law_*` proof functions state what holds
  across calls.
- `app/` holds what reads and writes: the SQLite cache, the settings file,
  tag reading and writing, walking the folders, the audio thread, and the
  commands the frontend calls.
- `tests/` runs the library on concrete values.
