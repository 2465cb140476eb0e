# prismdmx

The verified core of a DMX lighting console: the patch flattened into merge
slots, the playback merge (HTP and LTP), cue lists compiled into tracking
tables and played by cue players, the programmer, the grand and group masters,
the encoding of attribute values into DMX frames, the flat command form that
crosses into the tick, the tick's time base, and the control surface's binding
vocabulary.

- `src/` is the library. Every function in it carries a contract that Verus
  proves, and the `law_*` proof functions state the properties that hold
  across calls.
- `tests/` runs the library on concrete values.
- `app/` is what the library leaves to its host: the programmer's serde wire
  form, the conversions that need floating point (seconds to ticks, and the
  decimal cue-number comparison that yields a list's playback order, which
  `SequencePlan::build` and `Sequence::tracking` then take and check), and a
  wait that sleeps in slices before spinning.
