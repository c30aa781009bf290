# rosu_pp (osu!standard difficulty, integer core)

A Verus library holding the integer-valued decisions of osu!standard difficulty
calculation, with their contracts proved:

- `total_order`: order keys of binary64 bit patterns; comparing keys is the
  IEEE-754 total order, and keys turn back into the same bits.
- `osu::difficulty::evaluators::rhythm`: rhythm islands and the state machine
  that groups earlier objects into islands and records the distinct ones.
- `osu::difficulty::skills::aim`: the sorted, length-bounded list of section
  peaks a strain skill keeps.
- `osu::difficulty::skills::queued_strains`: the strains held back while a
  section is open.
- `osu::difficulty::skills::sorting`: stable sorting from the highest value down.
- `osu::difficulty::skills::reading`: the count of notes in the map's first minute.

`app/` holds the floating-point side (difficulty objects, evaluator scoring,
strain arithmetic). It turns values into order keys, lets the library decide,
and turns keys back into values.
