# typst_memtables

The verified core of a memory-lean document layout pipeline, written in Verus.

`src/` is the library; every function in it carries a contract that Verus proves:

- `engine_flags`: the switches that control eviction, streaming mode and memoization bypass, plus the counter of grid entries.
- `progress`, `cli_progress`: the progress channel, and how a terminal sink picks which lines to print and what they say (percentages, stage log, byte counts in human units).
- `accelerate`: the capped registry of memoization accelerators.
- `page_flow`: the decisions of streaming page layout, which cover the layout strategy, memory or disk for each page, cache eviction and heap trimming, chunking of parallel runs, and leftover tags.
- `page_store`: the record format and offset index of the disk-backed page store.
- `page_run`: binding side, page-number placement and the prepared flow of a page run.
- `tag`, `cell_tags`: compact cell tags, and how cells of grids and tables are tagged.
- `grid_cells`, `table`, `table_strokes`: cell maps, header resolution, row groups and border strokes for tagged PDF tables.
- `json_load`: the byte-order-mark check and the string interner for JSON data.
- `text`: decimal rendering and string comparison.

`app/` holds what cannot be verified: process-wide state behind locks, terminal output, the temporary file of the page store, and the Windows heap calls.

`tests/` runs the library on concrete values.
