# seastamp

Stamps tables of longitude/latitude points with sea attributes: distance to the
coast, bathymetric depth, sea name, nearest country and municipality, and the
nearest location of a second table.

- `src/` is the verified library. It holds the decisions the tool makes:
  which format a file name selects and what the default output is called,
  which region a `--region` name resolves to and what a near miss suggests,
  the columns each module appends and the refusal to overwrite existing ones,
  the reduction of the input rows to unique locations and the join of the
  results back onto every row, the grouping of named polygon parts, and the
  assignment of locations to partitions. Every function carries a contract,
  and the laws that relate functions are proved as public proof functions.
- `app/` is the command-line program around it: argument parsing, reading and
  writing tables and reference data, and the spherical geometry, which works
  in floating point.
- `tests/` exercises the library on concrete values.
