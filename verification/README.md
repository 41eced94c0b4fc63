# etl_program

A small ETL that loads sales CSV files (customers, products, orders, order
details and order items) into PostgreSQL.

- `src/` is the verified library, written in Verus: header detection and
  column configuration, CSV field splitting, row parsing into typed values,
  the dimension stores that hand out ids, the per-line plans for each file
  (which lines are rows, which are rejected and why, what the counters say)
  and the records that the insert statements take. Every public function
  carries a contract, and the laws that relate functions are stated as proof
  functions beside them.
- `app/` is the program around it: command-line entry, file reading, the
  PostgreSQL connection, `COPY` and `INSERT` statements, and printing.
- `tests/` runs the library on concrete inputs.

Prices and other number columns of the price-bearing files are kept by the
library as their cleaned text; `app/` reads them as floating-point numbers,
since floating point is not verified here.

Dates are read with chrono's `NaiveDate::parse_from_str`, called from the
library through one trusted wrapper; the database is reached only from `app/`.
