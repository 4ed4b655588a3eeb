# finanzbuch

Personal finance bookkeeping: monthly income and expenses, and a depot of investments with
savings plans and a monthly history. The library is written in Verus; its functions carry
contracts that Verus proves.

- `src/` the verified library
  - `fast_date`, `plain_date`: calendar dates packed into one `u32`
  - `accounting`: months, years and the accounting history (amounts in cents)
  - `investing`: the depot, its entries, their savings plans and histories
    (`depot_entry_table` and `depot_overview` hold what the graphical front end decides)
  - `structs`: the data file of the first version
  - `csv_reader`, `sanitize`, `text`, `flatpak`: reading CSV, cleaning up and reading user input,
    reading `ldd` lines
  - `datafile`, `current_date`
- `tests/` tests of the library
- `app/` the terminal program around it: dialogues, the YAML data file on disk, the HTML of
  the graphical front end, and everything computed with floating point numbers
