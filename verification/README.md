# Daily Construction Progress Report

A static, offline web form for the City of Edmonton IIS *Daily Construction
Progress Report*: fill it in, export a vector PDF, and open that PDF again
later to keep editing. The PDF carries the form's data at its end, in a
`%%DCPR-DATA:` comment line (base64 of the form's JSON), which PDF viewers
skip.

The library `daily_report` (under `src/`) is written and proved with Verus:

| module     | what it holds                                                                                                 |
|------------|---------------------------------------------------------------------------------------------------------------|
| `report`   | `ReportData`: text fields by name and ticked boxes, as a map and a set kept in name order                      |
| `json`     | the form as one JSON object (`to_json`, `from_json`), through `serde_json`                                    |
| `marker`   | the data block appended to an exported PDF and read back from it, through `base64`                            |
| `model`    | the checklist, the field names and the sheet cells each field is drawn into                                  |
| `template` | the sheet template (merges, borders, label texts) read from its JSON description, through `serde_json`       |
| `layout`   | the renderer's integer decisions: labels, merges, label overflow, pages, WinAnsi text, PDF object numbers     |
| `wrap`     | clipping and greedy word wrapping against a caller's width test                                               |
| `filename` | the name a report or draft is saved under                                                                     |
| `pairs`, `order`, `names`, `chars` | small string-keyed maps and sets in name order, the string order, digit names, and std's character tests |

Among what is proved: reading the data block back from an exported PDF gives
the form that was written (a text field that shares its name with a ticked
box excepted), whatever bytes precede it; reading the JSON back gives the
form; every text field and every checkbox is laid out in exactly one cell on
the sheet; checkbox cells follow the checklist; wrapping keeps every word in
order.

`app/` is the WebAssembly front end (browser glue through `wasm-bindgen` and
`web-sys`) and the floating-point PDF drawing through `pdf-writer`; it calls
the library for every decision above.

`cargo test` runs the tests under `tests/`.
