# bindfetto

Binder transaction logging for Android, as a library whose behaviour is stated in
contracts and proved with Verus.

A kernel probe captures Binder transactions, a consumer turns them into log lines, and
an offline decoder turns the numeric transaction codes and raw parcels in those lines
back into method names and argument values.

- `src/` is the verified library: what the probe decides, the bytes that cross the ring
  buffer, process names and failure causes, the lines, JSON objects and DLT messages
  written from an event, the control channel and command lines, the AIDL catalog, the
  parcel reader, the line decoder and the record parser. `law_*` proof functions state
  what holds across them: that the probe captures the key that the filter looks up, that
  a logged line parses back into its fields, that a logged call decodes into its method
  and arguments, that a prefix does not matter to the decoder, and so on.
- `tests/` runs the library, with the outside crates that it calls.
- `app/` is what surrounds the library: the consumer (`bindfetto`), the offline decoder
  (`bindfetto-decode`), the C ABI of the decoder, and the probe's attach points.

Floating-point arguments pass through the library as bit patterns
(`rendering::Piece::Single` and `rendering::Piece::Double`); `app/render.rs` prints them.

The library calls `serde_json` to read a catalog, `chrono` to write a time of day, and
`String::from_utf8_lossy`, `String::push` and `char::from_u32` of the standard library.
What it takes from them unproved stands in the contracts of `catalog_json::read_*`,
`clock::chrono_clock`, `names::utf8_lossy` and the two `assume_specification` items in
`text` and `utf16`.
