# sotalog

Log tools for SOTA and POTA amateur-radio activations, written in Verus: the
executable code of `src/` carries contracts that Verus proves.

## Layout

- `src/fle/`: the FLE (fast log entry) tokenizer and compiler, and the SOTA
  CSV, ADIF, HAMLOG and AirHam outputs of a compiled log.
- `src/logconv/`: HAMLOG and HamLog iOS rows, ADIF reading and writing, and
  the conversions to SOTA CSV, POTA/WWFF ADIF and AirHam.
- `src/award_calculator.rs`: the 10th anniversary award judgement of a SOTA
  log (activator and chaser).
- `src/aprs_service.rs`, `src/domain/model/aprslog.rs`: the states of an
  APRS station approaching a summit, its messages and the spots report.
- `src/user_service.rs`: alerts and spots grouped by activator or reference.
- `src/pota_log_service.rs`, `src/reference_sync.rs`: the decisions of a POTA
  log upload and of a refresh of the stored summit and park lists.
- `src/wspr.rs`: WSPR spot lines sorted into the time windows of a chart.
- `src/calendar.rs`, `src/pattern.rs`, `src/text.rs`, `src/num.rs`: dates and
  times (through `chrono`), regular expressions (through `regex`), text and
  numbers.
- `app/`: the command-line program around the library: files, ZIP archives,
  CSV reading, SVG drawing and the APRS service's store.
- `tests/`: tests of the library.

The award certificate PDF (drawing the callsign and achievement over a
template image) is not part of this crate: it is floating-point layout done
with the `printpdf` crate, which is not available to it. Only the template
names (`award_pdf::AwardType::template_filename`) and the text widths of
Helvetica Bold are here.
