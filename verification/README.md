# android-log-analyzer

Analyzes Android `logcat` text and surfaces likely crash causes: fatal
exceptions, ANRs, native crash signals, abort messages, `OutOfMemoryError`
and JNI errors. Each finding carries the evidence lines around its anchor, the
thread, package, process, exception and root cause found in them, and a
signature; incidents with the same signature are counted together in one
finding. The report renders as text (verified) or JSON.

The library in `src/` is written in Verus and verified:

- `text.rs`: text as `Seq<char>`: trimming, searching, prefixes, decimal numbers.
- `model.rs`: the domain types and their views.
- `pattern.rs`: the two regular expressions and what matching them gives.
- `compiled.rs`: the `regex` crate behind them.
- `parser.rs`: splitting text into lines and parsing each line.
- `analyzer.rs`: detection, evidence, context, explanations, signatures.
- `aggregate.rs`: counting repeated incidents together; the summary.
- `report.rs`: the text report.
- `laws.rs`: properties of the whole, proved.

`app/` holds the command-line program (file or stdin input, `--format`,
`--output`) and the JSON rendering through serde.
