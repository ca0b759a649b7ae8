# tracepipe

Receives OpenTelemetry traces, flattens them to one row for each span and writes the rows to
ClickHouse in batches. The library under `src/` is written in Verus: every function states what it
returns, and the statements are proved. The program under `app/` does the input and output.

```text
  SDK or agent            ┌────────────┐         ┌─────────────────────┐         ┌────────────┐
  ─ OTLP/gRPC :4317 ─────▶│   source   │ batches │      pipeline       │ batches │    sink    │
  ─ OTLP/HTTP :4318 ─────▶│ or lines   ├────────▶│ collect, try again, ├────────▶│ ClickHouse │
                          │ of JSON    │◀────────│ acknowledge         │         │ or console │
                          └────────────┘  acks   └─────────────────────┘         └────────────┘
```

## Layout

| Module | What it is about |
| --- | --- |
| `text`, `value` | strings, ordered maps of JSON values |
| `json`, `reading` | JSON text, and what a reader gets back from it |
| `clock` | UNIX nanoseconds as the wall clock of a time zone |
| `compression` | gzip |
| `event` | a span as a flat record, its size and its row |
| `otlp` | export requests taken apart into spans |
| `batch`, `pipeline` | collecting, retries, acknowledgements, the course of a run |
| `source` | the OTLP receiver and the reader of lines |
| `sink` | the table, requests and health check of ClickHouse; the console; memory |
| `config`, `cli` | settings in YAML, the command line |

## What is proved

Besides what each function returns, the library states and proves laws about several of them
together:

* Whatever happens and in whatever order, collecting loses no batch, hands none on twice and lets
  none overtake another; what is collected stays below its limits, and the time runs for it.
* A run in which neither collecting nor writing failed has handed everything that came in to the
  writer, whatever the source came to; and as long as no batch is given up, what came to the writer
  is what was stored, in order.
* A batch is tried as often as is configured and is acknowledged exactly if it was stored;
  acknowledgements go out in the order of the batches.
* A sender that waits for its spans to be stored is told of success only if they were.
* Every span of a request comes out once. Identifiers are told apart by their digits.
* A time is written so that it can be read back: where the offset of the zone is one of whole
  minutes, the zone decides what is shown, not which instant is meant.
* A row is one JSON object in one line, from whose text its members can be read. It has a member
  for every column of the table, in order, and one for each field.
* The statements that create the table add whatever the health check may find missing, come apart
  at their semicolons and may be run again. A name inside a statement stays inside its quotes.
* What is sent in gzip reads back as what was to be sent; a body that unpacks to more than the
  limit is refused, however much more.

What the library takes on trust about the crates it calls stands at the functions that call them.
