# fook-kdb

A time-series store for market ticks, with its logic verified by Verus.

The program logs on to an exchange over FIX 4.4, keeps the quotes and trades that
arrive in column buffers in memory, writes them to Parquet files partitioned by
kind, day and symbol, merges small files in the background, and answers SQL
queries over both the files and what is still in memory.

## Layout

- `src/` is the library: what the program decides and computes, as functions with
  contracts that Verus proves. It does no I/O.
  - `fix/`: the field parser, raw messages, the codec, the session messages, and
    the round trips from a written message to a read one.
  - `network/`: framing of messages in a byte stream, and the session as a state
    machine from what arrives to what is sent and stored.
  - `types.rs`: quotes, trades and ticks, and how they are read from a message.
  - `store/`: column buffers, the hot buffers, the catalog, paths, flushing and
    compaction.
  - `query/`: the query syntax, the date window, what a query reads, and the lines
    of a query session.
  - `utils/`: numbers, symbols, dates and times.
  - `buffer.rs`, `std_text.rs`, `text.rs`, `errors.rs`, `config.rs`: the ground
    that the rest stands on.
- `app/` is the program: sockets, files, timers, configuration files, prices as
  floating-point numbers, Parquet and SQL. It tests what a library function
  requires before it calls it.
- `tests/` runs the library on concrete values.

## What is proved

Each public function states its result for every input that it accepts; of those
that read the clock, it is the range of the result. Beyond that, these properties
hold across functions, each a public proof function:

- what the codec writes, it reads back, and framing finds exactly the message that
  was written, however the stream is cut into reads;
- a session answers a test request with its id, and its messages keep their
  meaning over the wire;
- whatever the stream of ticks brings, as long as every file is written no buffer
  reaches its limit, and only safe symbols are buffered;
- a row that is buffered is read by the next query for its symbol and by no other,
  a flush takes rows out of memory, and a flush that failed loses none;
- files are read in the order of their days;
- a merge replaces the files of one partition by one new file and touches no other
  partition, a merge that was carried out as planned is taken up as planned, and a
  pass in which every merge succeeds leaves nothing due, where a partition may
  have at least one file;
- a date window is as wide as promised, whichever way round its bounds are given.

What is taken on trust is small and marked in the source: each call into `bytes`,
`chrono`, `polars` and a few functions of the standard library stands behind one
function whose comment says what is claimed of it.

## Running

```text
fook_kdb [logon_config] [batch_config] [listen_config] <symbol1,symbol2,...>
```
