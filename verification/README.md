# dynamodb_client

A command-line client that writes generated items to the DynamoDB table `books` in
batches of 25, sequentially and in several parallel ways, and that scans, counts, reads
and deletes them.

- `src/` is the verified library: command-line parsing, decimal rendering and parsing of
  numbers, generation of write requests, the partition of item ids into batches and into
  worker shares, the sequential batcher, the aggregation of batch results (written,
  unprocessed and failed requests, and their retry), the key extraction used by deletion,
  and the measurement plan and records.
- `app/` holds what talks to DynamoDB, spawns tasks and threads, prints and writes files.
- `tests/` exercises the library on concrete values.
