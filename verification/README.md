# aioncore

The decision logic of the AionCore backend as a verified library, and the application code around
it.

- `src/` holds the library. Verus checks the contracts of its executable functions, and the public
  proof functions state what holds across them. The exceptions are the small functions marked
  `external_body`, which call an outside crate or std: their contracts are believed, not checked,
  and their doc comments say what is claimed of the outside function.
- `app/` holds what touches files, the network, the store and the process-wide log subscriber. It
  performs what the library decides, and reports back what came of it.
- `tests/` runs the library on given values.

| Module | What it decides |
| --- | --- |
| `live_tool_output` | what is shown of the output of a running command, and how often |
| `log_date`, `log_cleanup` | where the logs of a day lie, and which days are past their retention |
| `log_writer`, `log_history` | which log file a write goes to, when a new one is begun, and what the files hold after many writes |
| `log_root`, `log_filter`, `bootstrap_error` | which directory logs go to, what is logged, and how a failed start is reported |
| `external_report`, `report_history` | how a report from outside is stored once and never changed, however often it is delivered |
| `device_address` | which device a request comes from |
| `integration`, `relay`, `navigation`, `navigation_error` | how a request about a conversation's card is relayed to this machine's MindNProgress, and how failures are answered |
| `subscription_usage`, `mindnprogress`, `external_conversation_report` | the data that is exchanged |
| `text` | text helpers shared by the others |
