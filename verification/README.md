# relentless

Comparison and load testing of HTTP services, driven by configuration files: each
testcase is sent to every destination of its configuration, as often as it is repeated,
and the responses are compared with each other or held to what the configuration
expects. The run ends with a report on the console or in GitHub markdown.

The library under `src/` is written in Verus: its functions carry `requires` / `ensures`
contracts over mathematical models, and Verus proves them.

- `destinations`, `text`, `template`, `transpose`: named values per destination, text
  helpers, the `${var}` / `${ENV:var}` template grammar and its rendering, and turning
  nested collections inside out.
- `config`, `command`: settings and how they coalesce, the options of a run, overrides of
  destinations.
- `request`, `worker`, `router`, `record`: the requests each repeat makes, what an
  outcome means, routing by origin, the recorded text of requests and responses.
- `evaluate`, `grpc`, `messages`: how statuses, headers and bodies (plain text, JSON) are
  judged, with the messages that say why not.
- `metrics`, `aggregate`, `threshold`: measurements, their aggregation and grades.
- `reportable`, `report`: verdicts of testcases, configurations and runs, and the pieces
  of text of the console and markdown reports.
- `laws`: properties of the library as a whole, stated and proved over the models.

`app/` is the command line program around it: argument parsing, reading files, sending
requests, measuring time, and the floating point summaries of the reports.
