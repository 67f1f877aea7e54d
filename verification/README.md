# one_collect

Event collection: describing the fields of an event, reading, filtering and
writing its data, running callbacks for each occurrence, and the parts of
Event Tracing for Windows (ETW) that decide how a provider is enabled and
how a TDH schema becomes an event format.

The library under `src/` is verified with Verus:

- `event::format`: `EventFormat` and `EventField`, looking fields up by name,
  locating a field's data behind dynamically sized fields, and typed reads.
- `event::filter`: filters that compare a field with a number or a string.
- `event::writer`: rendering field data as text.
- `event::data`: the data handed to callbacks, and shared data ranges.
- `event::callback`: registered callbacks, with a record of each run and its
  result, and the order runs happen in.
- `event::dispatch`: `Event`, its flags, and running its callbacks.
- `etw::abi`: what is handed to ETW when a provider is enabled, and the
  status `EnableTraceEx2` answers with.
- `etw::tdh`: building an event format from `TRACE_EVENT_INFO` bytes,
  deciding on the status codes `TdhGetEventInformation` answers with, and
  the cache of schemas, one per kind of event.
- `bytes`, `text`, `guid`: integer encodings, text helpers and GUIDs.

`app/` holds the Windows API calls (sessions, `EnableTraceEx2`,
`TdhGetEventInformation`) and the rendering of floating point fields.
