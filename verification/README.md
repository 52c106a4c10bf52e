# aerogramme_core

The data model and the pure logic of a groupware server (IMAP mailboxes,
CalDAV calendars, CardDAV address books), verified with Verus.

- `src/dav`: the WebDAV elements (core RFC 4918, ACL, CardDAV, CalDAV,
  versioning, collection sync) and their XML codec. Documents are
  sequences of reader events (`xml::XmlEvent`); each decoder has a spec
  function that says what it reads from any sequence of events, and each
  encoder a spec function that says which events it writes. `codec_laws`
  proves, for the sync, ACL and CardDAV elements and for the CalDAV names,
  resource type, condition codes, property values (all but the two dates),
  filters (text matches, parameter, property and component filters,
  nested at any depth, and `supported-filter`) and `calendar-data`
  requests (the component selection at any depth), that the decoder reads back
  what the encoder writes; each law names the inputs it leaves out. The
  CalDAV codec (`caldecoder`, `calencoder`) covers the property names and values, the
  condition codes, the calendar filters (component, property and parameter
  filters, text matches, time ranges), the `calendar-data` request (the
  component selection, `expand`, the limits), the supported collations,
  and the reports (`calendar-query`, `calendar-multiget`,
  `free-busy-query`) and `mkcalendar`. The reports and `mkcalendar`, which
  wrap the core WebDAV elements, are decoded only: the library has no
  encoder for the core elements (`propstat`, `prop`, `multistatus`).
- `src/ical`: iCalendar objects as CalDAV queries see them: time ranges,
  component and property filters, collations, calendar-data pruning.
- `src/collections`: mailbox names (`namespace`, `ident_list`), the DAV
  sync DAG (`davdag`), the IMAP UID index (`uidindex`) and flags.
- `src/bayou`: the operation log shared by replicas: timestamps, history
  replay, the choice and cleanup of checkpoints, the decisions of a sync.
- `app/`: the edges in plain Rust: XML text to events and back with
  `quick-xml`, and the decoding error as a `std` error.
- `tests/`: scenarios from the RFCs, and concrete cases of the laws.
