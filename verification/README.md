# eventservice

Two small services over a `sled` database, with their logic verified by Verus.

* The event service stores events, files their ids by organizer and by
  category, lists and orders events, and manages categories.
* The application service stores applications of users to events and files
  their ids by user and by event.

Layout:

* `src/` — the verified library: byte formats of ids and id lists
  (`codec`), the trusted contracts of the `sled` calls (`store_t`) and what is
  verified over them (`store`), index
  entries (`index`), the two managers with an abstract model of each store
  and the laws that relate their operations (`events`, `apps`), event
  ordering, message outcomes and topic names, and batch splitting.
* `app/` — the executable around it: JSON records and messages with serde,
  and the Google Cloud Pub/Sub loops.
* `tests/` — tests of the library.
