# nara

A Discord-driven personal assistant: a job queue with scheduled and chained
jobs (`cadence`), flash cards with spaced repetition (`brainiac`), a thermal
printer that prints markdown files, box outlines and habit trackers (`konan`),
and the Discord channels and bot helpers (`titans_tower`).

- `src/` is the verified library. Text layout for the printer, the print
  plan sent to it, markdown rendering, list labels, message chunking, the
  channel configuration, pagination, job settling, the practice query and
  the registries are proved against their contracts with Verus.
- `app/` is the program around it: SQLite storage, the ESC/POS driver, the
  async worker loop, FSRS scheduling (floating point) and the Discord client.
- `tests/` exercises the library on concrete values.
