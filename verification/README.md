# rustmon

A monitoring agent for a VPS and its Docker containers: it samples host CPU,
RAM and disk, follows the containers, keeps a history in SQLite, raises alerts
with de-duplication, notifies by e-mail and webhook, and serves a live
dashboard.

- `src/` is the verified library: the alert state machine and its
  laws, the RFC 3339 and calendar arithmetic, image and name parsing, the
  uptime timeline, disk selection, the e-mail recipients and SMTP login, the
  notification texts, and the values the dashboard fragments are rendered
  from.
- `app/` is the program around it: configuration loading, SQLite, the Docker
  and system collectors, the floating-point percentages and the alert messages
  built from them, SMTP and webhook delivery, the HTML templates, and the web
  server.
- `tests/` runs the library on concrete values.
