# applymonitor

The verified core of ApplyMonitor, a tracker for job applications that reads
a user's e-mail, links messages to jobs and keeps the contacts met on the way.

`src/` is the library, checked by Verus:

- `text` — character-sequence specifications (`trim`, `split`, `replace`,
  first occurrence) and the executable helpers proved against them;
- `system_email` — wildcard patterns of automated senders and the decision
  whether an address is a system address;
- `contacts`, `people` — addresses taken from header fields, contacts and the
  people of a job's e-mails;
- `timeline` — the job timeline, sorted newest first by a stable sort;
- `jobs`, `accounts`, `ai` — input rules and the decisions taken between
  database reads and writes;
- `password`, `oidc` — hashing, tokens and identifiers, and the OpenID
  Connect request and claim checks, around `argon2`, `base64`, `getrandom`,
  `url` and `serde_urlencoded`;
- `dates`, `ui` — texts and decisions of the web interface.

`app/` is the Cloudflare Worker around it: routing, D1 database access,
network calls, session tokens and the JSON forms of the library's types.

`tests/` runs the library on concrete values.
