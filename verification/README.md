# audit_watchdog

A log translator for ModSecurity audit logs: it reads the audit entries and logs one line in
syslog style for each transaction, with its time, its client and its rule violations.

The library under `src/` is written in Verus. It decides what is logged for the lines of an audit
log, and proves it against the specifications that stand beside the code:

| Module | |
|-|-|
| `text` | white space, comma-separated lists |
| `address` | IP addresses and networks |
| `datetime` | the time of a transaction |
| `section` | the sections of an audit log entry |
| `pattern` | what a single line says |
| `violation` | the line of a rule violation |
| `proxies` | the proxies that are trusted |
| `message` | the line that is logged |
| `entry` | the reading of an audit log, line by line |
| `watch` | what is decided while files are watched |
| `laws` | what holds of the reading as a whole |

The program under `app/` watches a file or a folder, reads the files that change, and appends to
the log file what the library hands out.

| Argument | |
|-|-|
| `-i PATH`, `--input PATH` | The file or folder to watch. |
| `-o PATH`, `--output PATH` | The log file. |
| `-p` | The server is behind a proxy. |
| `--trusted-proxies LIST` | Addresses and networks of trusted proxies, as in `192.0.2.7,10.0.0.0/8,fd00::/8`. |
| `-c`, `--cf` | Look for the header by which CloudFlare names the client. |
| `-t N` | The number of threads that read files. Only applies to a folder; a file is read by a single thread. |
| `-d` | More output; can be given several times. |
