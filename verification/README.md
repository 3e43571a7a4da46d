# suricata-sql-output

Three Suricata plugins that store what Suricata sees in a SQL database (SQLite or PostgreSQL):

- the EVE plugin stores events, each in the table of its type;
- the filedata plugin stores the files that Suricata extracts, under their digest;
- the rawdata plugin stores the payloads of packets, numbered within their flow.

`src/` is a library, verified with Verus, that makes the decisions of the plugins:

- `text` searches, splits and replaces text;
- `config` and `plugin` hold the settings of a plugin and how Suricata takes it;
- `eve` reads an event, formats the addresses of a flow, and plans the statements for a batch;
- `filedata` puts a file together from its parts, names it, and compresses it with `zlib-rs`;
- `rawdata` selects and numbers payloads, plans the statements for a batch, and says what the counts
  mean for its table;
- `database` is the database thread, as a machine that says what to do next.

The functions named `law_...` state what holds of the library as a whole.

`app/` is the plugins around it: the calls from Suricata, the channel to the database thread, and
the database itself. What depends on the version of Suricata, and the tables of a deployment, are
taken from the traits `EveHost`, `FiledataHost` and `RawdataHost`. A library that Suricata loads
implements one of them and exports its plugin with `export_plugin!`.

`tests/` runs the library on concrete values.
