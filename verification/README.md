# mc-logger

A logger for Minecraft servers and the Discord bot that shows what it stored.

The logger joins a server like a player, classifies every line of chat, keeps
track of who is online and writes both to Postgres. A gateway carries the live
events to the Discord bot, which posts them to channels and answers commands
from the database. Three tools work on what is stored: `reclassify` runs the
classifier over old rows, `discover` finds death messages that no template
describes yet, and `discord-scrape` exports a channel.

## Layout

- `src/` is the library: the rules of the programs that integers and texts can
  express, verified with Verus. It takes plain values and hands plain values
  back; the clock, the environment and the answers of the database are arguments.
  Times are microseconds since the epoch, UUIDs are `u128`.
- `app/` is what surrounds it: the game client, the connections to the gateway,
  the SQL, the Discord client and the command line. What needs floating-point
  numbers is there too: shortened counts and ratios, the colours of the rainbow,
  seconds with a fraction, and distances in the game.
- `tests/` runs the library.

## The library

| Modules | What they hold |
| --- | --- |
| `text`, `pattern`, `json`, `table`, `vars` | strings, regular expressions, JSON documents, maps by name, settings of the environment |
| `classify`, `deaths` | what a line of chat says |
| `logger`, `presence`, `queue`, `portal`, `probe`, `plugins`, `game`, `settings`, `standby` | the logger process |
| `rows`, `batch`, `players` | what the logger writes |
| `stream` | the frames of the gateway |
| `backfill`, `discover`, `scrape` | the tools |
| `config`, `models`, `queries` | the bot's settings, rows and questions to the database |
| `bridge`, `feed`, `topic`, `chatbridge` | the live feed |
| `formatting`, `embeds`, `boards`, `heads`, `ui` | what Discord shows |
| `shared`, `commands`, `stats` | the commands |

Each executable function states what it returns over spec functions of its
module. Public functions named `lemma_..` state what holds across functions.

## What is trusted

The results of `regex`, of reading and writing with `serde_json`, of
`Uuid::new_v5`, of the Unicode tables of the standard library and of the debug
form of a string have names instead of definitions. The functions that call them
are in `pattern`, `json`, `batch`, `text`, `plugins` and `discover`, marked
`external_body`, and say what is claimed of each call.
