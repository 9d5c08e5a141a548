# ticket_bot2

A tixcraft API-mode watcher. The library (`src/`) holds the logic, verified
with Verus: HTML scraping of the game, verify, area, ticket and order pages;
keyword matching; the proxy pool; configuration merging (deployment presets,
the config file and environment overrides); cookie selection; and the
decisions of the watch, verify, ticket and checkout flows, written as state
machines that are handed each response and answer with the next step.

The program (`app/`) does the rest: the command line, reading files and the
environment, YAML and JSON parsing into the configuration types, the HTTP
client, the captcha helper process, timing and logging.

Modules of the library:

- `text`, `html`: character-level searching, trimming, tag and attribute
  scanning.
- `keywords`, `parser`, `fields`: keyword lists, the page scrapers, form
  fields and form bodies.
- `config`, `yaml`: configuration types and their loading rules over a model
  of YAML values.
- `proxy`, `cookies`, `http`, `captcha`: proxies, cookies, redirects and the
  captcha helper's command line and answer.
- `tixcraft`, `bot`: URL classes, target and area choice, and the bot's state
  machines.
