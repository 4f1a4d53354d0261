# fixreader

Reads FIX protocol messages against the XML dictionary of the protocol.

- `src/` is the verified library:
  - `text`: character search, splitting at a delimiter (`split(..).take_while(non-empty)`), `split_once('=')`.
  - `schema`: the dictionary types, their views, and `FixSchema::{find_field_by_tag, find_msgtype, validate, parse_tags}`.
  - `converter`: `FixSchema::from_string`, reading a message straight from the dictionary.
  - `services::converter`: `FixConverter`, which converts raw messages with a loaded dictionary.
  - `services::app`: `AppState`, the state of the desktop application and its answers.
  - `cli`: what the command line computes (`parse_tag`, `fixread_line`, `search`).
  - `display`: the text printed for dictionary entries (the `{:#?}` layout).
  - `models`: `AppError`, `FixMessage`, `FieldConverted`.
- `app/` holds the command line, the XML reading (quick-xml and serde), the cache file
  and the desktop commands around the library.
- `tests/` runs the library on concrete dictionaries and messages.
