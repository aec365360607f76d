# zagent

The parts of a coding agent that produce and exchange things: chats with a
model gateway, slide decks, images, Word documents, PDF text and spreadsheets.

`src/` is the library. Every function states in its contract what it returns,
and Verus proves it. What outside crates do (`serde_json`, `http`, `chrono`,
`zip`, `docx-rs`, `umya-spreadsheet`, and a few functions of `std`) is called
through small functions whose contracts are believed; each says what it
claims.

| Module | What it holds |
| --- | --- |
| `text`, `text_map`, `entities` | texts as sequences of characters; maps with text keys; escaping |
| `archive`, `ooxml`, `pptx` | ZIP archives and presentation files |
| `json` | JSON values as trees |
| `slides`, `deck_stream`, `slides_tool` | decks: topic, event stream, preview, files |
| `glm`, `models`, `chat` | the gateway: tokens, answers, models, messages |
| `effort`, `request`, `events` | what is sent to a model, and what comes back |
| `provider` | the model list, its settings and its state |
| `image` | generating an image, step by step |
| `document` | Word documents and PDF text |
| `cell_address`, `spreadsheet_read`, `spreadsheet_edit` | spreadsheets |

Properties that span several functions stand beside them as public proof
functions named `law_...`: what was written reads back, what is sent is
what the model offers, what is shown is bounded.

`app/` is ordinary Rust around the library: HTTP, files, tasks, and the types
as they travel in JSON. `tests/` runs the library with the outside crates.
