# Math test backend

The backend of a math test that one teacher runs by hand: questions with text or
images, a timer per question, answers with an automatic hint, marking, and going
from question to question.

The library under `src/` is verified with Verus and makes every decision but
one: whether two floating-point values are close is told to it. It does no I/O:
a request is a method of `Store`, which holds the tables in memory and gives
back an `Outcome` with the status, the body of the reply and the changes to
write. `app/` is the server around it: it reads the SQLite tables into a
`Store`, writes the changes back, speaks HTTP, and evaluates and compares
expressions in floating point where the library asks for it.

| module | what it holds |
| --- | --- |
| `text`, `integer`, `path` | text, whole numbers and paths, as they come in |
| `equation`, `forms`, `variables`, `matching` | the hint on a submitted answer |
| `upload`, `form`, `admin` | what is taken of an upload, a form, a token |
| `record`, `table`, `tables`, `order`, `store` | the contents and what keeps them sound |
| `reply`, `course`, `session`, `attempt` | the requests |
| `laws` | what holds across requests |

What is taken on trust of other crates and of `std`: `str::to_lowercase` and
`String::push` (`text`), the matches of one regular expression (`variables`),
whether `evalexpr` can read a text (`matching`), the form of a random UUID
(`upload`), and the range of the clock (`session`).

## Settings

| variable | default |
| --- | --- |
| `APP_PORT` | `8080` |
| `APP_DB_PATH` | `./data/app.db` |
| `APP_UPLOADS_DIR` | `./uploads` |
| `APP_ADMIN_TOKEN` | `change-me-admin-token` |
