# pick_up_sound_text

The backend of Shiyane (拾言), a desktop application that turns videos into
bilingual SRT/VTT subtitles, and system audio or a microphone into realtime
subtitles.

- `src/` is the library: the decisions, formats and rules of the application,
  written in Verus. Every function states what it returns, and Verus proves it
  of all but the trusted items.
- `app/` is the program around it: files, network, devices, windows. It does
  what the library asks for and hands back what came of it.
- `tests/` runs the library, with the outside crates that it calls.

| Module | What it holds |
|--------|---------------|
| `text`, `json`, `http`, `error` | texts, documents, replies and errors |
| `config` | settings, and the storage form of API keys |
| `checkpoint` | the log from which an interrupted task goes on |
| `pipeline` | the runs of video files and of realtime sessions |
| `asr`, `translate` | what the recognition and translation services are asked, and what their answers mean |
| `audio` | video files in chunks, capture targets, capturing loops |
| `subtitle` | subtitles and their export |
| `commands` | what the user interface is told |

Times are generic where the application counts them in floating point: the
library carries them through and never computes with them.

A trusted item stands wherever the library calls an outside crate or a part of
std without a specification. What it states is believed, not proved. Its doc
comment names the function and says what is claimed of it; where the outcome
rests on chance or the time, that is only its form.
