# yogurt

Meeting recorder and transcriber for the terminal (macOS): it records the
microphone and the system's audio, transcribes with speaker detection, keeps the
sessions, and answers questions about them.

`src/` is the library: everything that is decided and computed, with contracts
that Verus proves.

| module | what it holds |
|---|---|
| `audio` | sample buffers, WAV, MP3 and Ogg-Opus files, mixing, how a system tap is made and undone |
| `stt` | segments and transcripts, and what each speech-to-text provider sends and receives |
| `session` | the life of a session, streaming, storage, crash recovery, transcribing files |
| `llm` | requests to the language model and quick questions |
| `ui` | the interface as a state machine, text layout, markdown, what each pane shows |
| `config`, `settings`, `headless`, `disclaim` | settings, the glossary, runs without the interface, starting again |
| `text`, `time`, `json`, `paths` | what the others are made of |

The state of the interface is a value (`ui::model::AppView`); `App::update` is
proved to follow `ui::model::app_step`, and `ui::laws` says what holds of every
step. Times are microseconds, confidences millionths and levels parts of 32768,
so that nothing rests on floating point.

`app/` is the program around it: arguments, files, network, threads, drawing.
`tests/` runs the library.
