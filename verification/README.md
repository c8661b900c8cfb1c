# offgrid

A personal language model that stays on your own machine: chat, a coding agent,
image generation, a model browser, an OpenAI-compatible server, a terminal
interface and a Telegram bridge.

- `src/` is the library: every rule of the program, verified with Verus. It holds
  no input or output. Where the program talks to the outside in turns (a download,
  an agent run, a chat bridge, a search before an answer), the library holds the
  state, takes the event and says what to do next.
- `app/` is the program around it: the window, the terminal, the network, the
  disk and the inference engines.
- `tests/` runs the library on examples.

| Module | What it decides |
| --- | --- |
| `agent`, `tools`, `html` | what a reply of the model asks for, and what a run does with the result |
| `session`, `webchat`, `bridge`, `server`, `tui` | conversations and commands, over each of the ways in |
| `llm`, `gguf`, `models`, `hardware`, `speed` | what fits where, and how fast it will be |
| `hub`, `browse` | searching for models, and downloads that survive a restart |
| `imagegen`, `studio` | image models, their sizes, and what is kept of a session |
| `desk`, `markup`, `theme`, `cli`, `config` | what the window and the command line show |
| `json`, `text`, `figures`, `single`, `order`, `table` | the common ground |

Rates are exact fractions, and durations are whole microseconds.
