# thompson

A desktop voice assistant ("Tom"): it listens for its name, understands a small
set of spoken or typed commands (time, reminders, dictation, music, windows,
screen description, custom shell commands) and hands everything else to a
language model (Ollama or Gemini).

The decisions are a library verified with Verus:

- `src/text.rs`, `src/score.rs`, `src/fuzzy.rs`: words, similarity ratios and the
  token set ratio, as exact rationals;
- `src/commands.rs`, `src/dispatcher.rs`: the command table, command matching,
  reminders, dictation, and the dispatcher that turns a line of text into an action;
- `src/voice.rs`: the wake-word state machine and the cutting of the microphone
  stream into utterances;
- `src/tts.rs`: the speech queue;
- `src/memory.rs`: settings, history and custom commands;
- `src/ai.rs`: the requests to the language models and the reading of their replies;
- `src/auto.rs`: the answers about music, windows, time and the screen;
- `src/laws.rs`: properties that span several functions.

`app/` is the program around it: the Tauri window, files, the network, the
microphone, speech synthesis and the operating system.
