# smart_speaker

A local voice assistant (wake word → speech recognition → language model →
speech synthesis), whose decision-making core is a Verus-verified library.

- `src/` — the verified library:
  - `intent` — "remember this" detection (覚えて / メモして / 記録して / 保存して).
  - `sentence_splitter` — splitting streamed model text into sentences, with
    laws that no text is lost and every sentence is trimmed and non-empty.
  - `llm` — accumulating a streamed reply under its size limit; model errors.
  - `pipeline` — prompts with retrieved context, fixed replies, transcript checks.
  - `ring_buffer` — the capture ring buffer (generic over the sample type),
    with laws on reading back the latest samples and on contiguous stream reads.
  - `vad` — the counters and decisions of voice activity detection.
  - `tts` — VOICEVOX request URLs (percent-encoding), the audio size limit, errors.
  - `rag` — knowledge chunking, document ids, context formatting, analysis
    validation, embedding dimension checks.
  - `models`, `download` — the Whisper model menu and download size bookkeeping.
  - `settings` — rewriting the model path in the settings text.
  - `web` — request routing, body limit, chat reply (base64 audio), the web page.
  - `text` — character-level helpers (Unicode whitespace, trim, decimal text).
- `app/` — the program: HTTP clients, audio output, files, threads, the web
  server and everything that computes with floating point (signal levels,
  embedding similarity).
- `tests/` — tests of the library.
