# niinii

The verified core of niinii, a frontend for glossing Japanese text (visual
novels in particular) with ichiran and for translating it with OpenAI models.

`src/` is the library, written and proved with Verus:

- `text`, `lisp`, `dict`, `pool`: string utilities, Lisp literals and the
  expressions sent to ichiran, custom dictionary entries, and the line
  protocol of the ichiran-cli workers.
- `romanize`, `ichiran_state`: the planning of a romanize request (the
  texts to ask about, those the cache leaves to fetch, and the reply in
  split order), and the segment cache and custom-entry seqs an ichiran
  client keeps, with the cache emptied whenever custom entries change.
- `chat`, `chat_buffer`: chat messages, token estimates and the context
  buffer of a conversation, with its trimming.
- `segment`, `chat_translator`: the segment-translation grammar, the reading
  of streamed NDJSON translation spans, and the state of the chat translator.
- `translator`, `responses_translator`, `realtime_translator`, `realtime`:
  the Responses and Realtime backends and the Realtime protocol records.
- `bbcode`, `clean_fixpoint`, `vndb`: cleaning of VNDB descriptions (and
  the proof that cleaning a link-free description twice gives what cleaning
  it once gives, unless the first pass leaves a carriage return before a
  line break), the character prompt, name entries and the VNDB state
  updates.
- `settings`, `scroll_lock`, `regex`: frontend modes and drawing choices, the
  Scroll Lock binding, and the user's preprocessing patterns: the compiled
  pattern cache, the replacement applied before glossing and the capture
  that picks the text to speak.

`app/` holds the I/O around it: the worker processes, the dictionary and
settings files, and the JSON reading of translation lines. `tests/` runs the
library on concrete values.
