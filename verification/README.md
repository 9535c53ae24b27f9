# audio8_runtime

The logic of a text-to-speech runtime, verified with Verus, and an ordinary Rust
program around it.

A request goes through these parts. A text and the wording of a reference
recording are cleaned and tokenized, and the codes of the recording are spliced
in between: that is the prompt. A slow transformer says one semantic token per
frame, a fast transformer fills in the codes of the other codebooks, and a codec
turns the codes into sound. The models work on floating-point tensors and live
in `app/`; everything that decides what they are given, in which order they run
and what is made of the tokens is in `src/`.

| module | what it holds |
| --- | --- |
| `chars`, `digits`, `text` | text as characters, decimal numbers, cleaning of texts |
| `unassigned` | the code points to which Unicode 16.0 assigns no character |
| `grid` | tables of integers, held in `ndarray` arrays |
| `npy` | the reader of stored codes |
| `json` | JSON values, and whether a text writes a key twice |
| `normalizer`, `charmap`, `post` | which parts of tokenizers can be used on every text |
| `tokenizer` | which tokenizers can be loaded and used, and what they encode |
| `prompt` | the texts of a request and the prompt table |
| `request` | what a command line asks for |
| `manifest` | the constants of the model and the check of its manifest |
| `sampling` | ranking, filtering and choosing tokens |
| `generate` | the autoregressive loop as a state machine |
| `cache` | writes into key/value caches, and the ranges of device caches |
| `session` | loading, and the tensors of each step of the exported models |
| `runtime` | a loaded runtime: the start and the end of a request |
| `weights` | names, shapes and storage of the weights, and checks of files |
| `model` | attention, embedding rows and steps of the two transformers |
| `codec` | weights, lengths and masks of the codec decoder |
| `causality` | the decoder as a chain of steps, and that it is causal |
| `capture` | recording device work as graphs, with retries |
| `timing` | medians and steady states of measurements |

Public proof functions whose names start with `law_` state what holds across
functions. Functions marked `external_body` call `tokenizers`, `serde_json`,
`ndarray` or the standard library; their comments say what is claimed of them.
