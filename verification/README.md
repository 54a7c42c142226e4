# deepseek-engine

The logic of an inference engine for DeepSeek V4 Flash, verified with Verus: the model file format,
the tokenizer, the plan of a forward pass, and the integer and bit-level parts of its kernels.

- `src/gguf.rs`, `src/model.rs`, `src/engine.rs`: model files, tensors, and the slots they are bound to.
- `src/tokenizer.rs`, `src/text.rs`: byte-pair encoding over byte-level text.
- `src/session/`: the counters of a session, and the plans of its decode and prefill passes as lists
  of steps. A plan says which kernel runs on which buffers; performing it needs floating-point
  arithmetic and is left to the caller.
- `src/kernels/`: what the kernels choose, where they read and write, and the integers they compute.
  Floating-point numbers are held as bit patterns.
- `src/chat.rs`: the turns of a conversation.
- Files that end in `_laws.rs`, and `src/session/{agree,bounds,laws,reads,results,ring}.rs`, state
  what holds of several functions together. `src/session/meaning.rs` says what a plan computes, for
  any meaning of the kernels; `src/session/results.rs` holds prompts against their tokens.
- `app/`: a chat in the terminal that performs plans in the memory of the host.

Usage: `deepseek-chat [model] [max tokens] [context size]`, with the defaults `ds4flash.gguf`, 2048
and 8192.
