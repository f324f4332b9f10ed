# webgrab

A command-line web fetcher for LLM agents: it returns the body of a page as
Markdown (or frontmatter, JSON, text, HTML), in pages of a chosen size with a
continuation command, refuses internal addresses (SSRF guard), honours
robots.txt, and can render JavaScript with headless Chrome.

## Layout

- `src/` is the library, written in Verus and verified: every decision of a
  run, from the URL check to the last byte of output, with its contract.
  - `budget` pages the body and builds the continuation footer;
  - `cli` holds the command line as plain values and the flags a continuation
    reproduces;
  - `convert`, `extract`, `decode`, `tokens` turn a fetched document into
    the body (the `htmd`, `dom_smoothie`, `encoding_rs`, `chardetng` and
    `tiktoken-rs` calls sit behind small trusted wrappers); `convert::scheme`
    reads a link target's scheme as a CommonMark renderer does, for the
    link sanitizer;
  - `netguard`, `fetch`, `robots`, `weburl` decide what may be fetched and
    how redirects and robots.txt are followed;
  - `render` (with `render::wait`) and `renderproxy` (with
    `renderproxy::hostcache`) decide how a Chrome render waits, what its
    proxy forwards and how it ends;
  - `output`, `error` and `pipeline` assemble the result and the stderr lines.
- `app/` is the program around it: argument parsing (clap), the network
  (reqwest, tokio), Chrome (chromiumoxide) and printing. It calls the library
  for every decision.
- `tests/` exercises the library on concrete values.
