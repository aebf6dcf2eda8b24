# holligerme

The code behind a small personal website, with its logic proved correct by Verus.

- `src/` is the verified library.
  - `text.rs`: text and number helpers with their specifications (splitting, decimal and
    hexadecimal numbers, HTML escaping).
  - `image.rs`, `compress.rs`, `picture.rs`: what `identify` reports of an image, the
    compression of one image as a state machine that names each command to run and takes
    its output back, and the `<picture>` element of the results.
  - `posts.rs`: reading a post (front matter, markdown, inline TeX), ordering posts and
    their HTML lists, and the pictures of the photos in a post.
  - `badges.rs`, `codegen.rs`, `store.rs`: the footer badges, the Rust sources of the
    compile-time maps, and what the build step writes into the store.
  - `paths/`: every page and answer the server gives.
  - `state.rs`: the decisions about the store (build it, refuse it, open it; placeholders).
  - `outside.rs`: the calls into std and outside crates, each with the contract the rest
    relies on.
- `app/` is the server program: command line, logging, the `sled` store, running the
  compression commands, and the `axum` routes.
- `tests/` runs the library with the outside crates linked.
