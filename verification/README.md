# jcode_surfaces

The surfaces of a coding agent as verified decisions: the transcript of a
conversation and how its messages are set, the strip of sessions and where its
bars go, the desktop's settings, and the generation of images through MiniMax.

`src/` is a Verus library. Every function states what it returns over
mathematical models (texts are sequences of characters, JSON values are trees,
places are integers), and the properties that span functions are public proof
functions named `law_…`. What `serde_json`, `base64` and `unicode_width` compute
is taken on trust through small functions whose comments say what they claim.

`app/` is ordinary Rust around the library: the text engine, the clock, files,
the environment and the network. It performs what the library decides and hands
back what came of it.

`tests/` runs the library on concrete values.
