# ReviewGate

ReviewGate reviews pull requests with language models and decides, by rules that can be
checked, which findings block a merge.

`src/` is the library, written in Verus. Every rule stands there with a contract that is
proved: how diffs, configurations, workflows and replies of GitHub are read, which findings
are kept, what a review comes to, what is published, and how the conversations with GitHub
and with models go, as state machines.

`app/` is the command line. It runs `git`, `gh`, `curl` and `rg`, reads and writes files,
turns JSON into values, and hands plain values to the library. It reads the texts of its
prompts from the directory that `REVIEWGATE_ASSETS` names (`extras` by default):

- `prompts/general.md` and `prompts/adversarial.md`: the instructions of the built-in angles
- `prompts/role.txt`: the noun by which prompts call the model
- `prompts/guide.txt`: the name of a file with notes for coding agents, read as context
- `schemas/reviewgate-review-output-v3.schema.json`: the schema of an answer

`tests/` holds the tests of the library.
