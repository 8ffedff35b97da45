# prompt_pilot

The logic of a prompt pilot for a coding agent in the terminal. On a key it has a model refine the
draft in the composer, shows how the draft is likely to be understood beside the refined prompt, and
replaces the draft where that is applied. It never submits anything. With project context switched
on, a loop first gathers documents, rules, manifests, the state of git and likely files, lets the
model search and read a little, and has the draft checked before anybody sees it.

## Layout

- `src/` is the library. Every function carries a contract that Verus proves.
  - `text`, `bytes`, `ordered`, `paths`, `name_map`: texts, orders, paths and maps, on plain values.
  - `json`, `toml_tree`: what the library relies on in `serde_json` and `toml`.
  - `context_pack`, `limited_text`, `providers`, `relevant_files`, `retriever`, `context_engine`,
    `guardrails`: what is known of a prompt and its project.
  - `progress`, `ace_notes`, `ace_loop`: the loop, as a state and the answers that it waits for.
  - `instructions`, `schemas`, `requests`, `endpoint`, `model_response`: what the model is asked, and
    what is read in its answers.
  - `preview`, `views`, `session`, `conversation`: what is shown, and how keys change it.
  - `project_root_markers`, `plugins`, `mcp_inventory`, `feedback`, `app_requests`: the rest of what
    the program asks its server for in the background.
- `tests/` runs the library on concrete values.
- `app/` is the program around it: files, the network, the screen, and the server.

Paths are texts with `/` between their names, read as on Unix; backslashes and drive letters are parts
of names. A confidence is counted in hundredths.

## Laws

What holds of several functions together stands in `src/` as a public proof function whose name
begins with `law_`: for instance that the loop ends after a bounded number of answers and loses no
file (`ace_loop`), that the draft changes only where a preview is applied (`session`), and that the
files are ranked by everything that speaks for them (`retriever`).
