# rigg_voice

The logic of Rigg Voice, a menu-bar agent that turns speech into text and pastes
it into the application in front, verified with Verus.

- `src/` holds what the agent decides and computes, with proved contracts; only
  those of the two functions of `wav` that call the `hound` crate are taken on
  trust. It holds resampling plans (`audio`, `float`), the live preview
  (`preview`), recording and final transcription (`session`, `capture`), the
  models and their download (`models`, `download`), sound files (`wav`), the
  double tap (`fn_tap`), pasting (`paste`), windows, menu and launch (`shell`),
  and text (`text`).
- `app/` is the agent around it: audio, network, disk, clipboard, windows and
  the recogniser. It performs the actions that the library's state machines ask
  for and reports the outcomes back.
- `tests/` runs the library on concrete values.

What a whole module promises stands in its public `proof fn`s.
