# black_splat

The logic of a small game engine that draws gaussian splats, written in Verus: the
contracts of its functions say what they return and change, and Verus proves them. Of
what chance decides, such as a random word, a contract says what always holds, or nothing.

- `src/` is the library. It parses splat clouds, plans frames, passes and pipelines,
  keeps assets and handles, packs material maps, reads configurations, retargets
  recorded joint trajectories, walks MuJoCo scenes and decides on input. Numbers with a
  fraction travel through it as their bit patterns; it compares and copies them, and
  turns their sign, but does not add or multiply them.
- `app/` is the running engine around it: files, the window, the GPU, and the
  floating-point arithmetic.
- `tests/` runs the library on concrete values.

Calls into other crates stand behind small functions marked `external_body`, each with
a doc comment that says what is taken for granted of the call: `image` decodes and
resizes pictures, `json` reads configurations, `roxmltree` reads scene files, and
`getrandom` draws random bytes.
