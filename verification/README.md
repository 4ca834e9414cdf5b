# vibe_check

The verified core of vibe-check: the vocabulary a pull request's verdict is
made of, and the rules that combine it, with contracts proved by Verus.

- `src/` is the library. Tiers and verdicts (`tier`), the escalation ledgers
  (`adjudicate`), capability resolutions and how they are accounted
  (`resolution`), evidence and provenance (`evidence`), identifiers and
  requirement scopes and the order their paths sort in (`ids`, `scope`,
  `path_order`), the bundle and its confidence tally
  (`bundle`), canonical JSON and the two digests over it (`json`, `digest`,
  `key_order`), and the plain data of the side-effect ports (`host`, `diff`,
  `cli`). Laws that relate several functions are public proof functions whose
  names start with `law_`.
- `app/` is the program around it: the asynchronous port traits, the git
  subprocess calls, the process environment, argument reading, and the serde
  wire forms of the bundle and its ledgers.
- `tests/` exercises the library on concrete values.
