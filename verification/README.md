# clawpal

The verified core of the ClawPal assistant, written in Verus.

- `src/` is the library. Every function in it carries a contract that Verus
  proves: editing the configuration document along dotted paths, checking
  the paths the doctor may touch, building prompts from session history,
  extracting guidance from the agent's answers, the rules that explain a
  failed operation, the queue of commands awaiting approval, and the
  invocations awaiting approval.
- `tests/` runs the library on concrete values.
- `app/` is the command line and the host side: processes, locks around the
  shared stores, and the JSON form of the library's values.
