# traduire

Translation through the inference engine that already runs on the machine, with its
rules verified by Verus.

- `src/text.rs`: strings as sequences of characters; trimming as `str::trim` does it.
- `src/language.rs`: the guess of a text's language (`detect_language`) and the comparison
  of two language designations (`meme_langue`).
- `src/cleaning.rs`: what is kept of the engine's reply (`nettoyer`) and the cut of a long
  message (`tronquer`).
- `src/translation.rs`: what a request leads to (`plan_translation`) and the outcome of the
  engine's reply (`finish_translation`).
- `app/lib.rs`: the configuration file, the HTTP exchange with the engine, and the serde
  forms of requests and results (`translate_text`).
