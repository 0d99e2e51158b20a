# cliffordc

The middle and back end of the compiler for Clifford, a systems language whose
programs are made of a functional layer (`@fn`) and an imperative one
(`#automaton`, `#effect`, `#interrupt`). Everything under `src/` is verified
with Verus.

| Module        | What it holds                                                     |
|---------------|-------------------------------------------------------------------|
| `ast`         | the syntax tree                                                   |
| `resolve`     | what names refer to                                               |
| `types`       | the inferred type of each expression                              |
| `check`       | layer boundary, authority to write, totality                      |
| `effect`      | automatons as categories, mutation profiles, call graph, overlap  |
| `codegen`     | LLVM IR text                                                      |
| `driver`      | the phases in order, and their diagnostics                        |
| `cli`         | the command line                                                  |
| `text`, `collections`, `order` | strings and numerals, sets and maps, sorting     |

Each phase is described by a spec function from the program to its outcome
(`check_outcome`, `categories_outcome`, `profiles_outcome`, `graph_outcome`,
`lowered`), and the executable function returns exactly that. What holds of a
phase as a whole is stated as public proof functions, most of them in the
`laws` modules.

`app/` is the command-line program. Lexer, parser, name resolution, type
inference and the verifier of races are not part of this crate: the program
reaches them through the trait `FrontEnd`.
