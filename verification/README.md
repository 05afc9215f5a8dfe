# termsearch

Search in the grid of a terminal emulator: regular expressions, matching brackets, and the ends of
words and lines. The library is written in Verus; its functions state what they return in
`requires` and `ensures`, and Verus proves it.

| Module | What it holds |
| --- | --- |
| `index`, `cell`, `grid`, `motion` | points, cells, the grid and its reading order, moving points |
| `term` | the terminal, and the columns that a wide character takes |
| `brackets`, `blocks` | matching brackets, semantic blocks, wrapped lines |
| `automaton`, `regex` | what a search asks of an automaton; compiled regular expressions |
| `utf8` | the bytes of a character |
| `walk`, `scan` | the way of a search through the grid, and what an automaton finds on it |
| `matches`, `search` | whole matches, going from one match to the next |
| `progress`, `checked` | when a search comes to an end, and searches that test it first |
| `laws` | what holds of the searches as a whole |

The automata come from the `regex-automata` crate. What is taken on trust of it stands in
`automaton`, and what is taken on trust of the standard library in `regex` and `matches`.

A search goes around the grid until it comes to its end point. `Term::regex_search_right` and the
like ask in their `requires` that it does. The `try_` variants ask for nothing of the kind: they
return `None` where the search might pass over its end.
