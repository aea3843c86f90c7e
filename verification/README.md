# whale

The evaluation side of a chess engine, as a library proved with Verus: network
features, incremental sums, file formats, quantised inference, move ordering,
the opening book, and the rules that turn scores into decisions.

- `src/board.rs`, `src/bits.rs`: positions and bitboards.
- `src/eval/nnue/`: the small network, the v16 network (`v16/`), the v10 pair
  (`v2/`), threat features and their counts, score cache, conditioning by depth,
  mirrored audits.
- `src/eval/`: move ordering, behaviour heads, optimism, evaluation backends.
- `src/opening/`, `src/opponent/`, `src/opportunity/`, `src/perception/`,
  `src/risk/`, `src/root/`: the book, plans, concessions, pawn structure, risk
  gates, metrics.
- `src/cli.rs`: what the command line asks for.
- `app/`: the program: files, printing, and what runs in floating point.

Contracts are stated over sequences and integers. Proof functions named `law_*`
state what holds across functions. The one trusted declaration is that of
`String::push`, in `src/text.rs`.

What a board module would compute (legal moves, checks, exchange values) comes in
as plain arguments.
