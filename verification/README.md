# coffeeql_parser

The CoffeeQL parser: it turns a token stream into a typed syntax tree
(`Statement`, `QueryNode`, `ChainOp`, `Expression`, ...), with every parsing
function proved against a grammar written as Verus spec functions.

- `src/token.rs`     tokens and the small value types they carry
- `src/ast.rs`       the syntax tree and its model (`Spec*` types, strings as `Seq<char>`)
- `src/error.rs`     parse errors and their model
- `src/pratt.rs`     expressions: grammar (`spec_parse_*`) and the Pratt parser
- `src/recursive.rs` statements, chains, shot, grind, menu: grammar and the recursive descent parser
- `src/parser.rs`    `Parser`, the front door
- `src/laws.rs`      properties of every parse (chain order, refusals, progress, operand shape,
                     joined streams parsing in order)
- `app/lib.rs`       error messages (`thiserror`) and the `f64` value of numeric literals

Each parsing function's contract states the exact outcome of its grammar
rule: the value and the position after it, or the error and the position
where parsing stopped.
