# c_wasm_interpreter

An interpreter for a subset of C over a flat memory of 65536 bytes, verified with Verus.

The language: the integer types (`char`, `short`, `int`, `long`, `long long`, signed and
unsigned), `float` and `double` storage, declarations, assignments, `+ - * /`,
comparisons (`< > <=`), unary `+ - !`, the conditional `?:`, `while`, `if`/`else`,
functions with parameters, `return` and recursion.  Arithmetic
follows C: operands narrower than `int` are promoted, operands are converted to the
higher rank, unsigned arithmetic wraps around, and a value stored into a variable is
converted to the variable's type.  A function's parameters and locals take the
addresses from the caller's next free address onward, so

```c
int fib(int n) { if (n <= 1) return n; return fib(n - 1) + fib(n - 2); }
int r = fib(10);
```

leaves `[55, 0, 0, 0, 8, 0, 0, 0, 6, 0, 0, 0, 4, 0, 0, 0, 2, 0, 0, 0, 0, ...]` in memory.

## Layout

- `src/lexer.rs`: the tokenizer, with its mathematical definition (`lex`) and the
  proofs that the tokens end with one end-of-input token and cover the input in order.
- `src/ast.rs`, `src/grammar.rs`, `src/parser.rs`: the syntax tree, the grammar as
  spec functions over token sequences with laws of operator grouping, and the Pratt
  parser proved against it.
- `src/memory.rs`: little-endian storage of values and the call stack, with
  read-after-write laws.
- `src/environment.rs`: declarations by name, where a later declaration hides an
  earlier one, and the frames of the call stack.
- `src/semantics.rs`: what running a program does (`eval`, `call`, `exec_node`, `run`),
  with laws on fuel, arithmetic, conversions, declarations, assignments and frames.
- `src/interpreter.rs`: the executable interpreter, proved to compute `run`.
- `app/`: the browser entry point, outside verification.

A run that meets an error (an unknown name, a signed overflow, a division by zero, a
construct the interpreter does not evaluate) yields no memory.
