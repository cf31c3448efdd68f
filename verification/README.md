# stack_guard

Recursion limits for a recursive-descent JavaScript parser, verified with Verus.
Deeply nested source makes the parser report a catchable stack overflow at the
nesting depths at which QuickJS does, and before the host stack runs out.

- `src/frame.rs`: the recursive grammar edges and their weights
- `src/guard.rs`: the guard, which a parser asks with `enter` and tells with `leave`
- `src/floor.rs`: where the host stack ends, read from procfs text
- `src/host.rs`: the build profile and the address of the stack pointer
- `src/text.rs`: lines, words and numbers of a text
- `src/laws.rs`: what holds of the guard over many calls
- `app/lib.rs`: opens a guard on this host, reading the procfs files

The one thing taken on trust is `current_stack_address`, of whose result it is
assumed only that it is not zero.
