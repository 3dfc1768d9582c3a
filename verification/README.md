# rusty_js_runtime

Verified pieces of a JavaScript runtime written in Verus: the logic that
decides, computes and parses, each function with a contract over
mathematical models and the laws that relate them proved alongside.

## Layout

- `src/caps.rs`: the capability model (file system, stdio, clock, scheduler,
  process, environment, network), the four enforcement modes and the
  dispatcher that checks every effectful operation, with its audit log.
- `src/cjs_lexer.rs`: the static scan of a CommonJS module's wrapper function
  for the export names Node would attribute to it.
- `src/number.rs`: Numbers as IEEE 754 bit patterns; NaN, zero, integrality,
  truncation, `as i64` / `as u32`, ToUint32, the numbers of integers
  (rounded to the nearest double), and the numeric order of two numbers.
- `src/bigint.rs`: BigInts as canonical decimal text and their order;
  `src/bigint_arith.rs`: their addition, subtraction, multiplication,
  truncating division and remainder on that text; `src/bigint_number.rs`:
  the exact order of a BigInt and a Number.
- `src/value.rs`, `src/abstract_ops.rs`: values and the abstract operations
  ToBoolean, strict and loose equality, SameValue and SameValueZero, the
  relational comparison and the `+` operator; where a step reads or writes a
  float, the result says so and the caller finishes it.
- `src/conversions.rs`: ToString, ToPropertyKey and ToBigInt on
  primitives, and the text of a Number where it is exact.
- `src/interp.rs`: run-time errors, the argument guards of compiled code,
  a frame's state (locals, operand stack, `try` blocks), the global load
  and store (with strict mode's ReferenceError) and the JIT threshold
  setting.
- `src/ops.rs`: the interpreter's stack, local, comparison, jump,
  exception and return instructions as steps on a frame, and the bitwise
  instructions on numbers.
- `src/unwind.rs`: which errors a `catch` takes, resuming at a handler, and
  the source position appended to an engine error.
- `src/call.rs`: the decisions of a function call (a callee that cannot be
  called, dispatch to compiled code, the `this` binding, bound and proxy
  calls, and the new frame's local slots).
- `src/species.rs`: the steps of SpeciesConstructor and ArraySpeciesCreate.
- `src/to_object.rs`: ToObject's decision and a String wrapper's own
  properties.
- `src/interp_ic_table.rs`: the inline cache of hot string intrinsics and
  their ASCII fast paths.
- `src/string_proto.rs`, `src/search.rs`, `src/replace.rs`: the
  `String.prototype` methods on coerced arguments (character access,
  slicing, padding, searching, replacement patterns, splitting).
- `src/builtins.rs`: `Number.is*`, the array-length conversion, `Math.imul`
  and `Math.clz32`, `String.fromCharCode`, `String.raw`, `Symbol.keyFor` and
  the `toString` texts of symbols, errors and objects.
- `src/array_proto.rs`: the `Array.prototype` methods on an array's
  elements (holes included): the searches, `at`, `slice`, `with`,
  `toReversed`, `toSpliced`, and the mutating `splice`, `fill`,
  `copyWithin`, `reverse`, `push`, `pop`, `shift` and `unshift`, and the
  stable order of the default `sort`.
- `src/property_keys.rs`: the own property names of an array, integer keys
  in numeric order, and `u64` parsing of keys.
- `src/property.rs`: validation of a property definition against the
  property it replaces, `Object.create`'s property descriptions, and the
  integrity levels (`freeze`, `seal`, `isFrozen`, `isSealed`).
- `src/heap.rs`: objects with their prototypes; allocation, the internal
  property read, write and delete, the reading of a proxy `ownKeys` trap
  result, HasProperty and the getter or setter a property access meets
  along the prototype chain, `isPrototypeOf`, the prototype getters and
  setters, and `Object.hasOwn`.
- `src/set_ops.rs`, `src/map_ops.rs`: the set algebra of `Set.prototype`
  and the keyed storage of `Map` and `Set`.
- `src/iterator.rs`: iterator results and the array and string iterators.
- `src/proxy.rs`: the invariants of a proxy's trap results against its
  target (`ownKeys`, `has`, `get`, `set`, `deleteProperty`,
  `getOwnPropertyDescriptor`, `defineProperty`).
- `src/promise.rs`: the settle-once state of a promise, its reactions, and
  the steps of resolving a promise and of a reaction job.
- `src/promise_combinators.rs`: the shared bookkeeping of `Promise.all`,
  `allSettled` and `any`.
- `src/date.rs`: UTC epoch milliseconds from calendar fields, and the ISO 8601
  date-time parser.
- `src/text.rs`: small text helpers.
- `app/`: what needs floating point (number formatting and parsing, and the
  comparisons and operators built on them), the entry points that take raw
  source text, and the settings read from the environment.
- `tests/`: scenarios run against the compiled library.
