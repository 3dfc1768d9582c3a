//! Verified pieces of a JavaScript runtime: capability checks, value
//! operations, string built-ins, property and proxy invariants, promise
//! settlement, and the parsers and scanners the host uses.

pub mod abstract_ops;
pub mod array_proto;
pub mod bigint;
pub mod bigint_arith;
pub mod bigint_number;
pub mod builtins;
pub mod call;
pub mod caps;
pub mod cjs_lexer;
pub mod conversions;
pub mod date;
pub mod heap;
pub mod interp;
pub mod interp_ic_table;
pub mod iterator;
pub mod map_ops;
pub mod number;
pub mod ops;
pub mod promise;
pub mod promise_combinators;
pub mod property;
pub mod property_keys;
pub mod proxy;
pub mod replace;
pub mod search;
pub mod set_ops;
pub mod species;
pub mod string_proto;
pub mod text;
pub mod to_object;
pub mod unwind;
pub mod value;
