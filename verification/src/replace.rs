//! The replacement-pattern expansion of `String.prototype.replace`.
use vstd::prelude::*;
use crate::text::{chars_of, push_char};

verus! {

/// The text a `$` pattern stands for: `$$` a literal `$`, `$&` the match,
/// `` $` `` the part before it and `$'` the part after it.
pub open spec fn pattern_text(c: char, matched: Seq<char>, before: Seq<char>, after: Seq<char>) -> Seq<char> {
    if c == '$' {
        seq!['$']
    } else if c == '&' {
        matched
    } else if c == '`' {
        before
    } else {
        after
    }
}

/// A character that completes a `$` pattern.
pub open spec fn is_pattern_char(c: char) -> bool {
    c == '$' || c == '&' || c == '`' || c == '\''
}

/// GetSubstitution for a string search (ECMA-262 §22.1.3.15 step 11):
/// `repl` with each `$$`, `$&`, `` $` `` and `$'` replaced, scanning left to
/// right; every other character, `$N` captures included, is copied as is.
pub open spec fn substitution(repl: Seq<char>, matched: Seq<char>, before: Seq<char>, after: Seq<char>) -> Seq<char>
    decreases repl.len(),
{
    if repl.len() == 0 {
        seq![]
    } else if repl.len() >= 2 && repl[0] == '$' && is_pattern_char(repl[1]) {
        pattern_text(repl[1], matched, before, after) + substitution(repl.skip(2), matched, before, after)
    } else {
        seq![repl[0]] + substitution(repl.skip(1), matched, before, after)
    }
}

/// Expands the replacement patterns of `repl` for a match of `matched`
/// between `before` and `after`.
pub fn process_replacement_substitution(repl: &str, matched: &str, before: &str, after: &str) -> (out: String)
    ensures
        out@ == substitution(repl@, matched@, before@, after@),
{
    let cs = chars_of(repl);
    let n = cs.len();
    let mut out = String::new();
    let mut i: usize = 0;
    assert(cs@.skip(0) =~= cs@);
    while i < n
        invariant
            0 <= i <= n,
            n == cs@.len(),
            cs@ == repl@,
            substitution(repl@, matched@, before@, after@) == out@ + substitution(cs@.skip(i as int), matched@, before@, after@),
        decreases n - i,
    {
        let ghost tail = cs@.skip(i as int);
        let ghost prev = out@;
        assert(tail[0] == cs@[i as int]);
        let pattern = cs[i] == '$' && i + 1 < n && (cs[i + 1] == '$' || cs[i + 1] == '&' || cs[i + 1] == '`'
            || cs[i + 1] == '\'');
        if pattern {
            let c = cs[i + 1];
            assert(tail[1] == c);
            assert(tail.skip(2) =~= cs@.skip(i + 2));
            if c == '$' {
                push_char(&mut out, '$');
            } else if c == '&' {
                out.append(matched);
            } else if c == '`' {
                out.append(before);
            } else {
                out.append(after);
            }
            assert(out@ =~= prev + pattern_text(c, matched@, before@, after@));
            assert(prev + substitution(tail, matched@, before@, after@) =~= out@ + substitution(cs@.skip(i + 2), matched@, before@, after@));
            i = i + 2;
        } else {
            assert(tail.skip(1) =~= cs@.skip(i + 1));
            assert(!(tail.len() >= 2 && tail[0] == '$' && is_pattern_char(tail[1]))) by {
                if tail.len() >= 2 {
                    assert(tail[1] == cs@[i + 1]);
                }
            }
            push_char(&mut out, cs[i]);
            assert(prev + substitution(tail, matched@, before@, after@) =~= out@ + substitution(cs@.skip(i + 1), matched@, before@, after@));
            i = i + 1;
        }
    }
    assert(cs@.skip(n as int) =~= Seq::<char>::empty());
    assert(out@ + Seq::<char>::empty() =~= out@);
    out
}

/// A replacement text without `$` stands for itself, whatever the match.
pub proof fn law_text_without_dollar_is_copied(repl: Seq<char>, matched: Seq<char>, before: Seq<char>, after: Seq<char>)
    requires
        !repl.contains('$'),
    ensures
        substitution(repl, matched, before, after) == repl,
    decreases repl.len(),
{
    if repl.len() > 0 {
        assert(repl[0] != '$') by {
            if repl[0] == '$' {
                assert(repl.contains('$'));
            }
        }
        assert(!repl.skip(1).contains('$')) by {
            if repl.skip(1).contains('$') {
                let k = choose|k: int| 0 <= k < repl.skip(1).len() && repl.skip(1)[k] == '$';
                assert(repl[k + 1] == '$');
            }
        }
        law_text_without_dollar_is_copied(repl.skip(1), matched, before, after);
        assert(seq![repl[0]] + repl.skip(1) =~= repl);
    }
}

/// Each pattern at the front of a replacement text expands to what it
/// stands for, and the rest is expanded after it: `$$` to `$`, `$&` to the
/// match, `` $` `` to the text before it and `$'` to the text after it.
pub proof fn law_patterns_expand_in_place(rest: Seq<char>, matched: Seq<char>, before: Seq<char>, after: Seq<char>)
    ensures
        substitution(seq!['$', '$'] + rest, matched, before, after) == seq!['$'] + substitution(rest, matched, before, after),
        substitution(seq!['$', '&'] + rest, matched, before, after) == matched + substitution(rest, matched, before, after),
        substitution(seq!['$', '`'] + rest, matched, before, after) == before + substitution(rest, matched, before, after),
        substitution(seq!['$', '\''] + rest, matched, before, after) == after + substitution(rest, matched, before, after),
{
    assert((seq!['$', '$'] + rest).skip(2) =~= rest);
    assert((seq!['$', '&'] + rest).skip(2) =~= rest);
    assert((seq!['$', '`'] + rest).skip(2) =~= rest);
    assert((seq!['$', '\''] + rest).skip(2) =~= rest);
}

} // verus!
