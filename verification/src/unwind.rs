//! What becomes of an error raised while a frame runs (ECMA-262 §14.15):
//! `try` blocks recorded on the frame, which errors a `catch` can take,
//! the handler the frame resumes at, and the source position appended to
//! an engine error's message.
use vstd::prelude::*;
use crate::interp::{FrameState, RuntimeError, TryFrame};
use crate::search::{first_occurrence, first_occurrence_exec, lemma_first_occurrence_from, occurs_in};
use crate::text::{append_decimal, chars_of, decimal};
use crate::value::Value;

verus! {

/// How a `catch` sees an error.
#[derive(Debug)]
pub enum CatchKind {
    /// A value thrown by the script, caught as it is.
    Thrown(Value),
    /// An engine error, caught as a new error object with this
    /// constructor name and message.
    Engine(String, String),
    /// An error no script handler takes (a compile error, or an
    /// unimplemented feature).
    Uncatchable,
}

/// `TypeError`, `RangeError`, `ReferenceError` and `SyntaxError` are caught
/// as error objects of that name, a thrown value as itself; compile errors
/// and unimplemented features are not caught.
pub fn catch_kind(e: RuntimeError) -> (k: CatchKind)
    ensures
        match e {
            RuntimeError::Thrown(v) => k matches CatchKind::Thrown(x) && x == v,
            RuntimeError::TypeError(m) => k matches CatchKind::Engine(n, x) && n@ == "TypeError"@ && x == m,
            RuntimeError::RangeError(m) => k matches CatchKind::Engine(n, x) && n@ == "RangeError"@ && x == m,
            RuntimeError::ReferenceError(m) => k matches CatchKind::Engine(n, x) && n@ == "ReferenceError"@ && x == m,
            RuntimeError::SyntaxError(m) => k matches CatchKind::Engine(n, x) && n@ == "SyntaxError"@ && x == m,
            _ => k is Uncatchable,
        },
{
    match e {
        RuntimeError::Thrown(v) => CatchKind::Thrown(v),
        RuntimeError::TypeError(m) => CatchKind::Engine(String::from_str("TypeError"), m),
        RuntimeError::RangeError(m) => CatchKind::Engine(String::from_str("RangeError"), m),
        RuntimeError::ReferenceError(m) => CatchKind::Engine(String::from_str("ReferenceError"), m),
        RuntimeError::SyntaxError(m) => CatchKind::Engine(String::from_str("SyntaxError"), m),
        _ => CatchKind::Uncatchable,
    }
}

/// The operand stack cut back to `n` values (unchanged when shorter).
pub open spec fn cut_to(s: Seq<Value>, n: int) -> Seq<Value> {
    if n <= s.len() { s.subrange(0, n) } else { s }
}

impl FrameState {
    /// Entering a `try` block: its handler's offset and the current stack
    /// depth are recorded.
    pub fn try_enter(&mut self, catch_offset: usize)
        ensures
            final(self).try_stack@.len() == old(self).try_stack@.len() + 1,
            forall|i: int| 0 <= i < old(self).try_stack@.len() ==> #[trigger] final(self).try_stack@[i] == old(self).try_stack@[i],
            final(self).try_stack@.last().catch_offset == catch_offset,
            final(self).try_stack@.last().sp_at_entry == old(self).operand_stack@.len(),
            final(self).operand_stack@ == old(self).operand_stack@,
            final(self).locals@ == old(self).locals@,
            final(self).pc == old(self).pc,
    {
        let sp = self.operand_stack.len();
        self.try_stack.push(TryFrame { catch_offset, sp_at_entry: sp });
    }

    /// Leaving a `try` block normally: its record is dropped (none left,
    /// nothing changes).
    pub fn try_exit(&mut self)
        ensures
            final(self).try_stack@ == if old(self).try_stack@.len() > 0 {
                old(self).try_stack@.drop_last()
            } else {
                old(self).try_stack@
            },
            final(self).operand_stack@ == old(self).operand_stack@,
            final(self).locals@ == old(self).locals@,
            final(self).pc == old(self).pc,
    {
        self.try_stack.pop();
    }

    /// An error the frame's code raised, as the value a `catch` receives:
    /// with no `try` block left the error leaves the frame (`false`, nothing
    /// changes); otherwise the innermost block's record is dropped, the
    /// stack cut back to its depth at entry, the value pushed, and the
    /// frame resumes at the handler (`true`).
    pub fn unwind_to_handler(&mut self, v: Value) -> (caught: bool)
        ensures
            caught == (old(self).try_stack@.len() > 0),
            !caught ==> {
                &&& final(self).try_stack@ == old(self).try_stack@
                &&& final(self).operand_stack@ == old(self).operand_stack@
                &&& final(self).pc == old(self).pc
            },
            caught ==> {
                let t = old(self).try_stack@.last();
                &&& final(self).try_stack@ == old(self).try_stack@.drop_last()
                &&& final(self).operand_stack@ == cut_to(old(self).operand_stack@, t.sp_at_entry as int).push(v)
                &&& final(self).pc == t.catch_offset
            },
            final(self).locals@ == old(self).locals@,
    {
        match self.try_stack.pop() {
            Some(t) => {
                self.operand_stack.truncate(t.sp_at_entry);
                self.operand_stack.push(v);
                self.pc = t.catch_offset;
                true
            },
            None => false,
        }
    }
}

// ------------------------------------------------- position of a fault

/// The source-map entry that names where the fault happened: the last one
/// whose offset is at or before the faulting instruction, which starts
/// just before `pc`; `None` when there is none.
pub open spec fn last_at_or_before(offsets: Seq<usize>, at: int) -> Option<int>
    decreases offsets.len(),
{
    if offsets.len() == 0 {
        None
    } else if offsets.last() <= at {
        Some(offsets.len() - 1)
    } else {
        last_at_or_before(offsets.drop_last(), at)
    }
}

proof fn lemma_last_at_or_before_bound(offsets: Seq<usize>, at: int)
    ensures
        last_at_or_before(offsets, at) matches Some(i) ==> 0 <= i < offsets.len() && offsets[i] <= at,
    decreases offsets.len(),
{
    if offsets.len() > 0 && offsets.last() > at {
        lemma_last_at_or_before_bound(offsets.drop_last(), at);
    }
}

/// The instruction a fault is attributed to: the one before `pc` (0 at the
/// start).
pub open spec fn fault_pc(pc: usize) -> int {
    if pc == 0 { 0 } else { pc - 1 }
}

fn last_at_or_before_exec(offsets: &Vec<usize>, at: usize) -> (r: Option<usize>)
    ensures
        match last_at_or_before(offsets@, at as int) {
            Some(i) => r == Some(i as usize),
            None => r is None,
        },
        r matches Some(i) ==> i < offsets@.len(),
{
    let mut k: usize = offsets.len();
    assert(offsets@.subrange(0, offsets@.len() as int) =~= offsets@);
    while k > 0
        invariant
            0 <= k <= offsets@.len(),
            last_at_or_before(offsets@, at as int) == last_at_or_before(offsets@.subrange(0, k as int), at as int),
        decreases k,
    {
        let ghost pre = offsets@.subrange(0, k as int);
        assert(pre.drop_last() =~= offsets@.subrange(0, k - 1));
        if offsets[k - 1] <= at {
            return Some(k - 1);
        }
        k = k - 1;
    }
    None
}

/// Which source-map entry an engine error's message takes its position
/// from: none when the message already carries one (it holds " @"), when
/// the frame has no source map or no line table, or when no entry starts at
/// or before the faulting instruction.
pub open spec fn fault_span(msg: Seq<char>, map_offsets: Seq<usize>, has_line_starts: bool, pc: usize) -> Option<int> {
    if occurs_in(msg, " @"@) || map_offsets.len() == 0 || !has_line_starts {
        None
    } else {
        last_at_or_before(map_offsets, fault_pc(pc))
    }
}

/// Computes `fault_span`; the span's start is then turned into a line and
/// column by the frame's line table.
pub fn fault_span_index(msg: &str, map_offsets: &Vec<usize>, has_line_starts: bool, pc: usize) -> (r: Option<usize>)
    ensures
        match fault_span(msg@, map_offsets@, has_line_starts, pc) {
            Some(i) => r == Some(i as usize),
            None => r is None,
        },
{
    let marker = chars_of(" @");
    let text = chars_of(msg);
    let found = first_occurrence_exec(&text, &marker);
    proof {
        lemma_first_occurrence_from(msg@, " @"@, 0);
    }
    if found.is_some() || map_offsets.len() == 0 || !has_line_starts {
        return None;
    }
    let at: usize = if pc == 0 { 0 } else { pc - 1 };
    last_at_or_before_exec(map_offsets, at)
}

/// The position appended to a message: `@url:line:col`, or `@line:col`
/// without a url.
pub open spec fn position_text(url: Seq<char>, line: nat, col: nat) -> Seq<char> {
    if url.len() == 0 {
        "@"@ + decimal(line) + ":"@ + decimal(col)
    } else {
        "@"@ + url + ":"@ + decimal(line) + ":"@ + decimal(col)
    }
}

/// The message of an engine error with its position: the construct the
/// fault lies in (the last construct tag at or before the faulting
/// instruction), when there is one, then the position.
pub open spec fn enriched_message(
    msg: Seq<char>,
    tag_offsets: Seq<usize>,
    tag_names: Seq<Seq<char>>,
    pc: usize,
    url: Seq<char>,
    line: nat,
    col: nat,
) -> Seq<char> {
    match last_at_or_before(tag_offsets, fault_pc(pc)) {
        Some(i) => msg + " [in "@ + tag_names[i] + "] "@ + position_text(url, line, col),
        None => msg + " "@ + position_text(url, line, col),
    }
}

/// Appends the fault's construct and position to an engine error's
/// message, given the line and column of the span's start. The construct
/// tags are parallel lists of offsets and names.
pub fn enrich_message(
    msg: &str,
    tag_offsets: &Vec<usize>,
    tag_names: &Vec<String>,
    pc: usize,
    url: &str,
    line: u32,
    col: u32,
) -> (r: String)
    requires
        tag_offsets@.len() == tag_names@.len(),
    ensures
        r@ == enriched_message(msg@, tag_offsets@, tag_names@.map_values(|t: String| t@), pc, url@, line as nat, col as nat),
{
    let at: usize = if pc == 0 { 0 } else { pc - 1 };
    let construct = last_at_or_before_exec(tag_offsets, at);
    let n_tags = tag_offsets.len();
    let ghost names = tag_names@.map_values(|t: String| t@);
    let mut out = String::from_str(msg);
    match construct {
        Some(i) => {
            out.append(" [in ");
            out.append(tag_names[i].as_str());
            out.append("] ");
            assert(names[i as int] == tag_names@[i as int]@);
            assert(out@ == msg@ + " [in "@ + names[i as int] + "] "@);
        },
        None => {
            out.append(" ");
        },
    }
    let ghost before = out@;
    out.append("@");
    if url.unicode_len() > 0 {
        out.append(url);
        out.append(":");
    }
    append_decimal(&mut out, line as u128);
    out.append(":");
    append_decimal(&mut out, col as u128);
    assert(out@ =~= before + position_text(url@, line as nat, col as nat));
    proof {
        lemma_last_at_or_before_bound(tag_offsets@, fault_pc(pc));
    }
    match construct {
        Some(_) => {
            let ghost j = last_at_or_before(tag_offsets@, at as int)->0;
            assert(j < n_tags);
        },
        None => {},
    }
    out
}

// ------------------------------------------------------------------ laws

/// The entry a fault is attributed to is the last one that starts at or
/// before the instruction: it starts there or earlier, and every later
/// entry starts after it; there is none only when every entry starts
/// after it.
pub proof fn law_fault_entry_is_the_last_at_or_before(offsets: Seq<usize>, at: int)
    ensures
        last_at_or_before(offsets, at) matches Some(i) ==> {
            &&& 0 <= i < offsets.len()
            &&& offsets[i] <= at
            &&& forall|j: int| i < j < offsets.len() ==> offsets[j] > at
        },
        last_at_or_before(offsets, at) is None ==> forall|j: int| 0 <= j < offsets.len() ==> offsets[j] > at,
    decreases offsets.len(),
{
    if offsets.len() > 0 && offsets.last() > at {
        law_fault_entry_is_the_last_at_or_before(offsets.drop_last(), at);
        assert forall|j: int| 0 <= j < offsets.len() - 1 implies offsets[j] == offsets.drop_last()[j] by {}
    }
}

} // verus!
