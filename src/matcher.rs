//! Running a compiled table against a subject.
use vstd::prelude::*;

use crate::compiler::RegexError;
use crate::table::{
    action_ok, all_supported, code, supported, symbols_of, table_wf, Regex, RegexAction,
    REGEX_COLUMN_SIZE, REGEX_END,
};

verus! {

/// A step that a run may take from `state`: it consumes input, rejects, or
/// moves forward without consuming.
pub open spec fn steps_on(a: RegexAction, state: int) -> bool {
    a.offset == 1 || (a.offset == 0 && (a.next == 0 || a.next > state))
}

/// The measure of a run's progress over the table.
pub open spec fn columns_left(t: Seq<Seq<RegexAction>>, state: int) -> int {
    if 0 < state < t.len() {
        t.len() - state
    } else {
        0
    }
}

/// Where a run of table `t` on subject `s` from `state` at position `head`
/// stops: the state and the position at which it left the table, hit the
/// sink, or ran out of input.
pub open spec fn run(t: Seq<Seq<RegexAction>>, s: Seq<char>, state: int, head: int) -> (int, int)
    decreases s.len() - head, columns_left(t, state),
{
    if 0 < state < t.len() && 0 <= head < s.len() && 0 <= code(s[head]) < t[state].len()
        && steps_on(t[state][code(s[head])], state) {
        let a = t[state][code(s[head])];
        run(t, s, a.next as int, head + a.offset)
    } else {
        (state, head)
    }
}

/// Whether table `t` accepts subject `s`: the run from the start state did
/// not hit the sink, and it either passed the last column or, with input
/// used up, the end-of-input action of its column passes it.
pub open spec fn accepts(t: Seq<Seq<RegexAction>>, s: Seq<char>) -> bool {
    let state = run(t, s, 1, 0).0;
    state != 0 && (state >= t.len() || t[state][REGEX_END as int].next >= t.len())
}

impl Regex {
    /// Whether the subject matches, from its start; input left over after
    /// the last column is accepted unless the pattern ended in `$`.
    pub fn match_str(&self, recv_str: &str) -> (r: bool)
        requires
            self.wf(),
            all_supported(recv_str@),
        ensures
            r == accepts(self@, recv_str@),
    {
        let chars = symbols_of(recv_str);
        self.match_symbols(&chars)
    }

    fn match_symbols(&self, chars: &Vec<char>) -> (r: bool)
        requires
            self.wf(),
            all_supported(chars@),
        ensures
            r == accepts(self@, chars@),
    {
        let ghost t = self@;
        let ghost s = chars@;
        let mut state: usize = 1;
        let mut head: usize = 0;
        while 0 < state && state < self.cs.len() && head < chars.len()
            invariant
                table_wf(t),
                t == self@,
                s == chars@,
                all_supported(s),
                head <= s.len(),
                run(t, s, state as int, head as int) == run(t, s, 1, 0),
            decreases s.len() - head, columns_left(t, state as int),
        {
            let c = chars[head];
            assert(supported(s[head as int]));
            let ghost k = code(c);
            assert(t[state as int].len() == REGEX_COLUMN_SIZE);
            let action = self.cs[state].ts[c as usize];
            assert(action == t[state as int][k]);
            assert(action_ok(t[state as int][k], state as int));
            state = action.next;
            head = head + action.offset;
        }
        if state == 0 {
            return false;
        }
        if state < self.cs.len() {
            assert(t[state as int].len() == REGEX_COLUMN_SIZE);
            state = self.cs[state].ts[REGEX_END].next;
        }
        state >= self.cs.len()
    }

    /// Whether the subject matches, or `UnsupportedSymbol` when it holds a
    /// character outside printable ASCII.
    pub fn try_match_str(&self, recv_str: &str) -> (r: Result<bool, RegexError>)
        requires
            self.wf(),
        ensures
            all_supported(recv_str@) ==> r == Ok::<bool, RegexError>(accepts(self@, recv_str@)),
            !all_supported(recv_str@) ==> r == Err::<bool, RegexError>(
                RegexError::UnsupportedSymbol,
            ),
    {
        let chars = symbols_of(recv_str);
        let mut i: usize = 0;
        while i < chars.len()
            invariant
                0 <= i <= chars@.len(),
                chars@ == recv_str@,
                forall|j: int| 0 <= j < i ==> supported(#[trigger] chars@[j]),
            decreases chars@.len() - i,
        {
            let c = chars[i];
            if !(' ' <= c && c <= '~') {
                return Err(RegexError::UnsupportedSymbol);
            }
            i += 1;
        }
        Ok(self.match_symbols(&chars))
    }
}

} // verus!
