//! Compilation of a pattern into a transition table, one pattern character
//! at a time, left to right.
use vstd::prelude::*;

use crate::table::{
    action_ok, advance_to, code, empty_column, end_column, literal_column, plus_column, reject, star_column,
    supported, symbols_of, table_wf, wildcard_column, Regex, RegexAction, RegexColumn,
    REGEX_COLUMN_SIZE,
};

verus! {

/// Why a pattern or a subject is refused.
#[derive(Clone, Copy, Debug, PartialEq, Eq, Structural)]
pub enum RegexError {
    /// A character outside printable ASCII.
    UnsupportedSymbol,
    /// A `*` or `+` that does not follow a literal or `.`.
    InvalidQuantifierPlacement,
}

pub open spec fn is_quantifier(c: char) -> bool {
    c == '*' || c == '+'
}

/// A character that compiles to a column a quantifier may apply to.
pub open spec fn is_atom(c: char) -> bool {
    supported(c) && c != '*' && c != '+' && c != '$'
}

/// What is wrong with the character at `i` of pattern `p`, if anything.
pub open spec fn symbol_error(p: Seq<char>, i: int) -> Option<RegexError> {
    if !supported(p[i]) {
        Some(RegexError::UnsupportedSymbol)
    } else if is_quantifier(p[i]) && (i == 0 || !is_atom(p[i - 1])) {
        Some(RegexError::InvalidQuantifierPlacement)
    } else {
        None
    }
}

/// The error of the leftmost offending character of `p`, if any.
pub open spec fn pattern_error(p: Seq<char>) -> Option<RegexError>
    decreases p.len(),
{
    if p.len() == 0 {
        None
    } else {
        match pattern_error(p.drop_last()) {
            Some(e) => Some(e),
            None => symbol_error(p, p.len() - 1),
        }
    }
}

/// The table after pattern character `c` is compiled onto `t`.
pub open spec fn compile_step(t: Seq<Seq<RegexAction>>, c: char) -> Seq<Seq<RegexAction>> {
    let n = t.len() as int;
    if c == '$' {
        t.push(end_column(n))
    } else if c == '.' {
        t.push(wildcard_column(n))
    } else if c == '*' {
        t.update(n - 1, star_column(t[n - 1], n - 1))
    } else if c == '+' {
        t.push(plus_column(t[n - 1], n))
    } else {
        t.push(literal_column(c, n))
    }
}

/// The table compiled from pattern `p`.
pub open spec fn compile_spec(p: Seq<char>) -> Seq<Seq<RegexAction>>
    decreases p.len(),
{
    if p.len() == 0 {
        seq![empty_column()]
    } else {
        compile_step(compile_spec(p.drop_last()), p.last())
    }
}

/// Column `index` of an atom: each action either rejects or advances to the
/// next column.
pub open spec fn atom_column(col: Seq<RegexAction>, index: int) -> bool {
    &&& col.len() == REGEX_COLUMN_SIZE
    &&& forall|k: int|
        0 <= k < REGEX_COLUMN_SIZE ==> #[trigger] col[k] == reject() || col[k] == advance_to(
            index + 1,
        )
}

/// A well-formed table whose actions only go to the sink, stay, or move
/// one column on.
pub open spec fn table_shape(t: Seq<Seq<RegexAction>>) -> bool {
    &&& table_wf(t)
    &&& forall|i: int, k: int|
        1 <= i < t.len() && 0 <= k < REGEX_COLUMN_SIZE ==> {
            let a = #[trigger] t[i][k];
            a.next == 0 || a.next == i || a.next == i + 1
        }
}

pub proof fn lemma_compile_len(p: Seq<char>)
    ensures
        1 <= compile_spec(p).len() <= p.len() + 1,
    decreases p.len(),
{
    if p.len() > 0 {
        lemma_compile_len(p.drop_last());
    }
}

/// An error in a prefix is the error of the whole pattern.
pub proof fn lemma_error_extends(p: Seq<char>, j: int)
    requires
        0 <= j <= p.len(),
        pattern_error(p.take(j)) is Some,
    ensures
        pattern_error(p) == pattern_error(p.take(j)),
    decreases p.len(),
{
    if j == p.len() {
        assert(p.take(j) =~= p);
    } else {
        assert(p.drop_last().take(j) =~= p.take(j));
        lemma_error_extends(p.drop_last(), j);
    }
}

/// A pattern ending in an atom ends in an atom column past the sink.
pub proof fn lemma_atom_last(p: Seq<char>)
    requires
        p.len() >= 1,
        compile_spec(p).len() <= usize::MAX,
        is_atom(p.last()),
    ensures
        compile_spec(p).len() >= 2,
        atom_column(compile_spec(p).last(), compile_spec(p).len() - 1),
{
    lemma_compile_len(p.drop_last());
    let t = compile_spec(p.drop_last());
    let n = t.len() as int;
    let col = compile_spec(p).last();
    if p.last() == '.' {
        assert(col == wildcard_column(n));
    } else {
        assert(col == literal_column(p.last(), n));
        assert forall|k: int| 0 <= k < REGEX_COLUMN_SIZE implies #[trigger] col[k] == reject()
            || col[k] == advance_to(n + 1) by {
            if k == code(p.last()) {
                assert(col[k] == advance_to(n + 1));
            }
        }
    }
}

/// A valid pattern compiles to a table of the expected shape.
pub proof fn lemma_compile_shape(p: Seq<char>)
    requires
        pattern_error(p) is None,
        compile_spec(p).len() <= usize::MAX,
    ensures
        table_shape(compile_spec(p)),
    decreases p.len(),
{
    lemma_compile_len(p);
    let t = compile_spec(p);
    if p.len() == 0 {
        assert(table_shape(t));
    } else {
        let q = p.drop_last();
        let c = p.last();
        lemma_compile_len(q);
        let u = compile_spec(q);
        assert(u.len() <= t.len());
        lemma_compile_shape(q);
        let n = u.len() as int;
        assert(symbol_error(p, p.len() - 1) is None);
        if c == '*' || c == '+' {
            assert(is_atom(q.last()));
            lemma_atom_last(q);
            let col = u[n - 1];
            assert(atom_column(col, n - 1));
            if c == '*' {
                assert forall|i: int, k: int|
                    1 <= i < t.len() && 0 <= k < REGEX_COLUMN_SIZE implies action_ok_shaped(
                    #[trigger] t[i][k],
                    i,
                ) by {
                    if i < n - 1 {
                        assert(t[i] == u[i]);
                        assert(t[i][k] == u[i][k]);
                    } else {
                        assert(t[i][k] == crate::table::star_action(col[k], n - 1));
                        assert(col[k] == reject() || col[k] == advance_to(n));
                    }
                }
            } else {
                assert forall|i: int, k: int|
                    1 <= i < t.len() && 0 <= k < REGEX_COLUMN_SIZE implies action_ok_shaped(
                    #[trigger] t[i][k],
                    i,
                ) by {
                    if i < n {
                        assert(t[i] == u[i]);
                        assert(t[i][k] == u[i][k]);
                    } else {
                        assert(t[i][k] == crate::table::plus_action(col[k], n));
                        assert(col[k] == reject() || col[k] == advance_to(n));
                    }
                }
            }
        } else {
            assert forall|i: int, k: int|
                1 <= i < t.len() && 0 <= k < REGEX_COLUMN_SIZE implies action_ok_shaped(
                #[trigger] t[i][k],
                i,
            ) by {
                if i < n {
                    assert(t[i] == u[i]);
                    assert(t[i][k] == u[i][k]);
                }
            }
        }
        assert forall|i: int| 0 <= i < t.len() implies (#[trigger] t[i]).len()
            == REGEX_COLUMN_SIZE by {
            if i < n - 1 {
                assert(t[i] == u[i]);
            }
        }
        assert(t[0] == u[0]);
    }
}

/// The per-action part of `table_shape`, as one predicate.
pub open spec fn action_ok_shaped(a: RegexAction, i: int) -> bool {
    &&& action_ok(a, i)
    &&& (a.next == 0 || a.next == i || a.next == i + 1)
}

/// The error of the leftmost offending character of `p`, if any.
fn find_pattern_error(p: &Vec<char>) -> (r: Option<RegexError>)
    ensures
        r == pattern_error(p@),
{
    let mut i: usize = 0;
    while i < p.len()
        invariant
            0 <= i <= p@.len(),
            pattern_error(p@.take(i as int)) is None,
        decreases p@.len() - i,
    {
        let c = p[i];
        let err = if !(' ' <= c && c <= '~') {
            Some(RegexError::UnsupportedSymbol)
        } else if (c == '*' || c == '+') && (i == 0 || p[i - 1] == '*' || p[i - 1] == '+'
            || p[i - 1] == '$') {
            Some(RegexError::InvalidQuantifierPlacement)
        } else {
            None
        };
        let ghost q = p@.take(i + 1);
        assert(q.drop_last() =~= p@.take(i as int));
        assert(err == symbol_error(q, i as int));
        if err.is_some() {
            proof {
                lemma_error_extends(p@, i + 1);
            }
            return err;
        }
        i += 1;
    }
    assert(p@.take(i as int) =~= p@);
    None
}

impl Regex {
    /// Compiles a pattern that is known to be valid.
    pub fn must_compile(src: &str) -> (r: Self)
        requires
            pattern_error(src@) is None,
        ensures
            r.wf(),
            table_shape(r@),
            r@ == compile_spec(src@),
    {
        let p = symbols_of(src);
        Self::build(&p)
    }

    /// The table of a valid pattern, built one character at a time.
    fn build(p: &Vec<char>) -> (r: Self)
        requires
            pattern_error(p@) is None,
        ensures
            table_shape(r@),
            r@ == compile_spec(p@),
    {
        let mut res = Regex { cs: Vec::new() };
        res.cs.push(RegexColumn::new());
        assert(res@ =~= compile_spec(p@.take(0)));
        let mut i: usize = 0;
        while i < p.len()
            invariant
                0 <= i <= p@.len(),
                pattern_error(p@) is None,
                res@ == compile_spec(p@.take(i as int)),
                res@.len() <= usize::MAX,
            decreases p@.len() - i,
        {
            let ghost q = p@.take(i as int);
            let ghost q1 = p@.take(i + 1);
            assert(q1.drop_last() =~= q);
            proof {
                lemma_compile_len(q);
                if pattern_error(q1) is Some {
                    lemma_error_extends(p@, i + 1);
                }
                assert(symbol_error(q1, i as int) is None);
            }
            let c = p[i];
            let n = res.cs.len();
            if c == '*' {
                proof {
                    lemma_atom_last(q);
                }
                let col = res.cs[n - 1].starred(n - 1);
                res.cs.set(n - 1, col);
            } else {
                // The new column goes in first: its successor is then the
                // table's length.
                let placed = if c == '+' {
                    proof {
                        lemma_atom_last(q);
                    }
                    res.cs[n - 1]
                } else {
                    RegexColumn::new()
                };
                res.cs.push(placed);
                let last = res.cs.len() - 1;
                let col = if c == '$' {
                    RegexColumn::end_anchor(last)
                } else if c == '.' {
                    RegexColumn::wildcard(last)
                } else if c == '+' {
                    placed.plussed(last)
                } else {
                    RegexColumn::literal(c as usize, last)
                };
                res.cs.set(last, col);
            }
            assert(res@ =~= compile_step(compile_spec(q), c));
            i += 1;
        }
        assert(p@.take(i as int) =~= p@);
        proof {
            lemma_compile_shape(p@);
        }
        res
    }

    /// Compiles a pattern, or says why it is refused: the error of its
    /// leftmost offending character.
    pub fn compile(src: &str) -> (r: Result<Self, RegexError>)
        ensures
            match pattern_error(src@) {
                None => r is Ok && r->Ok_0.wf() && table_shape(r->Ok_0@) && r->Ok_0@
                    == compile_spec(src@),
                Some(e) => r == Err::<Self, RegexError>(e),
            },
    {
        let p = symbols_of(src);
        match find_pattern_error(&p) {
            Some(e) => Err(e),
            None => Ok(Self::build(&p)),
        }
    }
}

} // verus!
