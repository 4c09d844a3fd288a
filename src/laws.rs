//! Properties of compiling and matching together.
use vstd::prelude::*;

use crate::compiler::{
    compile_spec, is_atom, lemma_compile_len, lemma_compile_shape, pattern_error, table_shape,
};
use crate::matcher::{accepts, columns_left, run, steps_on};
use crate::table::{
    action_ok, advance_to, all_supported, code, empty_column, end_column, literal_column, reject,
    supported, wildcard_column, RegexAction, REGEX_COLUMN_SIZE, REGEX_END,
};

verus! {

/// A pattern character that stands for itself.
pub open spec fn is_literal(c: char) -> bool {
    supported(c) && c != '.' && c != '$' && c != '*' && c != '+'
}

pub open spec fn literal_only(p: Seq<char>) -> bool {
    forall|i: int| 0 <= i < p.len() ==> is_literal(#[trigger] p[i])
}

pub open spec fn atoms_only(p: Seq<char>) -> bool {
    forall|i: int| 0 <= i < p.len() ==> is_atom(#[trigger] p[i])
}

/// Whether the atom `a` of a pattern matches the subject character `c`.
pub open spec fn atom_accepts(a: char, c: char) -> bool {
    if a == '.' {
        supported(c)
    } else {
        c == a
    }
}

/// The column that the atom `a` compiles to at `index`.
pub open spec fn atom_column_of(a: char, index: int) -> Seq<RegexAction> {
    if a == '.' {
        wildcard_column(index)
    } else {
        literal_column(a, index)
    }
}

/// Compiling equal patterns gives equal tables, so both give the same
/// verdict on every subject.
pub proof fn lemma_compile_deterministic(p: Seq<char>, q: Seq<char>)
    requires
        p == q,
    ensures
        compile_spec(p) == compile_spec(q),
        forall|s: Seq<char>| accepts(compile_spec(p), s) == accepts(compile_spec(q), s),
{
}

/// A pattern of literals and `.` compiles to one column per character.
proof fn lemma_atom_table(p: Seq<char>)
    requires
        atoms_only(p),
        p.len() < usize::MAX - 1,
    ensures
        compile_spec(p).len() == p.len() + 1,
        compile_spec(p)[0] == empty_column(),
        forall|i: int|
            0 <= i < p.len() ==> #[trigger] compile_spec(p)[i + 1] == atom_column_of(p[i], i + 1),
    decreases p.len(),
{
    if p.len() > 0 {
        let q = p.drop_last();
        assert forall|i: int| 0 <= i < q.len() implies is_atom(#[trigger] q[i]) by {
            assert(q[i] == p[i]);
        }
        lemma_atom_table(q);
        assert forall|i: int| 0 <= i < p.len() implies #[trigger] compile_spec(p)[i + 1]
            == atom_column_of(p[i], i + 1) by {
            if i < q.len() {
                assert(compile_spec(q)[i + 1] == atom_column_of(q[i], i + 1));
            }
        }
    }
}

/// Every column of an atom pattern's table has a slot for each symbol.
proof fn lemma_atom_table_columns(p: Seq<char>)
    requires
        atoms_only(p),
        p.len() < usize::MAX - 1,
    ensures
        forall|i: int|
            0 <= i < compile_spec(p).len() ==> (#[trigger] compile_spec(p)[i]).len()
                == REGEX_COLUMN_SIZE,
{
    lemma_atom_table(p);
    assert forall|i: int| 0 <= i < compile_spec(p).len() implies (#[trigger] compile_spec(
        p,
    )[i]).len() == REGEX_COLUMN_SIZE by {
        if i > 0 {
            assert(compile_spec(p)[(i - 1) + 1] == atom_column_of(p[i - 1], i));
        }
    }
}

/// From column `j + 1` at position `j`, a run whose columns advance on the
/// subject's characters one by one reaches column `n + 1` at position `n`.
proof fn lemma_run_advancing(t: Seq<Seq<RegexAction>>, s: Seq<char>, n: int, j: int)
    requires
        n < usize::MAX - 1,
        t.len() >= n + 1,
        n <= s.len(),
        forall|i: int| 0 <= i < t.len() ==> (#[trigger] t[i]).len() == REGEX_COLUMN_SIZE,
        forall|i: int| 0 <= i < n ==> supported(#[trigger] s[i]),
        forall|i: int| 0 <= i < n ==> #[trigger] t[i + 1][code(s[i])] == advance_to(i + 2),
        0 <= j <= n,
    ensures
        run(t, s, j + 1, j) == run(t, s, n + 1, n),
    decreases n - j,
{
    if j < n {
        assert(supported(s[j]));
        assert(t[j + 1].len() == REGEX_COLUMN_SIZE);
        assert(t[j + 1][code(s[j])] == advance_to(j + 2));
        lemma_run_advancing(t, s, n, j + 1);
    }
}

/// The columns of an atom pattern advance on a subject that it matches
/// character by character.
proof fn lemma_atom_columns_advance(t: Seq<Seq<RegexAction>>, p: Seq<char>, s: Seq<char>)
    requires
        atoms_only(p),
        p.len() <= s.len(),
        t.len() >= p.len() + 1,
        forall|i: int| 0 <= i < p.len() ==> #[trigger] t[i + 1] == atom_column_of(p[i], i + 1),
        forall|i: int| 0 <= i < p.len() ==> atom_accepts(p[i], #[trigger] s[i]),
    ensures
        forall|i: int| 0 <= i < p.len() ==> supported(#[trigger] s[i]),
        forall|i: int| 0 <= i < p.len() ==> #[trigger] t[i + 1][code(s[i])] == advance_to(i + 2),
{
    assert forall|i: int| 0 <= i < p.len() implies supported(#[trigger] s[i]) by {
        assert(is_atom(p[i]));
        assert(atom_accepts(p[i], s[i]));
    }
    assert forall|i: int| 0 <= i < p.len() implies #[trigger] t[i + 1][code(s[i])] == advance_to(
        i + 2,
    ) by {
        assert(t[i + 1] == atom_column_of(p[i], i + 1));
        assert(is_atom(p[i]));
        assert(atom_accepts(p[i], s[i]));
    }
}

/// A pattern of literals and `.` matches every subject whose start it
/// matches character by character, `.` standing for any supported
/// character; what follows is not looked at.
pub proof fn lemma_atoms_match_prefix(p: Seq<char>, s: Seq<char>)
    requires
        atoms_only(p),
        p.len() < usize::MAX - 1,
        p.len() <= s.len(),
        forall|i: int| 0 <= i < p.len() ==> atom_accepts(p[i], #[trigger] s[i]),
    ensures
        accepts(compile_spec(p), s),
{
    lemma_atom_table(p);
    let t = compile_spec(p);
    lemma_atom_columns_advance(t, p, s);
    lemma_atom_table_columns(p);
    lemma_run_advancing(t, s, p.len() as int, 0);
}

/// A literal-only pattern matches itself, and itself followed by anything.
pub proof fn lemma_literal_matches_prefix(p: Seq<char>, x: Seq<char>)
    requires
        literal_only(p),
        p.len() < usize::MAX - 1,
    ensures
        accepts(compile_spec(p), p),
        accepts(compile_spec(p), p + x),
{
    assert forall|i: int| 0 <= i < p.len() implies is_atom(#[trigger] p[i]) by {
        assert(is_literal(p[i]));
    }
    assert forall|i: int| 0 <= i < p.len() implies atom_accepts(p[i], #[trigger] p[i]) by {
        assert(is_literal(p[i]));
    }
    assert forall|i: int| 0 <= i < p.len() implies atom_accepts(p[i], #[trigger] (p + x)[i]) by {
        assert(is_literal(p[i]));
        assert((p + x)[i] == p[i]);
    }
    lemma_atoms_match_prefix(p, p);
    lemma_atoms_match_prefix(p, p + x);
}

/// A literal-only pattern followed by `$` matches the literal text.
pub proof fn lemma_end_anchor_matches(p: Seq<char>)
    requires
        literal_only(p),
        p.len() < usize::MAX - 2,
    ensures
        accepts(compile_spec(p.push('$')), p),
{
    assert forall|i: int| 0 <= i < p.len() implies is_atom(#[trigger] p[i]) by {
        assert(is_literal(p[i]));
    }
    assert forall|i: int| 0 <= i < p.len() implies atom_accepts(p[i], #[trigger] p[i]) by {
        assert(is_literal(p[i]));
    }
    lemma_atom_table(p);
    let u = compile_spec(p);
    let q = p.push('$');
    assert(q.drop_last() =~= p);
    let t = compile_spec(q);
    assert(t == u.push(end_column(u.len() as int)));
    assert forall|i: int| 0 <= i < p.len() implies #[trigger] t[i + 1] == atom_column_of(
        p[i],
        i + 1,
    ) by {
        assert(t[i + 1] == u[i + 1]);
    }
    lemma_atom_columns_advance(t, p, p);
    lemma_atom_table_columns(p);
    assert forall|i: int| 0 <= i < t.len() implies (#[trigger] t[i]).len() == REGEX_COLUMN_SIZE by {
        if i < u.len() {
            assert(t[i] == u[i]);
        }
    }
    lemma_run_advancing(t, p, p.len() as int, 0);
    assert(t[p.len() + 1 as int][REGEX_END as int] == advance_to(p.len() + 2 as int));
}

/// In the table of a valid pattern ending in `$`, a run over supported
/// characters never leaves the table, and stops at the sink or at the end
/// of the subject.
proof fn lemma_run_in_table(t: Seq<Seq<RegexAction>>, s: Seq<char>, state: int, head: int)
    requires
        table_shape(t),
        t.len() >= 2,
        t[t.len() - 1] == end_column(t.len() - 1),
        all_supported(s),
        0 <= state < t.len(),
        0 <= head <= s.len(),
    ensures
        0 <= run(t, s, state, head).0 < t.len(),
        run(t, s, state, head).0 == 0 || run(t, s, state, head).1 == s.len(),
    decreases s.len() - head, columns_left(t, state),
{
    if 0 < state && head < s.len() {
        let k = code(s[head]);
        assert(supported(s[head]));
        assert(t[state].len() == REGEX_COLUMN_SIZE);
        let a = t[state][k];
        assert(action_ok(a, state));
        if state == t.len() - 1 {
            assert(a == reject());
        }
        assert(steps_on(a, state));
        lemma_run_in_table(t, s, a.next as int, head + a.offset);
    }
}

/// A run that uses up `s` goes on over `s + x` from where it stopped.
proof fn lemma_run_extend(t: Seq<Seq<RegexAction>>, s: Seq<char>, x: Seq<char>, state: int, head: int)
    requires
        0 <= head <= s.len(),
        run(t, s, state, head).1 == s.len(),
    ensures
        run(t, s + x, state, head) == run(t, s + x, run(t, s, state, head).0, s.len() as int),
    decreases s.len() - head, columns_left(t, state),
{
    if head < s.len() {
        assert((s + x)[head] == s[head]);
        if 0 < state < t.len() && 0 <= code(s[head]) < t[state].len() && steps_on(
            t[state][code(s[head])],
            state,
        ) {
            let a = t[state][code(s[head])];
            lemma_run_extend(t, s, x, a.next as int, head + a.offset);
        }
    }
}

/// For a valid pattern ending in `$`, a subject that it accepts is
/// rejected once anything is appended to it.
pub proof fn lemma_end_anchor_rejects_suffix(p: Seq<char>, s: Seq<char>, x: Seq<char>)
    requires
        pattern_error(p) is None,
        p.len() >= 1,
        p.last() == '$',
        p.len() < usize::MAX - 1,
        all_supported(s),
        all_supported(x),
        x.len() > 0,
        accepts(compile_spec(p), s),
    ensures
        !accepts(compile_spec(p), s + x),
{
    let t = compile_spec(p);
    lemma_compile_len(p);
    lemma_compile_shape(p);
    lemma_compile_len(p.drop_last());
    let l = t.len() as int;
    assert(t[l - 1] == end_column(l - 1));
    lemma_run_in_table(t, s, 1, 0);
    let st = run(t, s, 1, 0).0;
    assert(t[st].len() == REGEX_COLUMN_SIZE);
    assert(t[st][REGEX_END as int].next >= l);
    assert(st == l - 1);
    lemma_run_extend(t, s, x, 1, 0);
    let sx = s + x;
    assert(sx[s.len() as int] == x[0]);
    assert(supported(x[0]));
    assert(t[l - 1][code(x[0])] == reject());
    assert(run(t, sx, l - 1, s.len() as int) == run(t, sx, 0, s.len() as int));
}

} // verus!
