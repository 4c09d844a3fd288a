//! The transition table: columns of actions indexed by symbol code, and the
//! column shapes that the compiler builds.
use vstd::prelude::*;

verus! {

/// Number of symbol slots in a column.
pub const REGEX_COLUMN_SIZE: usize = 130;

/// Slot of the end-of-input pseudo-symbol.
pub const REGEX_END: usize = 129;

/// First symbol code that the language supports (the space).
pub const FIRST_PRINTABLE: usize = 32;

/// Last symbol code that the language supports (the tilde).
pub const LAST_PRINTABLE: usize = 126;

/// One transition: go to column `next` and advance the input by `offset`
/// (0 or 1). `next == 0` is the reject sink.
#[derive(Clone, Copy, Debug, PartialEq, Eq, Structural)]
pub struct RegexAction {
    pub next: usize,
    pub offset: usize,
}

/// The actions of one state, one per symbol code.
#[derive(Clone, Copy, Debug)]
pub struct RegexColumn {
    pub ts: [RegexAction; REGEX_COLUMN_SIZE],
}

/// A compiled pattern. Column 0 is the reject sink, column 1 the start
/// state; any state at or past the end of the table accepts.
#[derive(Debug)]
pub struct Regex {
    pub cs: Vec<RegexColumn>,
}

/// The symbol code of a character.
pub open spec fn code(c: char) -> int {
    c as int
}

/// Characters that patterns and subjects may contain: printable ASCII.
pub open spec fn supported(c: char) -> bool {
    ' ' <= c && c <= '~'
}

pub open spec fn all_supported(s: Seq<char>) -> bool {
    forall|i: int| 0 <= i < s.len() ==> supported(#[trigger] s[i])
}

pub open spec fn printable(k: int) -> bool {
    FIRST_PRINTABLE <= k <= LAST_PRINTABLE
}

pub open spec fn reject() -> RegexAction {
    RegexAction { next: 0, offset: 0 }
}

/// Consume one symbol and go to column `next`.
pub open spec fn advance_to(next: int) -> RegexAction {
    RegexAction { next: next as usize, offset: 1 }
}

/// Go to column `next` without consuming input.
pub open spec fn fall_to(next: int) -> RegexAction {
    RegexAction { next: next as usize, offset: 0 }
}

pub open spec fn empty_column() -> Seq<RegexAction> {
    Seq::new(REGEX_COLUMN_SIZE as nat, |k: int| reject())
}

/// Column `index` for a literal `c`: only `c` advances to the next column.
pub open spec fn literal_column(c: char, index: int) -> Seq<RegexAction> {
    empty_column().update(code(c), advance_to(index + 1))
}

/// Column `index` for `.`: every printable symbol advances.
pub open spec fn wildcard_column(index: int) -> Seq<RegexAction> {
    Seq::new(
        REGEX_COLUMN_SIZE as nat,
        |k: int|
            if printable(k) {
                advance_to(index + 1)
            } else {
                reject()
            },
    )
}

/// Column `index` for `$`: only the end of input advances.
pub open spec fn end_column(index: int) -> Seq<RegexAction> {
    empty_column().update(REGEX_END as int, advance_to(index + 1))
}

/// `*` on the action of column `index`: an advance loops back on the
/// column, a reject falls through to the next column without consuming.
pub open spec fn star_action(a: RegexAction, index: int) -> RegexAction {
    if a.next == index + 1 {
        RegexAction { next: index as usize, offset: a.offset }
    } else if a.next == 0 {
        fall_to(index + 1)
    } else {
        a
    }
}

pub open spec fn star_column(col: Seq<RegexAction>, index: int) -> Seq<RegexAction> {
    col.map_values(|a: RegexAction| star_action(a, index))
}

/// `+` on a copy of the previous column, placed at `index`: advances
/// (which already point at `index`) loop, rejects fall through.
pub open spec fn plus_action(a: RegexAction, index: int) -> RegexAction {
    if a.next == 0 {
        fall_to(index + 1)
    } else {
        a
    }
}

pub open spec fn plus_column(col: Seq<RegexAction>, index: int) -> Seq<RegexAction> {
    col.map_values(|a: RegexAction| plus_action(a, index))
}

/// An action of column `index` never sends the matcher backwards without
/// consuming input.
pub open spec fn action_ok(a: RegexAction, index: int) -> bool {
    &&& a.offset <= 1
    &&& a.offset == 0 ==> (a.next == 0 || a.next > index)
}

pub open spec fn table_wf(t: Seq<Seq<RegexAction>>) -> bool {
    &&& t.len() >= 1
    &&& forall|i: int| 0 <= i < t.len() ==> (#[trigger] t[i]).len() == REGEX_COLUMN_SIZE
    &&& forall|k: int| 0 <= k < REGEX_COLUMN_SIZE ==> t[0][k] == reject()
    &&& forall|i: int, k: int|
        1 <= i < t.len() && 0 <= k < REGEX_COLUMN_SIZE ==> action_ok(#[trigger] t[i][k], i)
}

impl View for Regex {
    type V = Seq<Seq<RegexAction>>;

    open spec fn view(&self) -> Seq<Seq<RegexAction>> {
        self.cs@.map_values(|c: RegexColumn| c.ts@)
    }
}

impl Regex {
    pub open spec fn wf(&self) -> bool {
        table_wf(self@)
    }

    /// Number of columns, the reject sink included.
    pub fn num_columns(&self) -> (r: usize)
        ensures
            r == self@.len(),
    {
        self.cs.len()
    }

    /// The action of column `state` on symbol slot `sym`.
    pub fn action(&self, state: usize, sym: usize) -> (r: RegexAction)
        requires
            state < self@.len(),
            sym < REGEX_COLUMN_SIZE,
        ensures
            r == self@[state as int][sym as int],
    {
        self.cs[state].ts[sym]
    }
}

impl RegexColumn {
    /// A column whose every action rejects.
    pub fn new() -> (r: Self)
        ensures
            r.ts@ == empty_column(),
    {
        let r = RegexColumn { ts: [RegexAction { next: 0, offset: 0 }; REGEX_COLUMN_SIZE] };
        assert(r.ts@ =~= empty_column());
        r
    }

    pub fn literal(sym: usize, index: usize) -> (r: Self)
        requires
            sym < REGEX_COLUMN_SIZE,
            index < usize::MAX,
        ensures
            r.ts@ == empty_column().update(sym as int, advance_to(index + 1)),
    {
        let mut r = RegexColumn::new();
        r.ts[sym] = RegexAction { next: index + 1, offset: 1 };
        assert(r.ts@ =~= empty_column().update(sym as int, advance_to(index + 1)));
        r
    }

    pub fn wildcard(index: usize) -> (r: Self)
        requires
            index < usize::MAX,
        ensures
            r.ts@ == wildcard_column(index as int),
    {
        let mut r = RegexColumn::new();
        let mut k: usize = FIRST_PRINTABLE;
        while k <= LAST_PRINTABLE
            invariant
                FIRST_PRINTABLE <= k <= LAST_PRINTABLE + 1,
                index < usize::MAX,
                forall|j: int|
                    0 <= j < REGEX_COLUMN_SIZE ==> #[trigger] r.ts@[j] == if printable(j) && j
                        < k {
                        advance_to(index + 1)
                    } else {
                        reject()
                    },
            decreases LAST_PRINTABLE + 1 - k,
        {
            r.ts[k] = RegexAction { next: index + 1, offset: 1 };
            k += 1;
        }
        assert(r.ts@ =~= wildcard_column(index as int));
        r
    }

    pub fn end_anchor(index: usize) -> (r: Self)
        requires
            index < usize::MAX,
        ensures
            r.ts@ == end_column(index as int),
    {
        Self::literal(REGEX_END, index)
    }

    /// This column, as column `index`, under `*`.
    pub fn starred(&self, index: usize) -> (r: Self)
        requires
            index < usize::MAX,
        ensures
            r.ts@ == star_column(self.ts@, index as int),
    {
        let mut r = *self;
        let mut k: usize = 0;
        while k < REGEX_COLUMN_SIZE
            invariant
                index < usize::MAX,
                forall|j: int|
                    0 <= j < REGEX_COLUMN_SIZE ==> #[trigger] r.ts@[j] == if j < k {
                        star_action(self.ts@[j], index as int)
                    } else {
                        self.ts@[j]
                    },
            decreases REGEX_COLUMN_SIZE - k,
        {
            let a = r.ts[k];
            if a.next == index + 1 {
                r.ts[k] = RegexAction { next: index, offset: a.offset };
            } else if a.next == 0 {
                r.ts[k] = RegexAction { next: index + 1, offset: 0 };
            }
            k += 1;
        }
        assert(r.ts@ =~= star_column(self.ts@, index as int));
        r
    }

    /// A copy of this column, placed at `index`, under `+`.
    pub fn plussed(&self, index: usize) -> (r: Self)
        requires
            index < usize::MAX,
        ensures
            r.ts@ == plus_column(self.ts@, index as int),
    {
        let mut r = *self;
        let mut k: usize = 0;
        while k < REGEX_COLUMN_SIZE
            invariant
                index < usize::MAX,
                forall|j: int|
                    0 <= j < REGEX_COLUMN_SIZE ==> #[trigger] r.ts@[j] == if j < k {
                        plus_action(self.ts@[j], index as int)
                    } else {
                        self.ts@[j]
                    },
            decreases REGEX_COLUMN_SIZE - k,
        {
            if r.ts[k].next == 0 {
                r.ts[k] = RegexAction { next: index + 1, offset: 0 };
            }
            k += 1;
        }
        assert(r.ts@ =~= plus_column(self.ts@, index as int));
        r
    }
}

/// The characters of `s`, read as bytes when `s` is ASCII.
pub(crate) fn symbols_of(s: &str) -> (r: Vec<char>)
    ensures
        r@ == s@,
{
    let mut out: Vec<char> = Vec::new();
    if s.is_ascii() {
        let bytes = s.as_bytes();
        proof {
            broadcast use vstd::string::is_ascii_spec_bytes;
        }
        let mut i: usize = 0;
        while i < bytes.len()
            invariant
                0 <= i <= bytes@.len(),
                bytes@.len() == s@.len(),
                vstd::string::is_ascii(s),
                bytes@ == Seq::new(s@.len(), |j: int| s@[j] as u8),
                out@ == s@.take(i as int),
            decreases bytes@.len() - i,
        {
            let c = bytes[i] as char;
            out.push(c);
            i += 1;
            assert(out@ =~= s@.take(i as int));
        }
    } else {
        let n = s.unicode_len();
        let mut i: usize = 0;
        while i < n
            invariant
                0 <= i <= n,
                n == s@.len(),
                out@ == s@.take(i as int),
            decreases n - i,
        {
            out.push(s.get_char(i));
            i += 1;
            assert(out@ =~= s@.take(i as int));
        }
    }
    assert(out@ =~= s@);
    out
}

} // verus!
