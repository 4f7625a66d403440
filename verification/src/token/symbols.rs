//! The symbols that the tokenizer knows, and the order in which it tries them.

use vstd::prelude::*;

verus! {

/// The symbols of the language, the longer ones first.
pub open spec fn symbols() -> Seq<Seq<char>> {
    seq![
        "/*"@,
        "*/"@,
        "//"@,
        "+="@,
        "-="@,
        "*="@,
        "/="@,
        "<="@,
        ">="@,
        ";"@,
        "#"@,
        ":"@,
        ","@,
        "("@,
        ")"@,
        "["@,
        "]"@,
        "/"@,
        "*"@,
        "&"@,
        "+"@,
        "-"@,
        "<"@,
        ">"@,
    ]
}

/// The first entry of `table` that `s` starts with, if there is one.
pub open spec fn munch(table: Seq<Seq<char>>, s: Seq<char>) -> Option<Seq<char>>
    decreases table.len(),
{
    if table.len() == 0 {
        None
    } else if table[0].is_prefix_of(s) {
        Some(table[0])
    } else {
        munch(table.drop_first(), s)
    }
}

/// Whether no entry of `table` is empty and none is longer than an entry
/// before it.
pub open spec fn longest_first(table: Seq<Seq<char>>) -> bool {
    &&& forall|i: int| 0 <= i < table.len() ==> (#[trigger] table[i]).len() > 0
    &&& forall|i: int, j: int|
        0 <= i <= j < table.len() ==> (#[trigger] table[i]).len() >= (#[trigger] table[j]).len()
}

/// The table of symbols holds no empty symbol and is ordered longest first.
pub proof fn lemma_symbols_longest_first()
    ensures
        longest_first(symbols()),
{
    reveal_strlit("/*");
    reveal_strlit("*/");
    reveal_strlit("//");
    reveal_strlit("+=");
    reveal_strlit("-=");
    reveal_strlit("*=");
    reveal_strlit("/=");
    reveal_strlit("<=");
    reveal_strlit(">=");
    reveal_strlit(";");
    reveal_strlit("#");
    reveal_strlit(":");
    reveal_strlit(",");
    reveal_strlit("(");
    reveal_strlit(")");
    reveal_strlit("[");
    reveal_strlit("]");
    reveal_strlit("/");
    reveal_strlit("*");
    reveal_strlit("&");
    reveal_strlit("+");
    reveal_strlit("-");
    reveal_strlit("<");
    reveal_strlit(">");
    let table = symbols();
    assert(table.len() == 24);
    assert forall|i: int| 0 <= i < table.len() implies (#[trigger] table[i]).len() == (if i < 9 {
        2nat
    } else {
        1nat
    }) by {
        if i == 0 {
        } else if i == 1 {
        } else if i == 2 {
        } else if i == 3 {
        } else if i == 4 {
        } else if i == 5 {
        } else if i == 6 {
        } else if i == 7 {
        } else if i == 8 {
        } else if i == 9 {
        } else if i == 10 {
        } else if i == 11 {
        } else if i == 12 {
        } else if i == 13 {
        } else if i == 14 {
        } else if i == 15 {
        } else if i == 16 {
        } else if i == 17 {
        } else if i == 18 {
        } else if i == 19 {
        } else if i == 20 {
        } else if i == 21 {
        } else if i == 22 {
        } else {
        }
    }
}

/// What `munch` finds is an entry of the table that `s` starts with.
pub proof fn lemma_munch_found(table: Seq<Seq<char>>, s: Seq<char>)
    ensures
        munch(table, s) matches Some(t) ==> table.contains(t) && t.is_prefix_of(s),
        munch(table, s) is None ==> forall|i: int|
            0 <= i < table.len() ==> !(#[trigger] table[i]).is_prefix_of(s),
    decreases table.len(),
{
    if table.len() > 0 && !table[0].is_prefix_of(s) {
        let rest = table.drop_first();
        lemma_munch_found(rest, s);
        if munch(rest, s) is Some {
            let t = munch(rest, s)->0;
            let i = choose|i: int| 0 <= i < rest.len() && rest[i] == t;
            assert(table[i + 1] == t);
        } else {
            assert forall|i: int| 0 <= i < table.len() implies !(#[trigger] table[i]).is_prefix_of(
                s,
            ) by {
                if i > 0 {
                    assert(table[i] == rest[i - 1]);
                }
            }
        }
    }
}

/// Maximal munch: in a table ordered longest first, no entry that `s` starts
/// with is longer than the one that `munch` finds, and `munch` finds one
/// whenever `s` starts with any.
pub proof fn lemma_munch_is_maximal(table: Seq<Seq<char>>, s: Seq<char>, other: Seq<char>)
    requires
        longest_first(table),
        table.contains(other),
        other.is_prefix_of(s),
    ensures
        munch(table, s) matches Some(t) && t.len() >= other.len(),
    decreases table.len(),
{
    let i = choose|i: int| 0 <= i < table.len() && table[i] == other;
    if !table[0].is_prefix_of(s) {
        let rest = table.drop_first();
        assert(rest[i - 1] == other);
        assert forall|a: int, b: int| 0 <= a <= b < rest.len() implies (#[trigger] rest[a]).len() >= (
        #[trigger] rest[b]).len() by {
            assert(rest[a] == table[a + 1]);
            assert(rest[b] == table[b + 1]);
        }
        assert forall|a: int| 0 <= a < rest.len() implies (#[trigger] rest[a]).len() > 0 by {
            assert(rest[a] == table[a + 1]);
        }
        lemma_munch_is_maximal(rest, s, other);
    }
}

/// The table of symbols, ready to be walked by the tokenizer.
pub struct SymbolTable {
    entries: Vec<&'static str>,
}

impl View for SymbolTable {
    type V = Seq<Seq<char>>;

    /// The symbols of the table, in the order in which they are tried.
    closed spec fn view(&self) -> Seq<Seq<char>> {
        Seq::new(self.entries.len() as nat, |i: int| self.entries[i]@)
    }
}

impl SymbolTable {
    #[verifier::type_invariant]
    spec fn well_formed(&self) -> bool {
        self@ == symbols()
    }

    /// Builds the table, the longer symbols first, so that `+=` is tried
    /// before `+`.
    pub fn new() -> (table: SymbolTable)
        ensures
            table@ == symbols(),
    {
        let entries = vec![
            "/*",
            "*/",
            "//",
            "+=",
            "-=",
            "*=",
            "/=",
            "<=",
            ">=",
            ";",
            "#",
            ":",
            ",",
            "(",
            ")",
            "[",
            "]",
            "/",
            "*",
            "&",
            "+",
            "-",
            "<",
            ">",
        ];
        assert(Seq::new(entries.len() as nat, |i: int| entries[i]@) =~= symbols());
        SymbolTable { entries }
    }

    /// The number of symbols.
    pub fn len(&self) -> (n: usize)
        ensures
            n == symbols().len(),
    {
        proof {
            use_type_invariant(self);
        }
        self.entries.len()
    }

    /// The symbol at place `i` of the table.
    pub fn get(&self, i: usize) -> (symbol: &'static str)
        requires
            i < symbols().len(),
        ensures
            symbol@ == symbols()[i as int],
    {
        proof {
            use_type_invariant(self);
        }
        self.entries[i]
    }
}

} // verus!
