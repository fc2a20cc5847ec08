use crate::utils::text::{push_signed, signed_decimal};
use vstd::prelude::*;
use vstd::string::StringExecFns;

verus! {

/// What a symbol names: an atomic action or an individual.
#[derive(Debug, Clone, Copy, PartialEq, Eq, Hash, Structural)]
pub enum SymbolType {
    Action,
    Individual,
}

impl SymbolType {
    /// The lower-case name of the kind.
    pub open spec fn spec_name(self) -> Seq<char> {
        match self {
            SymbolType::Action => "action"@,
            SymbolType::Individual => "individual"@,
        }
    }

    pub fn name(&self) -> (s: &'static str)
        ensures
            s@ == self.spec_name(),
    {
        match self {
            SymbolType::Action => "action",
            SymbolType::Individual => "individual",
        }
    }
}

/// One entry of the symbol table.
#[derive(Debug, PartialEq, Eq, Hash)]
pub struct Symbol {
    pub id: i32,
    pub value: String,
    pub symbol_type: SymbolType,
}

impl Clone for Symbol {
    fn clone(&self) -> (res: Self)
        ensures
            res == *self,
    {
        Symbol { id: self.id, value: self.value.clone(), symbol_type: self.symbol_type }
    }
}

impl SymbolType {
    /// The name of the kind, with blanks before it up to a width of ten.
    pub open spec fn spec_padded_name(self) -> Seq<char> {
        match self {
            SymbolType::Action => "    action"@,
            SymbolType::Individual => "individual"@,
        }
    }

    pub fn padded_name(&self) -> (s: &'static str)
        ensures
            s@ == self.spec_padded_name(),
    {
        match self {
            SymbolType::Action => "    action",
            SymbolType::Individual => "individual",
        }
    }
}

impl Symbol {
    /// `id | text | kind` and a line end.
    pub open spec fn spec_display(&self) -> Seq<char> {
        signed_decimal(self.id as int) + " | "@ + self.value@ + " | "@ + self.symbol_type.spec_name()
            + "\n"@
    }

    pub fn display(&self) -> (s: String)
        ensures
            s@ == self.spec_display(),
    {
        let mut out = String::new();
        push_signed(&mut out, self.id as i64);
        out.append(" | ");
        out.append(self.value.as_str());
        out.append(" | ");
        out.append(self.symbol_type.name());
        out.append("\n");
        proof {
            assert(out@ =~= self.spec_display());
        }
        out
    }

    /// `(id)  kind  text` and a line end, the kind in a column of ten.
    pub open spec fn spec_table_row(&self) -> Seq<char> {
        "("@ + signed_decimal(self.id as int) + ")  "@ + self.symbol_type.spec_padded_name() + "  "@
            + self.value@ + "\n"@
    }

    fn push_table_row(&self, out: &mut String)
        ensures
            final(out)@ == old(out)@ + self.spec_table_row(),
    {
        out.append("(");
        push_signed(out, self.id as i64);
        out.append(")  ");
        out.append(self.symbol_type.padded_name());
        out.append("  ");
        out.append(self.value.as_str());
        out.append("\n");
        proof {
            assert(out@ =~= old(out)@ + self.spec_table_row());
        }
    }

    pub fn new(id: i32, value: String, symbol_type: SymbolType) -> (s: Self)
        ensures
            s.id == id,
            s.value == value,
            s.symbol_type == symbol_type,
    {
        Symbol { id, value, symbol_type }
    }

    pub fn id(&self) -> (r: i32)
        ensures
            r == self.id,
    {
        self.id
    }

    pub fn value(&self) -> (r: &str)
        ensures
            r@ == self.value@,
    {
        self.value.as_str()
    }

    pub fn symbol_type(&self) -> (r: SymbolType)
        ensures
            r == self.symbol_type,
    {
        self.symbol_type
    }
}

/// The largest number of symbols a table holds: identifiers are positive `i32` values.
pub const SYMBOL_CAPACITY: usize = 0x7fff_ffff;

/// Source identifiers and their stable positive integer ids.
///
/// The k-th symbol added (counting from zero) has id `k + 1`, and no two entries
/// share both their text and their kind.
#[derive(Debug)]
pub struct SymbolTable {
    dictionary: Vec<Symbol>,
}

impl SymbolTable {
    /// Ids follow positions, keys are unique and the table is within its capacity.
    pub closed spec fn well_formed(&self) -> bool {
        &&& self.dictionary.len() <= SYMBOL_CAPACITY
        &&& forall|k: int|
            0 <= k < self.dictionary.len() ==> (#[trigger] self.dictionary[k]).id == k + 1
        &&& forall|j: int, k: int|
            0 <= j < k < self.dictionary.len() ==> !Self::same_key(
                #[trigger] self.dictionary[j],
                #[trigger] self.dictionary[k],
            )
    }

    spec fn same_key(a: Symbol, b: Symbol) -> bool {
        a.value@ == b.value@ && a.symbol_type == b.symbol_type
    }

    /// The entries in the order in which they were added.
    pub closed spec fn entries(&self) -> Seq<Symbol> {
        self.dictionary@
    }

    /// The position of the entry with the given text and kind, if there is one.
    pub open spec fn position_of(&self, value: Seq<char>, symbol_type: SymbolType) -> Option<int> {
        if exists|k: int| self.holds_at(k, value, symbol_type) {
            Some(choose|k: int| self.holds_at(k, value, symbol_type))
        } else {
            None
        }
    }

    pub open spec fn holds_at(&self, k: int, value: Seq<char>, symbol_type: SymbolType) -> bool {
        &&& 0 <= k < self.entries().len()
        &&& self.entries()[k].value@ == value
        &&& self.entries()[k].symbol_type == symbol_type
    }

    /// The text and the kind of each entry.
    pub open spec fn keys(&self) -> Seq<(Seq<char>, SymbolType)> {
        self.entries().map_values(|s: Symbol| (s.value@, s.symbol_type))
    }

    /// What adding a symbol comes to: the keys afterwards and the id of the symbol.
    pub open spec fn spec_add(keys: Seq<(Seq<char>, SymbolType)>, key: (Seq<char>, SymbolType)) -> (
        Seq<(Seq<char>, SymbolType)>,
        int,
    ) {
        if keys.contains(key) {
            (keys, keys.index_of(key) + 1)
        } else {
            (keys.push(key), keys.len() as int + 1)
        }
    }

    /// The entry with the given id: ids count the entries from one.
    pub open spec fn spec_symbol_by_id(&self, id: int) -> Option<Symbol> {
        if 1 <= id <= self.entries().len() {
            Some(self.entries()[id - 1])
        } else {
            None
        }
    }

    /// The text of the symbol with the given id, or `fallback` where there is none.
    pub open spec fn name_or(&self, id: int, fallback: Seq<char>) -> Seq<char> {
        match self.spec_symbol_by_id(id) {
            Some(s) => s.value@,
            None => fallback,
        }
    }

    /// The rows of the first `n` entries.
    pub open spec fn rows(entries: Seq<Symbol>, n: nat) -> Seq<char>
        decreases n,
    {
        if n == 0 {
            Seq::empty()
        } else {
            Self::rows(entries, (n - 1) as nat) + entries[n - 1].spec_table_row()
        }
    }

    /// A title and a row for each entry.
    pub open spec fn spec_display(&self) -> Seq<char> {
        "Table of Symbols\n"@ + Self::rows(self.entries(), self.entries().len())
    }

    pub fn display(&self) -> (s: String)
        ensures
            s@ == self.spec_display(),
    {
        let mut out = String::from_str("Table of Symbols\n");
        let ghost head = out@;
        proof {
            assert(out@ =~= head + Seq::<char>::empty());
        }
        let mut i: usize = 0;
        while i < self.dictionary.len()
            invariant
                i <= self.dictionary.len(),
                out@ == head + Self::rows(self.dictionary@, i as nat),
            decreases self.dictionary.len() - i,
        {
            let ghost before = Self::rows(self.dictionary@, i as nat);
            self.dictionary[i].push_table_row(&mut out);
            proof {
                assert(out@ =~= head + (before + self.dictionary@[i as int].spec_table_row()));
            }
            i += 1;
        }
        out
    }

    pub fn new() -> (t: Self)
        ensures
            t.well_formed(),
            t.entries().len() == 0,
    {
        SymbolTable { dictionary: Vec::new() }
    }

    fn find(&self, value: &String, symbol_type: SymbolType) -> (r: Option<usize>)
        ensures
            match r {
                Some(k) => self.holds_at(k as int, value@, symbol_type),
                None => forall|k: int| !self.holds_at(k, value@, symbol_type),
            },
    {
        let mut i: usize = 0;
        while i < self.dictionary.len()
            invariant
                i <= self.dictionary.len(),
                forall|k: int| 0 <= k < i ==> !self.holds_at(k, value@, symbol_type),
            decreases self.dictionary.len() - i,
        {
            if self.dictionary[i].symbol_type == symbol_type && self.dictionary[i].value == *value {
                return Some(i);
            }
            i += 1;
        }
        None
    }

    /// Returns the id of the symbol with this text and kind, adding it first where the
    /// table does not hold it yet.
    pub fn add_symbol(&mut self, value: String, symbol_type: SymbolType) -> (id: i32)
        requires
            old(self).well_formed(),
            old(self).entries().len() < SYMBOL_CAPACITY,
        ensures
            final(self).well_formed(),
            (final(self).keys(), id as int) == Self::spec_add(old(self).keys(), (value@, symbol_type)),
            match old(self).position_of(value@, symbol_type) {
                Some(k) => id == k + 1 && final(self).entries() == old(self).entries(),
                None => {
                    &&& id == old(self).entries().len() + 1
                    &&& final(self).entries().len() == old(self).entries().len() + 1
                    &&& final(self).entries().subrange(0, old(self).entries().len() as int)
                        == old(self).entries()
                    &&& final(self).entries().last().id == id
                    &&& final(self).entries().last().value@ == value@
                    &&& final(self).entries().last().symbol_type == symbol_type
                },
            },
    {
        let ghost key = (value@, symbol_type);
        let ghost keys = self.keys();
        match self.find(&value, symbol_type) {
            Some(k) => {
                proof {
                    assert(keys[k as int] == key);
                    assert(keys.contains(key));
                    let at = keys.index_of(key);
                    assert(0 <= at < keys.len() && keys[at] == key);
                    assert(self.holds_at(at, value@, symbol_type));
                    if at < k {
                        assert(!Self::same_key(self.dictionary[at], self.dictionary[k as int]));
                    } else if k < at {
                        assert(!Self::same_key(self.dictionary[k as int], self.dictionary[at]));
                    }
                }
                proof {
                    let c = choose|c: int| self.holds_at(c, value@, symbol_type);
                    assert(self.holds_at(k as int, value@, symbol_type));
                    if c < k {
                        assert(!Self::same_key(self.dictionary[c], self.dictionary[k as int]));
                    } else if k < c {
                        assert(!Self::same_key(self.dictionary[k as int], self.dictionary[c]));
                    }
                }
                (k + 1) as i32
            },
            None => {
                let id = (self.dictionary.len() + 1) as i32;
                let ghost before = self.dictionary@;
                proof {
                    if keys.contains(key) {
                        let at = choose|at: int| 0 <= at < keys.len() && keys[at] == key;
                        assert(self.holds_at(at, value@, symbol_type));
                    }
                }
                self.dictionary.push(Symbol { id, value, symbol_type });
                proof {
                    assert(self.keys() =~= keys.push(key));
                    assert(self.dictionary@.subrange(0, before.len() as int) =~= before);
                    assert forall|j: int, k: int| 0 <= j < k < self.dictionary.len() implies !Self::same_key(
                        #[trigger] self.dictionary[j],
                        #[trigger] self.dictionary[k],
                    ) by {
                        if k == before.len() {
                            assert(!old(self).holds_at(j, value@, symbol_type));
                        }
                    }
                }
                id
            },
        }
    }

    pub fn get_symbol_by_id(&self, id: i32) -> (r: Option<&Symbol>)
        requires
            self.well_formed(),
        ensures
            match r {
                Some(s) => self.spec_symbol_by_id(id as int) == Some(*s),
                None => self.spec_symbol_by_id(id as int).is_none(),
            },
    {
        if 1 <= id && (id as usize) <= self.dictionary.len() {
            Some(&self.dictionary[(id - 1) as usize])
        } else {
            None
        }
    }

    pub fn get_dictionary(&self) -> (r: &Vec<Symbol>)
        ensures
            r@ == self.entries(),
    {
        &self.dictionary
    }

    /// The entries of one kind, in table order.
    pub open spec fn entries_of(&self, symbol_type: SymbolType) -> Seq<Symbol> {
        self.entries().filter(|s: Symbol| s.symbol_type == symbol_type)
    }

    fn select(&self, symbol_type: SymbolType) -> (r: Vec<&Symbol>)
        ensures
            r@.map_values(|s: &Symbol| *s) == self.entries_of(symbol_type),
    {
        let mut out: Vec<&Symbol> = Vec::new();
        let mut i: usize = 0;
        let ghost pred = |s: Symbol| s.symbol_type == symbol_type;
        while i < self.dictionary.len()
            invariant
                i <= self.dictionary.len(),
                pred == |s: Symbol| s.symbol_type == symbol_type,
                out@.map_values(|s: &Symbol| *s) == self.dictionary@.take(i as int).filter(pred),
            decreases self.dictionary.len() - i,
        {
            let ghost prev = out@.map_values(|s: &Symbol| *s);
            proof {
                let t0 = self.dictionary@.take(i as int);
                let t1 = self.dictionary@.take(i + 1);
                assert(t1.drop_last() =~= t0);
                assert(t1.last() == self.dictionary@[i as int]);
                reveal(Seq::filter);
            }
            if self.dictionary[i].symbol_type == symbol_type {
                out.push(&self.dictionary[i]);
                proof {
                    assert(out@.map_values(|s: &Symbol| *s) =~= prev.push(self.dictionary@[i as int]));
                }
            }
            i += 1;
        }
        proof {
            assert(self.dictionary@.take(i as int) =~= self.dictionary@);
        }
        out
    }

    pub fn get_actions(&self) -> (r: Vec<&Symbol>)
        ensures
            r@.map_values(|s: &Symbol| *s) == self.entries_of(SymbolType::Action),
    {
        self.select(SymbolType::Action)
    }

    pub fn get_individuals(&self) -> (r: Vec<&Symbol>)
        ensures
            r@.map_values(|s: &Symbol| *s) == self.entries_of(SymbolType::Individual),
    {
        self.select(SymbolType::Individual)
    }

    pub fn clear(&mut self)
        ensures
            final(self).well_formed(),
            final(self).entries().len() == 0,
    {
        self.dictionary.clear();
    }

    pub fn len(&self) -> (n: usize)
        ensures
            n == self.entries().len(),
    {
        self.dictionary.len()
    }

    pub fn is_empty(&self) -> (b: bool)
        ensures
            b == (self.entries().len() == 0),
    {
        self.dictionary.len() == 0
    }
}

impl Default for SymbolTable {
    fn default() -> (t: Self)
        ensures
            t.well_formed(),
            t.entries().len() == 0,
    {
        SymbolTable::new()
    }
}

} // verus!
