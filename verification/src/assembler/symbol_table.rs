//! The symbol table: from the names of labels and variables to their
//! addresses.

use vstd::hash_map::StringHashMap;
use vstd::prelude::*;

verus! {

/// A table from symbols to 16-bit addresses, in which each symbol occurs at
/// most once.
pub struct SymbolTable(StringHashMap<u16>);

impl View for SymbolTable {
    type V = Map<Seq<char>, u16>;

    closed spec fn view(&self) -> Map<Seq<char>, u16> {
        self.0@
    }
}

impl SymbolTable {
    /// A table without symbols.
    pub fn new() -> (table: SymbolTable)
        ensures
            table@ == Map::<Seq<char>, u16>::empty(),
    {
        SymbolTable(StringHashMap::new())
    }

    /// Whether the table holds `key`.
    pub fn contains(&self, key: &str) -> (found: bool)
        ensures
            found == self@.contains_key(key@),
    {
        self.0.contains_key(key)
    }

    /// The address of `key`, which the table holds.
    pub fn get_address(&self, key: &str) -> (address: u16)
        requires
            self@.contains_key(key@),
        ensures
            address == self@[key@],
    {
        match self.0.get(key) {
            Some(address) => *address,
            None => 0,
        }
    }

    /// Gives `key` the address `value`, in place of the one it had if the
    /// table held it already.
    pub fn add_entry(&mut self, key: &str, value: u16)
        ensures
            final(self)@ == old(self)@.insert(key@, value),
    {
        self.0.insert(String::from_str(key), value);
    }
}

} // verus!
