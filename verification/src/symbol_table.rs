//! The symbol table: fully qualified names resolved to node handles.

use vstd::prelude::*;
use vstd::hash_map::StringHashMap;
use vstd::string::*;
use crate::node::{NodeId, clone_strings, strings_view};

verus! {

/// A table from fully qualified names to the nodes that define them, with the
/// names each file exports.
pub struct SymbolTable {
    by_fqn: StringHashMap<NodeId>,
    exports_by_file: StringHashMap<Vec<String>>,
}

impl SymbolTable {
    /// The node each qualified name resolves to.
    pub closed spec fn table(&self) -> Map<Seq<char>, NodeId> {
        self.by_fqn@
    }

    /// The qualified names registered for `file`, in the order they came.
    pub closed spec fn exports(&self, file: Seq<char>) -> Seq<Seq<char>> {
        if self.exports_by_file@.contains_key(file) {
            strings_view(self.exports_by_file@[file]@)
        } else {
            Seq::empty()
        }
    }

    /// Whether any name was registered for `file`.
    pub closed spec fn has_exports(&self, file: Seq<char>) -> bool {
        self.exports_by_file@.contains_key(file)
    }

    /// A table that resolves no name.
    pub fn new() -> (out: SymbolTable)
        ensures
            out.table() == Map::<Seq<char>, NodeId>::empty(),
            forall|file: Seq<char>| !out.has_exports(file),
    {
        SymbolTable { by_fqn: StringHashMap::new(), exports_by_file: StringHashMap::new() }
    }

    /// Registers `fqn` as defined by node `id` in `file`. A name registered
    /// before now resolves to `id`.
    pub fn insert(&mut self, fqn: String, id: NodeId, file: &str)
        ensures
            final(self).table() == old(self).table().insert(fqn@, id),
            final(self).has_exports(file@),
            final(self).exports(file@) == old(self).exports(file@).push(fqn@),
            forall|other: Seq<char>| other != file@ ==> final(self).has_exports(other) == old(self).has_exports(other)
                && final(self).exports(other) == old(self).exports(other),
    {
        let mut names = match self.exports_by_file.get(file) {
            Some(list) => clone_strings(list),
            None => Vec::new(),
        };
        let ghost before = names@;
        assert(strings_view(before) =~= old(self).exports(file@));
        names.push(fqn.clone());
        assert(strings_view(names@) =~= strings_view(before).push(fqn@));
        self.exports_by_file.insert(String::from_str(file), names);
        self.by_fqn.insert(fqn, id);
    }

    /// The node that `fqn` resolves to.
    pub fn resolve(&self, fqn: &str) -> (out: Option<NodeId>)
        ensures
            out == (if self.table().contains_key(fqn@) {
                Some(self.table()[fqn@])
            } else {
                None
            }),
    {
        match self.by_fqn.get(fqn) {
            Some(id) => Some(*id),
            None => None,
        }
    }

    /// The qualified names registered for `file`.
    pub fn get_file_exports(&self, file: &str) -> (out: Option<&Vec<String>>)
        ensures
            out.is_some() == self.has_exports(file@),
            out.is_some() ==> strings_view(out.unwrap()@) == self.exports(file@),
    {
        self.exports_by_file.get(file)
    }

    /// Forgets `fqn` if it resolves to `id`; otherwise the table stays as it is.
    pub fn forget(&mut self, fqn: &str, id: NodeId)
        ensures
            final(self).table() == (if old(self).table().contains_key(fqn@) && old(self).table()[fqn@] == id {
                old(self).table().remove(fqn@)
            } else {
                old(self).table()
            }),
            forall|file: Seq<char>| final(self).has_exports(file) == old(self).has_exports(file)
                && final(self).exports(file) == old(self).exports(file),
    {
        let hit = match self.by_fqn.get(fqn) {
            Some(found) => found.raw == id.raw,
            None => false,
        };
        if hit {
            self.by_fqn.remove(fqn);
        }
    }

    /// Forgets the names registered for `file`. What they resolve to stays.
    pub fn forget_file(&mut self, file: &str)
        ensures
            final(self).table() == old(self).table(),
            !final(self).has_exports(file@),
            forall|other: Seq<char>| other != file@ ==> final(self).has_exports(other) == old(self).has_exports(other)
                && final(self).exports(other) == old(self).exports(other),
    {
        self.exports_by_file.remove(file);
    }

    /// Empties the table.
    pub fn clear(&mut self)
        ensures
            final(self).table() == Map::<Seq<char>, NodeId>::empty(),
            forall|file: Seq<char>| !final(self).has_exports(file),
    {
        self.by_fqn.clear();
        self.exports_by_file.clear();
    }
}

} // verus!
