//! The per-block symbol table: a mapping from declared name to the node
//! that declared it. Inserting an already-bound name silently replaces the
//! prior binding (last write wins); lookup returns the current binding.

use vstd::prelude::*;

use crate::ast::{ast_v, Ast, AstV};

verus! {

/// The mapping a sequence of (name, node) entries denotes: later entries
/// shadow earlier ones.
pub open spec fn entries_map(s: Seq<(String, Ast)>) -> Map<Seq<char>, AstV>
    decreases s,
{
    if s.len() == 0 {
        Map::empty()
    } else {
        entries_map(s.drop_last()).insert(s.last().0@, ast_v(s.last().1))
    }
}

/// A symbol table for one block. Its specification-level value is the
/// `Map` from names to declaring nodes.
#[derive(Debug, PartialEq, Eq)]
pub struct SymbolTable {
    pub entries: Vec<(String, Ast)>,
}

impl View for SymbolTable {
    type V = Map<Seq<char>, AstV>;

    open spec fn view(&self) -> Map<Seq<char>, AstV> {
        entries_map(self.entries@)
    }
}

/// A key is in the map an entry sequence denotes exactly when some entry
/// carries it.
proof fn lemma_entries_map_domain(s: Seq<(String, Ast)>, key: Seq<char>)
    ensures
        entries_map(s).contains_key(key) <==> exists|i: int|
            0 <= i < s.len() && #[trigger] s[i].0@ == key,
    decreases s.len(),
{
    if s.len() > 0 {
        lemma_entries_map_domain(s.drop_last(), key);
        let n = s.len() - 1;
        if s[n].0@ == key {
            assert(exists|i: int| 0 <= i < s.len() && #[trigger] s[i].0@ == key);
        } else {
            if entries_map(s).contains_key(key) {
                let i = choose|i: int| 0 <= i < n && #[trigger] s.drop_last()[i].0@ == key;
                assert(s[i].0@ == key);
            }
            if exists|i: int| 0 <= i < s.len() && #[trigger] s[i].0@ == key {
                let i = choose|i: int| 0 <= i < s.len() && #[trigger] s[i].0@ == key;
                assert(s.drop_last()[i].0@ == key);
            }
        }
    }
}

/// The value bound to an entry's key is the one of the last entry that
/// carries that key.
proof fn lemma_entries_map_at(s: Seq<(String, Ast)>, i: int)
    requires
        0 <= i < s.len(),
        forall|j: int| i < j < s.len() ==> (#[trigger] s[j]).0@ != s[i].0@,
    ensures
        entries_map(s).contains_key(s[i].0@),
        entries_map(s)[s[i].0@] == ast_v(s[i].1),
    decreases s.len(),
{
    let n = s.len() - 1;
    if i == n {
    } else {
        assert(s.drop_last()[i] == s[i]);
        assert(forall|j: int| i < j < n ==> (#[trigger] s.drop_last()[j]).0@ != s[i].0@);
        lemma_entries_map_at(s.drop_last(), i);
        assert(s[n].0@ != s[i].0@);
    }
}

impl Clone for SymbolTable {
    /// Cloning a table copies every entry; the copy denotes the same map.
    fn clone(&self) -> (r: Self)
        ensures
            r@ == self@,
        decreases self.entries@,
    {
        let mut entries: Vec<(String, Ast)> = Vec::new();
        let mut i: usize = 0;
        while i < self.entries.len()
            invariant
                0 <= i <= self.entries.len(),
                entries@.len() == i,
                forall|k: int| 0 <= k < i ==> (#[trigger] entries@[k]).0@ == self.entries@[k].0@
                    && ast_v(entries@[k].1) == ast_v(self.entries@[k].1),
            decreases self.entries.len() - i,
        {
            let name = self.entries[i].0.clone();
            let node = self.entries[i].1.clone();
            entries.push((name, node));
            i += 1;
        }
        proof {
            lemma_entries_map_congruence(entries@, self.entries@);
        }
        SymbolTable { entries }
    }
}

/// Two entry sequences whose names and node values agree pointwise denote
/// the same map.
proof fn lemma_entries_map_congruence(a: Seq<(String, Ast)>, b: Seq<(String, Ast)>)
    requires
        a.len() == b.len(),
        forall|k: int| 0 <= k < a.len() ==> (#[trigger] a[k]).0@ == b[k].0@ && ast_v(a[k].1)
            == ast_v(b[k].1),
    ensures
        entries_map(a) == entries_map(b),
    decreases a.len(),
{
    if a.len() > 0 {
        lemma_entries_map_congruence(a.drop_last(), b.drop_last());
        assert(entries_map(a) =~= entries_map(b));
    }
}

impl SymbolTable {
    /// Builds an empty symbol table.
    pub fn new() -> (r: Self)
        ensures
            r@ == Map::<Seq<char>, AstV>::empty(),
            r.entries@.len() == 0,
    {
        SymbolTable { entries: Vec::new() }
    }

    /// Binds `name` to `value`, replacing any earlier binding of the same
    /// name: last write wins.
    pub fn insert(&mut self, name: String, value: Ast)
        ensures
            final(self)@ == old(self)@.insert(name@, value@),
            final(self).entries@ == old(self).entries@.push((name, value)),
    {
        self.entries.push((name, value));
        proof {
            assert(self.entries@.drop_last() =~= old(self).entries@);
            assert(self.entries@.last() == (name, value));
        }
    }

    /// Looks the name up: the node currently bound to it, or `None` where
    /// the table does not bind it.
    pub fn get(&self, name: &str) -> (r: Option<&Ast>)
        ensures
            match r {
                Some(a) => self@.contains_key(name@) && a@ == self@[name@],
                None => !self@.contains_key(name@),
            },
    {
        let n = self.entries.len();
        let mut i: usize = n;
        loop
            invariant
                0 <= i <= n,
                n == self.entries@.len(),
                forall|j: int| i <= j < n ==> (#[trigger] self.entries@[j]).0@ != name@,
            ensures
                forall|j: int| 0 <= j < n ==> (#[trigger] self.entries@[j]).0@ != name@,
            decreases i,
        {
            if i == 0 {
                break;
            }
            i = i - 1;
            if crate::text::str_eq(self.entries[i].0.as_str(), name) {
                proof {
                    lemma_entries_map_at(self.entries@, i as int);
                }
                return Some(&self.entries[i].1);
            }
        }
        proof {
            lemma_entries_map_domain(self.entries@, name@);
            if self@.contains_key(name@) {
                let j = choose|j: int|
                    0 <= j < self.entries@.len() && #[trigger] self.entries@[j].0@ == name@;
                assert(self.entries@[j].0@ != name@);
            }
        }
        None
    }
}

} // verus!
