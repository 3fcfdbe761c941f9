//! What the component registry knows of each component, held as plain data.
use vstd::prelude::*;
use crate::text::{str_eq, strs_view};

verus! {

/// The registry's definition of one component.
#[derive(Debug)]
pub struct CatalogEntry {
    /// Registered component id, e.g. `"dht"`.
    pub id: String,
    /// Platform children a family component accepts (e.g. `"dht"` for `"sensor"`).
    pub child_components: Vec<String>,
    /// Components loaded automatically with this one.
    pub auto_load: Vec<String>,
    /// Components this one requires.
    pub dependencies: Vec<String>,
    /// Components this one cannot be combined with.
    pub conflicts_with: Vec<String>,
    /// The exclusive group the component belongs to, if any.
    pub exclusive_group: Option<String>,
    /// Config fields that must not hold plaintext secrets.
    pub secret_fields: Vec<String>,
}

/// The registry's components, looked up by id (first entry wins).
#[derive(Debug)]
pub struct ComponentCatalog {
    pub entries: Vec<CatalogEntry>,
}

/// Index of the first entry with id `id`, or the length.
pub open spec fn entry_index(es: Seq<CatalogEntry>, id: Seq<char>) -> int
    decreases es.len(),
{
    if es.len() == 0 {
        0
    } else if es[0].id@ == id {
        0
    } else {
        1 + entry_index(es.drop_first(), id)
    }
}

/// The entry registered under `id`, if any.
pub open spec fn catalog_get(es: Seq<CatalogEntry>, id: Seq<char>) -> Option<CatalogEntry> {
    let i = entry_index(es, id);
    if 0 <= i < es.len() {
        Some(es[i])
    } else {
        None
    }
}

/// Facts about `entry_index`.
pub proof fn lemma_entry_index(es: Seq<CatalogEntry>, id: Seq<char>)
    ensures
        0 <= entry_index(es, id) <= es.len(),
        entry_index(es, id) < es.len() ==> es[entry_index(es, id)].id@ == id,
        forall|j: int| 0 <= j < entry_index(es, id) ==> es[j].id@ != id,
    decreases es.len(),
{
    if es.len() > 0 && es[0].id@ != id {
        lemma_entry_index(es.drop_first(), id);
        assert forall|j: int| 0 <= j < entry_index(es, id) implies es[j].id@ != id by {
            if j > 0 {
                assert(es[j] == es.drop_first()[j - 1]);
            }
        }
    }
}

/// A first position with id `id` (or the length when none has it) is `entry_index`.
pub proof fn lemma_entry_index_unique(es: Seq<CatalogEntry>, id: Seq<char>, r: int)
    requires
        0 <= r <= es.len(),
        r < es.len() ==> es[r].id@ == id,
        forall|j: int| 0 <= j < r ==> es[j].id@ != id,
    ensures
        entry_index(es, id) == r,
{
    lemma_entry_index(es, id);
    let p = entry_index(es, id);
    if p < r {
        assert(es[p].id@ != id);
    } else if r < p {
        assert(es[r].id@ == id);
    }
}

/// `true` when `s` occurs in `v`.
pub fn contains_str(v: &Vec<String>, s: &str) -> (r: bool)
    ensures
        r == strs_view(v@).contains(s@),
{
    let ghost w = strs_view(v@);
    let mut i: usize = 0;
    while i < v.len()
        invariant
            i <= v@.len(),
            w == strs_view(v@),
            forall|j: int| 0 <= j < i ==> w[j] != s@,
        decreases v@.len() - i,
    {
        if str_eq(v[i].as_str(), s) {
            proof {
                assert(w[i as int] == s@);
            }
            return true;
        }
        i = i + 1;
    }
    false
}

impl ComponentCatalog {
    /// The entry registered under `id`.
    pub fn get(&self, id: &str) -> (r: Option<&CatalogEntry>)
        ensures
            match r {
                Some(e) => catalog_get(self.entries@, id@) == Some(*e),
                None => catalog_get(self.entries@, id@) is None,
            },
    {
        let mut i: usize = 0;
        while i < self.entries.len()
            invariant
                i <= self.entries@.len(),
                forall|j: int| 0 <= j < i ==> self.entries@[j].id@ != id@,
            decreases self.entries@.len() - i,
        {
            if str_eq(self.entries[i].id.as_str(), id) {
                proof {
                    lemma_entry_index_unique(self.entries@, id@, i as int);
                }
                return Some(&self.entries[i]);
            }
            i = i + 1;
        }
        proof {
            lemma_entry_index_unique(self.entries@, id@, i as int);
        }
        None
    }
}

} // verus!
