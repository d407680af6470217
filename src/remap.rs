//! Cross-references two rigs by bone name into a bone-index remap table.
use vstd::prelude::*;
use crate::rig::{Borg, last_index, MAX_BONES};

verus! {

/// Where the source bone `i` goes in the target rig: the target index of its
/// name, for the bone that the source lookup holds under that name.
pub open spec fn remap_entry(from: Seq<Seq<char>>, to: Seq<Seq<char>>, i: int) -> Option<int> {
    if 0 <= i < from.len() && last_index(from, from[i]) == Some(i) {
        last_index(to, from[i])
    } else {
        None
    }
}

/// The whole remap table between rigs with the names `from` and `to`.
pub open spec fn remap_table(from: Seq<Seq<char>>, to: Seq<Seq<char>>) -> Seq<Option<u8>> {
    Seq::new(
        256,
        |i: int|
            match remap_entry(from, to, i) {
                Some(j) => Some(j as u8),
                None => None,
            },
    )
}

/// A name's last index lies inside the table.
pub proof fn lemma_last_index_bounds(names: Seq<Seq<char>>, name: Seq<char>)
    ensures
        last_index(names, name) matches Some(k) ==> 0 <= k < names.len() && names[k] == name,
    decreases names.len(),
{
    if names.len() > 0 && names.last() != name {
        lemma_last_index_bounds(names.drop_last(), name);
    }
}

/// An optional byte as an optional number.
pub open spec fn opt_index(o: Option<u8>) -> Option<int> {
    match o {
        Some(k) => Some(k as int),
        None => None,
    }
}

/// A table from every source bone index to its target bone index, if any.
pub struct BoneRemap {
    pub table: Vec<Option<u8>>,
}

impl BoneRemap {
    /// One entry per possible byte.
    pub open spec fn wf(&self) -> bool {
        self.table@.len() == 256
    }

    /// The target index of source bone `i`.
    pub open spec fn spec_get(&self, i: int) -> Option<int> {
        opt_index(self.table@[i])
    }

    /// Maps each bone of `from` whose name `to` also has onto that bone of `to`.
    pub fn between(from: &Borg, to: &Borg) -> (r: BoneRemap)
        requires
            from.wf(),
            to.wf(),
        ensures
            r.wf(),
            forall|i: int| 0 <= i < 256 ==> #[trigger] r.spec_get(i) == remap_entry(from.names(), to.names(), i),
            r.table@ == remap_table(from.names(), to.names()),
    {
        let mut table: Vec<Option<u8>> = Vec::new();
        let mut k: usize = 0;
        while k < 256
            invariant
                k <= 256,
                table@.len() == k,
                forall|j: int| 0 <= j < k ==> table@[j] is None,
            decreases 256 - k,
        {
            table.push(None);
            k = k + 1;
        }
        let mut i: usize = 0;
        while i < from.bones.len()
            invariant
                from.wf(),
                to.wf(),
                i <= from.bones@.len() <= MAX_BONES,
                table@.len() == 256,
                forall|j: int| 0 <= j < i ==> opt_index(#[trigger] table@[j]) == remap_entry(from.names(), to.names(), j),
                forall|j: int| i <= j < 256 ==> #[trigger] table@[j] is None,
            decreases from.bones@.len() - i,
        {
            let name = &from.bones[i];
            match from.index_of(name) {
                Some(own) => {
                    if own as usize == i {
                        let target = to.index_of(name);
                        table.set(i, target);
                    }
                },
                None => {},
            }
            i = i + 1;
        }
        proof {
            assert forall|i: int| 0 <= i < 256 implies table@[i] == remap_table(from.names(), to.names())[i] by {
                if 0 <= i < from.names().len() {
                    lemma_last_index_bounds(to.names(), from.names()[i]);
                }
                assert(opt_index(table@[i]) == remap_entry(from.names(), to.names(), i));
            }
            assert(table@ =~= remap_table(from.names(), to.names()));
        }
        BoneRemap { table }
    }

    /// The target index of source bone `joint`.
    pub fn get(&self, joint: u8) -> (r: Option<u8>)
        requires
            self.wf(),
        ensures
            opt_index(r) == self.spec_get(joint as int),
    {
        self.table[joint as usize]
    }
}

} // verus!
