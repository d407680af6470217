//! The conversion itself: remapping a model asset from a source rig to a
//! target rig, and the choice between a command-line and an interactive run.
use vstd::prelude::*;
use crate::model::{Prim, WEIGHTED_ASSET_FLAG};
use crate::patch::{
    all_joint_positions, lemma_patch_identity, lemma_patch_meshes_flat, lemma_positions_in,
    patch_meshes,
};
use crate::remap::{BoneRemap, lemma_last_index_bounds, remap_table};
use crate::rig::{Borg, last_index};

verus! {

/// Why a model could not be remapped.
#[derive(Debug, Clone, Copy, PartialEq, Eq, Structural)]
pub enum ReboneError {
    /// The asset is not flagged as weighted.
    NotWeightedAsset,
    /// A vertex is bound to this source bone, which the target rig lacks.
    UnmappedBone(u8),
}

/// Remaps every joint index of `prim` from the bones of `from` to the
/// same-named bones of `to`: the patched bytes and the number of joints that
/// changed. No bytes are handed back on failure.
pub fn remap_model(from: &Borg, to: &Borg, prim: &Prim) -> (r: Result<(Vec<u8>, u128), ReboneError>)
    requires
        from.wf(),
        to.wf(),
        prim.wf(),
    ensures
        prim.property_flags & WEIGHTED_ASSET_FLAG != WEIGHTED_ASSET_FLAG ==> r == Err::<(Vec<u8>, u128), ReboneError>(
            ReboneError::NotWeightedAsset,
        ),
        prim.property_flags & WEIGHTED_ASSET_FLAG == WEIGHTED_ASSET_FLAG ==> match (
            r,
            patch_meshes(prim.buffer@, prim.mesh@, remap_table(from.names(), to.names())),
        ) {
            (Ok((b, c)), Ok((sb, sc))) => b@ == sb && c == sc,
            (Err(ReboneError::UnmappedBone(e)), Err(se)) => e == se,
            _ => false,
        },
{
    if !prim.is_weighted() {
        return Err(ReboneError::NotWeightedAsset);
    }
    let bone_remap = BoneRemap::between(from, to);
    match prim.output_with_remap(&bone_remap) {
        Ok(out) => Ok(out),
        Err(joint) => Err(ReboneError::UnmappedBone(joint)),
    }
}

/// A name that occurs in `names` has a last index.
proof fn lemma_last_index_found(names: Seq<Seq<char>>, i: int)
    requires
        0 <= i < names.len(),
    ensures
        last_index(names, names[i]) is Some,
    decreases names.len(),
{
    if names.last() != names[i] {
        assert(names.drop_last()[i] == names[i]);
        lemma_last_index_found(names.drop_last(), i);
    }
}

/// Between two rigs with the same bone names in the same order, the remap
/// table maps every bone it has an entry for onto itself, and has an entry for
/// every bone when the names are distinct; remapping a model through it
/// changes no byte and counts no remapped joint.
pub proof fn lemma_identity_remap(from: &Borg, to: &Borg, prim: &Prim)
    requires
        from.wf(),
        to.wf(),
        prim.wf(),
        from.names() == to.names(),
    ensures
        forall|i: int|
            0 <= i < 256 ==> ((#[trigger] remap_table(from.names(), to.names())[i]) matches Some(k)
                ==> k as int == i),
        from.names().no_duplicates() ==> forall|i: int|
            0 <= i < from.names().len() ==> #[trigger] remap_table(from.names(), to.names())[i]
                == Some(i as u8),
        patch_meshes(prim.buffer@, prim.mesh@, remap_table(from.names(), to.names())) matches Ok(
            (b, c),
        ) ==> b == prim.buffer@ && c == 0,
{
    let names = from.names();
    let table = remap_table(names, to.names());
    assert forall|i: int| 0 <= i < 256 implies ((#[trigger] table[i]) matches Some(k) ==> k as int == i) by {
        if 0 <= i < names.len() {
            lemma_last_index_bounds(names, names[i]);
        }
    }
    if names.no_duplicates() {
        assert forall|i: int| 0 <= i < names.len() implies #[trigger] table[i] == Some(i as u8) by {
            lemma_last_index_found(names, i);
            lemma_last_index_bounds(names, names[i]);
        }
    }
    lemma_patch_meshes_flat(prim.buffer@, prim.mesh@, table);
    lemma_positions_in(prim.mesh@, prim.buffer@);
    lemma_patch_identity(prim.buffer@, all_joint_positions(prim.mesh@), table);
}

/// The four paths a command line may give.
pub struct Cli {
    pub input_prim: Option<String>,
    pub from_borg: Option<String>,
    pub to_borg: Option<String>,
    pub output_prim: Option<String>,
}

/// The paths of one conversion, and whether they are still to be chosen
/// interactively.
pub struct Rebone {
    pub gui: bool,
    pub input_prim_path: String,
    pub from_borg_path: String,
    pub to_borg_path: String,
    pub output_prim_path: String,
}

/// The characters of an optional path.
pub open spec fn path_view(o: Option<String>) -> Option<Seq<char>> {
    match o {
        Some(s) => Some(s@),
        None => None,
    }
}

/// Whether the command line gives all four paths.
pub open spec fn complete_args(args: &Cli) -> bool {
    args.input_prim is Some && args.from_borg is Some && args.to_borg is Some
        && args.output_prim is Some
}

impl Rebone {
    pub fn new() -> (r: Rebone)
        ensures
            !r.gui,
            r.input_prim_path@.len() == 0,
            r.from_borg_path@.len() == 0,
            r.to_borg_path@.len() == 0,
            r.output_prim_path@.len() == 0,
    {
        Rebone {
            gui: false,
            input_prim_path: String::new(),
            from_borg_path: String::new(),
            to_borg_path: String::new(),
            output_prim_path: String::new(),
        }
    }

    /// Takes the four paths from the command line, or, when any is missing,
    /// asks for the interactive front end and leaves the paths alone.
    pub fn process_args(&mut self, args: &Cli)
        ensures
            !complete_args(args) ==> {
                &&& final(self).gui
                &&& final(self).input_prim_path == old(self).input_prim_path
                &&& final(self).from_borg_path == old(self).from_borg_path
                &&& final(self).to_borg_path == old(self).to_borg_path
                &&& final(self).output_prim_path == old(self).output_prim_path
            },
            complete_args(args) ==> {
                &&& final(self).gui == old(self).gui
                &&& Some(final(self).input_prim_path@) == path_view(args.input_prim)
                &&& Some(final(self).from_borg_path@) == path_view(args.from_borg)
                &&& Some(final(self).to_borg_path@) == path_view(args.to_borg)
                &&& Some(final(self).output_prim_path@) == path_view(args.output_prim)
            },
    {
        match (&args.input_prim, &args.from_borg, &args.to_borg, &args.output_prim) {
            (Some(input), Some(from), Some(to), Some(output)) => {
                self.input_prim_path = input.clone();
                self.from_borg_path = from.clone();
                self.to_borg_path = to.clone();
                self.output_prim_path = output.clone();
            },
            _ => {
                self.gui = true;
            },
        }
    }
}

} // verus!
