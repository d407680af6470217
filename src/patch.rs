//! Weight patcher: rewrites every joint-index byte of every weight record
//! through a bone remap table.
use vstd::prelude::*;
use crate::model::{Mesh, Prim, WEIGHT_STRIDE};
use crate::remap::BoneRemap;

verus! {

/// Joint bytes per weight record.
pub const JOINTS_PER_VERTEX: u64 = 6;

/// Offset of joint byte `s` inside a weight record: four primary joints after
/// four unrelated bytes, then two secondary joints after two weight bytes.
pub open spec fn joint_slot(s: int) -> int {
    if s < 4 {
        4 + s
    } else {
        6 + s
    }
}

/// Offset of joint byte `s` of vertex `v` of mesh `m`.
pub open spec fn joint_position(m: Mesh, v: int, s: int) -> int {
    m.weights_offset + WEIGHT_STRIDE * v + joint_slot(s)
}

/// The joint-byte offsets of mesh `m`, in the order they are visited.
pub open spec fn mesh_joint_positions(m: Mesh) -> Seq<int> {
    Seq::new((JOINTS_PER_VERTEX * m.vertex_count) as nat, |k: int| joint_position(m, k / 6, k % 6))
}

/// `r` with `c` more joints counted as changed.
pub open spec fn add_count(r: Result<(Seq<u8>, int), u8>, c: int) -> Result<(Seq<u8>, int), u8> {
    match r {
        Ok((b, n)) => Ok((b, n + c)),
        Err(e) => Err(e),
    }
}

/// Rewrites the bytes of `buf` at the offsets `pos`, in order, through `remap`:
/// the patched bytes and how many of them changed, or the first byte read that
/// `remap` has no entry for.
pub open spec fn patch_positions(buf: Seq<u8>, pos: Seq<int>, remap: Seq<Option<u8>>) -> Result<
    (Seq<u8>, int),
    u8,
>
    decreases pos.len(),
{
    if pos.len() == 0 {
        Ok((buf, 0))
    } else {
        let j = buf[pos[0]];
        match remap[j as int] {
            None => Err(j),
            Some(t) => add_count(
                patch_positions(buf.update(pos[0], t), pos.drop_first(), remap),
                if t != j { 1int } else { 0int },
            ),
        }
    }
}

/// Patches the joint bytes of each mesh of `meshes` in turn.
pub open spec fn patch_meshes(buf: Seq<u8>, meshes: Seq<Mesh>, remap: Seq<Option<u8>>) -> Result<
    (Seq<u8>, int),
    u8,
>
    decreases meshes.len(),
{
    if meshes.len() == 0 {
        Ok((buf, 0))
    } else {
        match patch_positions(buf, mesh_joint_positions(meshes[0]), remap) {
            Err(e) => Err(e),
            Ok((b, c)) => add_count(patch_meshes(b, meshes.drop_first(), remap), c),
        }
    }
}

proof fn lemma_add_count_twice(r: Result<(Seq<u8>, int), u8>, a: int, b: int)
    ensures
        add_count(add_count(r, a), b) == add_count(r, a + b),
{
}

/// The joint-byte offsets of all of `meshes`, mesh after mesh.
pub open spec fn all_joint_positions(meshes: Seq<Mesh>) -> Seq<int>
    decreases meshes.len(),
{
    if meshes.len() == 0 {
        seq![]
    } else {
        mesh_joint_positions(meshes[0]) + all_joint_positions(meshes.drop_first())
    }
}

/// Every offset of `pos` addresses a byte of `buf`.
pub open spec fn positions_in(pos: Seq<int>, len: int) -> bool {
    forall|k: int| 0 <= k < pos.len() ==> 0 <= #[trigger] pos[k] < len
}

proof fn lemma_add_count_zero(r: Result<(Seq<u8>, int), u8>)
    ensures
        add_count(r, 0) == r,
{
    match r {
        Ok((b, n)) => {},
        Err(e) => {},
    }
}

/// Patching `front + back` patches `front`, then `back` on what came out.
proof fn lemma_patch_concat(buf: Seq<u8>, front: Seq<int>, back: Seq<int>, remap: Seq<Option<u8>>)
    ensures
        patch_positions(buf, front + back, remap) == match patch_positions(buf, front, remap) {
            Err(e) => Err(e),
            Ok((b, c)) => add_count(patch_positions(b, back, remap), c),
        },
    decreases front.len(),
{
    if front.len() == 0 {
        assert(front + back =~= back);
        lemma_add_count_zero(patch_positions(buf, back, remap));
    } else {
        let j = buf[front[0]];
        assert((front + back)[0] == front[0]);
        assert((front + back).drop_first() =~= front.drop_first() + back);
        match remap[j as int] {
            None => {},
            Some(t) => {
                let inc = if t != j { 1int } else { 0int };
                let next = buf.update(front[0], t);
                lemma_patch_concat(next, front.drop_first(), back, remap);
                match patch_positions(next, front.drop_first(), remap) {
                    Err(e) => {},
                    Ok((b, c)) => {
                        lemma_add_count_twice(patch_positions(b, back, remap), c, inc);
                    },
                }
            },
        }
    }
}

/// Patching mesh after mesh is patching all their joint positions in order.
pub(crate) proof fn lemma_patch_meshes_flat(buf: Seq<u8>, meshes: Seq<Mesh>, remap: Seq<Option<u8>>)
    ensures
        patch_meshes(buf, meshes, remap) == patch_positions(buf, all_joint_positions(meshes), remap),
    decreases meshes.len(),
{
    if meshes.len() > 0 {
        lemma_patch_concat(buf, mesh_joint_positions(meshes[0]), all_joint_positions(meshes.drop_first()), remap);
        match patch_positions(buf, mesh_joint_positions(meshes[0]), remap) {
            Err(e) => {},
            Ok((b, c)) => {
                lemma_patch_meshes_flat(b, meshes.drop_first(), remap);
            },
        }
    }
}

/// The joint positions of meshes whose weight records fit lie inside the buffer.
pub(crate) proof fn lemma_positions_in(meshes: Seq<Mesh>, buf: Seq<u8>)
    requires
        forall|i: int| 0 <= i < meshes.len() ==> (#[trigger] meshes[i]).weights_fit(buf),
    ensures
        positions_in(all_joint_positions(meshes), buf.len() as int),
    decreases meshes.len(),
{
    if meshes.len() > 0 {
        let m = meshes[0];
        assert(m.weights_fit(buf));
        let first = mesh_joint_positions(m);
        assert forall|k: int| 0 <= k < first.len() implies 0 <= #[trigger] first[k] < buf.len() by {
            assert(k / 6 < m.vertex_count);
        }
        assert forall|i: int| 0 <= i < meshes.drop_first().len() implies (
        #[trigger] meshes.drop_first()[i]).weights_fit(buf) by {
            assert(meshes.drop_first()[i] == meshes[i + 1]);
        }
        lemma_positions_in(meshes.drop_first(), buf);
        let rest = all_joint_positions(meshes.drop_first());
        assert forall|k: int| 0 <= k < (first + rest).len() implies 0 <= #[trigger] (first
            + rest)[k] < buf.len() by {
            if k >= first.len() {
                assert((first + rest)[k] == rest[k - first.len()]);
            }
        }
    }
}

/// Bytes at offsets that are not visited keep their values.
proof fn lemma_patch_frame(buf: Seq<u8>, pos: Seq<int>, remap: Seq<Option<u8>>)
    requires
        positions_in(pos, buf.len() as int),
    ensures
        patch_positions(buf, pos, remap) matches Ok((b, c)) ==> {
            &&& b.len() == buf.len()
            &&& forall|j: int| 0 <= j < buf.len() && !pos.contains(j) ==> #[trigger] b[j] == buf[j]
        },
    decreases pos.len(),
{
    if pos.len() > 0 {
        let j = buf[pos[0]];
        match remap[j as int] {
            None => {},
            Some(t) => {
                let next = buf.update(pos[0], t);
                let rest = pos.drop_first();
                assert(positions_in(rest, next.len() as int)) by {
                    assert forall|k: int| 0 <= k < rest.len() implies 0 <= #[trigger] rest[k] < next.len() by {
                        assert(rest[k] == pos[k + 1]);
                    }
                }
                lemma_patch_frame(next, rest, remap);
                assert forall|x: int| 0 <= x < buf.len() && !pos.contains(x) implies !rest.contains(x) && x != pos[0] by {
                    if rest.contains(x) {
                        let k = choose|k: int| 0 <= k < rest.len() && rest[k] == x;
                        assert(pos[k + 1] == x);
                    }
                    assert(pos[0] == pos[0]);
                }
            },
        }
    }
}

/// When no offset repeats, each visited byte ends up as the remapped value of
/// its original.
proof fn lemma_patch_pointwise(buf: Seq<u8>, pos: Seq<int>, remap: Seq<Option<u8>>)
    requires
        positions_in(pos, buf.len() as int),
        pos.no_duplicates(),
    ensures
        patch_positions(buf, pos, remap) matches Ok((b, c)) ==> forall|k: int|
            0 <= k < pos.len() ==> Some(b[#[trigger] pos[k]]) == remap[buf[pos[k]] as int],
    decreases pos.len(),
{
    if pos.len() > 0 {
        let j = buf[pos[0]];
        match remap[j as int] {
            None => {},
            Some(t) => {
                let next = buf.update(pos[0], t);
                let rest = pos.drop_first();
                assert(positions_in(rest, next.len() as int)) by {
                    assert forall|k: int| 0 <= k < rest.len() implies 0 <= #[trigger] rest[k] < next.len() by {
                        assert(rest[k] == pos[k + 1]);
                    }
                }
                assert(rest.no_duplicates()) by {
                    assert forall|x: int, y: int| 0 <= x < rest.len() && 0 <= y < rest.len() && x != y implies rest[x] != rest[y] by {
                        assert(rest[x] == pos[x + 1] && rest[y] == pos[y + 1]);
                    }
                }
                lemma_patch_pointwise(next, rest, remap);
                lemma_patch_frame(next, rest, remap);
                match patch_positions(buf, pos, remap) {
                    Err(e) => {},
                    Ok((b, c)) => {
                        assert(!rest.contains(pos[0])) by {
                            if rest.contains(pos[0]) {
                                let k = choose|k: int| 0 <= k < rest.len() && rest[k] == pos[0];
                                assert(pos[k + 1] == pos[0]);
                            }
                        }
                        assert forall|k: int| 0 <= k < pos.len() implies Some(b[#[trigger] pos[k]]) == remap[buf[pos[k]] as int] by {
                            if k > 0 {
                                assert(rest[k - 1] == pos[k]);
                                assert(pos[k] != pos[0]);
                                assert(next[pos[k]] == buf[pos[k]]);
                            }
                        }
                    },
                }
            },
        }
    }
}

/// A failure names a byte the table has no entry for; a byte without entry
/// among the originals makes the patch fail; and when no offset repeats, the
/// failure names the first such original byte.
proof fn lemma_patch_fails(buf: Seq<u8>, pos: Seq<int>, remap: Seq<Option<u8>>)
    requires
        positions_in(pos, buf.len() as int),
        remap.len() == 256,
    ensures
        patch_positions(buf, pos, remap) matches Err(e) ==> remap[e as int] is None,
        (exists|k: int| 0 <= k < pos.len() && (#[trigger] remap[buf[pos[k]] as int]) is None)
            ==> patch_positions(buf, pos, remap) is Err,
        pos.no_duplicates() ==> (patch_positions(buf, pos, remap) matches Err(e) ==> exists|k: int|
            0 <= k < pos.len() && buf[#[trigger] pos[k]] == e && forall|i: int|
                0 <= i < k ==> (#[trigger] remap[buf[pos[i]] as int]) is Some),
    decreases pos.len(),
{
    if pos.len() > 0 {
        let j = buf[pos[0]];
        match remap[j as int] {
            None => {
                assert(buf[pos[0]] == j);
            },
            Some(t) => {
                let next = buf.update(pos[0], t);
                let rest = pos.drop_first();
                assert(positions_in(rest, next.len() as int)) by {
                    assert forall|k: int| 0 <= k < rest.len() implies 0 <= #[trigger] rest[k] < next.len() by {
                        assert(rest[k] == pos[k + 1]);
                    }
                }
                lemma_patch_fails(next, rest, remap);
                if exists|k: int| 0 <= k < pos.len() && (#[trigger] remap[buf[pos[k]] as int]) is None {
                    let k = choose|k: int| 0 <= k < pos.len() && (#[trigger] remap[buf[pos[k]] as int]) is None;
                    assert(pos[k] != pos[0]);
                    assert(rest[k - 1] == pos[k]);
                    assert(next[rest[k - 1]] == buf[pos[k]]);
                    assert(remap[next[rest[k - 1]] as int] is None);
                }
                if pos.no_duplicates() {
                    assert(rest.no_duplicates()) by {
                        assert forall|x: int, y: int| 0 <= x < rest.len() && 0 <= y < rest.len() && x != y implies rest[x] != rest[y] by {
                            assert(rest[x] == pos[x + 1] && rest[y] == pos[y + 1]);
                        }
                    }
                    match patch_positions(next, rest, remap) {
                        Ok(_) => {},
                        Err(e) => {
                            let k = choose|k: int|
                                0 <= k < rest.len() && next[#[trigger] rest[k]] == e && forall|i: int|
                                    0 <= i < k ==> (#[trigger] remap[next[rest[i]] as int]) is Some;
                            assert(rest[k] == pos[k + 1]);
                            assert(pos[k + 1] != pos[0]);
                            assert(buf[pos[k + 1]] == e);
                            assert forall|i: int| 0 <= i < k + 1 implies (#[trigger] remap[buf[pos[i]] as int]) is Some by {
                                if i > 0 {
                                    assert(rest[i - 1] == pos[i]);
                                    assert(pos[i] != pos[0]);
                                    assert(next[rest[i - 1]] == buf[pos[i]]);
                                }
                            }
                        },
                    }
                }
            },
        }
    }
}

/// When no byte is a joint of two weight records, a successful remap leaves
/// at every joint position the table's entry for the byte that was there.
pub proof fn lemma_remap_pointwise(prim: &Prim, bone_remap: &BoneRemap)
    requires
        prim.wf(),
        bone_remap.wf(),
        all_joint_positions(prim.mesh@).no_duplicates(),
    ensures
        patch_meshes(prim.buffer@, prim.mesh@, bone_remap.table@) matches Ok((b, c)) ==> forall|k: int|
            0 <= k < all_joint_positions(prim.mesh@).len() ==> Some(
                b[#[trigger] all_joint_positions(prim.mesh@)[k]],
            ) == bone_remap.table@[prim.buffer@[all_joint_positions(prim.mesh@)[k]] as int],
{
    lemma_patch_meshes_flat(prim.buffer@, prim.mesh@, bone_remap.table@);
    lemma_positions_in(prim.mesh@, prim.buffer@);
    lemma_patch_pointwise(prim.buffer@, all_joint_positions(prim.mesh@), bone_remap.table@);
}

/// A successful remap keeps the length and every byte that is not a joint
/// index of a weight record.
pub proof fn lemma_remap_keeps_other_bytes(prim: &Prim, bone_remap: &BoneRemap)
    requires
        prim.wf(),
        bone_remap.wf(),
    ensures
        patch_meshes(prim.buffer@, prim.mesh@, bone_remap.table@) matches Ok((b, c)) ==> {
            &&& b.len() == prim.buffer@.len()
            &&& forall|j: int|
                0 <= j < prim.buffer@.len() && !all_joint_positions(prim.mesh@).contains(j)
                    ==> #[trigger] b[j] == prim.buffer@[j]
        },
{
    lemma_patch_meshes_flat(prim.buffer@, prim.mesh@, bone_remap.table@);
    lemma_positions_in(prim.mesh@, prim.buffer@);
    lemma_patch_frame(prim.buffer@, all_joint_positions(prim.mesh@), bone_remap.table@);
}

/// A joint bound to a bone the table has no entry for makes the remap fail,
/// and a failure names a bone without entry; when no byte is a joint of two
/// weight records, it names the first such joint's bone in record order.
pub proof fn lemma_remap_fails_closed(prim: &Prim, bone_remap: &BoneRemap)
    requires
        prim.wf(),
        bone_remap.wf(),
    ensures
        (exists|k: int|
            0 <= k < all_joint_positions(prim.mesh@).len() && (#[trigger] bone_remap.table@[prim.buffer@[all_joint_positions(prim.mesh@)[k]] as int]) is None)
            ==> patch_meshes(prim.buffer@, prim.mesh@, bone_remap.table@) is Err,
        patch_meshes(prim.buffer@, prim.mesh@, bone_remap.table@) matches Err(e)
            ==> bone_remap.table@[e as int] is None,
        all_joint_positions(prim.mesh@).no_duplicates() ==> (patch_meshes(
            prim.buffer@,
            prim.mesh@,
            bone_remap.table@,
        ) matches Err(e) ==> exists|k: int|
            0 <= k < all_joint_positions(prim.mesh@).len()
                && prim.buffer@[#[trigger] all_joint_positions(prim.mesh@)[k]] == e && forall|i: int|
                0 <= i < k ==> (#[trigger] bone_remap.table@[prim.buffer@[all_joint_positions(prim.mesh@)[i]] as int]) is Some),
{
    lemma_patch_meshes_flat(prim.buffer@, prim.mesh@, bone_remap.table@);
    lemma_positions_in(prim.mesh@, prim.buffer@);
    lemma_patch_fails(prim.buffer@, all_joint_positions(prim.mesh@), bone_remap.table@);
}

/// A table that maps every byte it has an entry for onto itself changes
/// nothing and counts nothing.
pub(crate) proof fn lemma_patch_identity(buf: Seq<u8>, pos: Seq<int>, remap: Seq<Option<u8>>)
    requires
        positions_in(pos, buf.len() as int),
        forall|j: int| 0 <= j < 256 ==> ((#[trigger] remap[j]) matches Some(t) ==> t as int == j),
    ensures
        patch_positions(buf, pos, remap) matches Ok((b, c)) ==> b == buf && c == 0,
    decreases pos.len(),
{
    if pos.len() > 0 {
        let j = buf[pos[0]];
        match remap[j as int] {
            None => {},
            Some(t) => {
                assert(buf.update(pos[0], t) =~= buf);
                let rest = pos.drop_first();
                assert(positions_in(rest, buf.len() as int)) by {
                    assert forall|k: int| 0 <= k < rest.len() implies 0 <= #[trigger] rest[k] < buf.len() by {
                        assert(rest[k] == pos[k + 1]);
                    }
                }
                lemma_patch_identity(buf, rest, remap);
            },
        }
    }
}

impl Prim {
    /// The asset's bytes with every joint index of every weight record
    /// remapped, and the number of joints that changed; or the first joint
    /// index that `bone_remap` has no entry for.
    pub fn output_with_remap(&self, bone_remap: &BoneRemap) -> (r: Result<(Vec<u8>, u128), u8>)
        requires
            self.wf(),
            bone_remap.wf(),
        ensures
            r matches Ok((b, c)) ==> patch_meshes(self.buffer@, self.mesh@, bone_remap.table@) == Ok::<
                (Seq<u8>, int),
                u8,
            >((b@, c as int)),
            r matches Err(e) ==> patch_meshes(self.buffer@, self.mesh@, bone_remap.table@) == Err::<
                (Seq<u8>, int),
                u8,
            >(e),
    {
        let ghost remap = bone_remap.table@;
        let ghost meshes = self.mesh@;
        let len = self.buffer.len();
        let mut buffer = self.buffer.clone();
        let mut remapped: u128 = 0;
        let mut mi: usize = 0;
        proof {
            assert(meshes.skip(0) =~= meshes);
        }
        while mi < self.mesh.len()
            invariant
                self.wf(),
                bone_remap.wf(),
                remap == bone_remap.table@,
                meshes == self.mesh@,
                mi <= meshes.len(),
                buffer@.len() == self.buffer@.len(),
                len == self.buffer@.len(),
                remapped <= mi * 0x6_0000_0000,
                patch_meshes(self.buffer@, meshes, remap) == add_count(
                    patch_meshes(buffer@, meshes.skip(mi as int), remap),
                    remapped as int,
                ),
            decreases meshes.len() - mi,
        {
            let mesh = self.mesh[mi];
            let ghost start = buffer@;
            let ghost pos = mesh_joint_positions(mesh);
            let ghost before = remapped as int;
            let mut changed: u128 = 0;
            let joints: u64 = JOINTS_PER_VERTEX * mesh.vertex_count as u64;
            let mut k: u64 = 0;
            proof {
                assert(mesh.weights_fit(self.buffer@));
                assert(pos.skip(0) =~= pos);
            }
            while k < joints
                invariant
                    bone_remap.wf(),
                    remap == bone_remap.table@,
                    mesh.weights_fit(self.buffer@),
                    buffer@.len() == self.buffer@.len(),
                    len == self.buffer@.len(),
                    pos == mesh_joint_positions(mesh),
                    meshes == self.mesh@,
                    mi < meshes.len(),
                    mesh == meshes[mi as int],
                    patch_meshes(self.buffer@, meshes, remap) == add_count(
                        patch_meshes(start, meshes.skip(mi as int), remap),
                        before,
                    ),
                    joints == pos.len(),
                    k <= joints,
                    changed <= k,
                    patch_positions(start, pos, remap) == add_count(
                        patch_positions(buffer@, pos.skip(k as int), remap),
                        changed as int,
                    ),
                decreases joints - k,
            {
                let slot: u64 = k % 6;
                assert(k / 6 < mesh.vertex_count);
                let position = (mesh.weights_offset + WEIGHT_STRIDE * (k / 6) + if slot < 4 {
                    4 + slot
                } else {
                    6 + slot
                }) as usize;
                proof {
                    assert(position as int == pos[k as int]);
                    assert(pos.skip(k as int).drop_first() =~= pos.skip(k + 1));
                }
                let joint = buffer[position];
                match bone_remap.get(joint) {
                    None => {
                        proof {
                            assert(patch_positions(buffer@, pos.skip(k as int), remap) == Err::<(Seq<u8>, int), u8>(joint));
                            assert(patch_positions(start, pos, remap) == Err::<(Seq<u8>, int), u8>(joint));
                            assert(meshes.skip(mi as int)[0] == mesh);
                            assert(patch_meshes(start, meshes.skip(mi as int), remap) == Err::<(Seq<u8>, int), u8>(joint));
                        }
                        return Err(joint);
                    },
                    Some(target) => {
                        let ghost cur = buffer@;
                        if target != joint {
                            buffer.set(position, target);
                            changed = changed + 1;
                            proof {
                                lemma_add_count_twice(patch_positions(buffer@, pos.skip(k + 1), remap), 1, changed - 1);
                            }
                        } else {
                            proof {
                                assert(cur.update(position as int, target) =~= cur);
                                lemma_add_count_twice(patch_positions(buffer@, pos.skip(k + 1), remap), 0, changed as int);
                            }
                        }
                    },
                }
                k = k + 1;
            }
            proof {
                assert(pos.skip(joints as int) =~= Seq::<int>::empty());
                assert(meshes.skip(mi as int).drop_first() =~= meshes.skip(mi + 1));
                assert(meshes.skip(mi as int)[0] == mesh);
                lemma_add_count_twice(patch_meshes(buffer@, meshes.skip(mi + 1), remap), changed as int, before);
            }
            remapped = remapped + changed;
            mi = mi + 1;
        }
        proof {
            assert(meshes.skip(mi as int) =~= Seq::<Mesh>::empty());
        }
        Ok((buffer, remapped))
    }
}

} // verus!
