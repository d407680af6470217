//! Skeleton rig reader: the ordered bone-name table of a rig binary.
use vstd::prelude::*;
use vstd::utf8::{valid_utf8, decode_utf8};
use crate::bytes::{fits, le_u32, read_u32};
use crate::error::FormatError;

verus! {

/// Size of one bone record.
pub const BONE_STRIDE: u64 = 0x40;

/// Offset of the name field inside a bone record.
pub const BONE_NAME_OFFSET: u64 = 0x1C;

/// Width of the zero-padded name field.
pub const BONE_NAME_WIDTH: usize = 0x22;

/// Most bones a rig may declare: indices are single bytes.
pub const MAX_BONES: u32 = 256;

/// Offset of the rig header, stored at the start of the file.
pub open spec fn rig_header(b: Seq<u8>) -> int {
    le_u32(b, 0)
}

/// The header pointer and the header's count and bones-offset fields are readable.
pub open spec fn rig_header_ok(b: Seq<u8>) -> bool {
    fits(b, 0, 4) && fits(b, rig_header(b), 12)
}

/// Number of bones the rig declares.
pub open spec fn rig_bone_count(b: Seq<u8>) -> int {
    le_u32(b, rig_header(b))
}

/// Offset of the first bone record.
pub open spec fn rig_bones_offset(b: Seq<u8>) -> int {
    le_u32(b, rig_header(b) + 8)
}

/// Offset of the name field of bone `i`.
pub open spec fn bone_name_offset(b: Seq<u8>, i: int) -> int {
    rig_bones_offset(b) + BONE_STRIDE * i + BONE_NAME_OFFSET
}

/// Every declared bone's name field lies inside the buffer.
pub open spec fn rig_records_ok(b: Seq<u8>) -> bool {
    rig_bone_count(b) == 0 || fits(b, bone_name_offset(b, rig_bone_count(b) - 1), 0x22)
}

/// Length of `s` once its trailing zero bytes are dropped.
pub open spec fn trimmed_len(s: Seq<u8>) -> int
    decreases s.len(),
{
    if s.len() > 0 && s.last() == 0 {
        trimmed_len(s.drop_last())
    } else {
        s.len() as int
    }
}

/// `s` without its trailing zero bytes.
pub open spec fn trim_zeros(s: Seq<u8>) -> Seq<u8> {
    s.subrange(0, trimmed_len(s))
}

/// The bytes of bone `i`'s name, padding removed.
pub open spec fn bone_name_bytes(b: Seq<u8>, i: int) -> Seq<u8> {
    let o = bone_name_offset(b, i);
    trim_zeros(b.subrange(o, o + 0x22))
}

/// The index of the last name in `names` equal to `name`: a later bone of the
/// same name replaces an earlier one in the lookup.
pub open spec fn last_index(names: Seq<Seq<char>>, name: Seq<char>) -> Option<int>
    decreases names.len(),
{
    if names.len() == 0 {
        None
    } else if names.last() == name {
        Some(names.len() - 1)
    } else {
        last_index(names.drop_last(), name)
    }
}

/// The names of `a`, in order, that `b` does not hold.
pub open spec fn missing_from(a: Seq<Seq<char>>, b: Seq<Seq<char>>) -> Seq<Seq<char>>
    decreases a.len(),
{
    if a.len() == 0 {
        seq![]
    } else if last_index(b, a.last()) is None {
        missing_from(a.drop_last(), b).push(a.last())
    } else {
        missing_from(a.drop_last(), b)
    }
}

/// Relies on `String::from_utf8`: it succeeds exactly on valid UTF-8 and then
/// holds the decoded characters.
#[verifier::external_body]
fn decode_name(bytes: Vec<u8>) -> (r: Option<String>)
    ensures
        r is Some <==> valid_utf8(bytes@),
        r matches Some(s) ==> s@ == decode_utf8(bytes@),
{
    String::from_utf8(bytes).ok()
}

/// The ordered bone-name table of one rig.
pub struct Borg {
    pub bones: Vec<String>,
}

impl Borg {
    /// The bone names, in index order.
    pub open spec fn names(&self) -> Seq<Seq<char>> {
        self.bones@.map_values(|s: String| s@)
    }

    /// Every bone index fits in one byte.
    pub open spec fn wf(&self) -> bool {
        self.bones@.len() <= MAX_BONES
    }

    pub fn new() -> (r: Borg)
        ensures
            r.names() == Seq::<Seq<char>>::empty(),
            r.wf(),
    {
        Borg { bones: Vec::new() }
    }

    /// Reads the rig stored in `buffer`.
    pub fn from_bytes(buffer: &Vec<u8>) -> (r: Result<Borg, FormatError>)
        ensures
            !rig_header_ok(buffer@) ==> r == Err::<Borg, FormatError>(FormatError::OutOfBounds),
            rig_header_ok(buffer@) && rig_bone_count(buffer@) > MAX_BONES ==> r == Err::<
                Borg,
                FormatError,
            >(FormatError::TooManyBones),
            rig_header_ok(buffer@) && rig_bone_count(buffer@) <= MAX_BONES && !rig_records_ok(
                buffer@,
            ) ==> r == Err::<Borg, FormatError>(FormatError::OutOfBounds),
            rig_header_ok(buffer@) && rig_bone_count(buffer@) <= MAX_BONES && rig_records_ok(
                buffer@,
            ) ==> match r {
                Ok(borg) => {
                    &&& borg.wf()
                    &&& borg.names().len() == rig_bone_count(buffer@)
                    &&& forall|i: int|
                        0 <= i < borg.names().len() ==> valid_utf8(bone_name_bytes(buffer@, i))
                            && #[trigger] borg.names()[i] == decode_utf8(bone_name_bytes(buffer@, i))
                },
                Err(e) => exists|i: int|
                    0 <= i < rig_bone_count(buffer@) && e == FormatError::InvalidBoneName(i as u32)
                        && !valid_utf8(bone_name_bytes(buffer@, i)) && forall|j: int|
                        0 <= j < i ==> valid_utf8(#[trigger] bone_name_bytes(buffer@, j)),
            },
    {
        let len = buffer.len();
        if len < 4 {
            return Err(FormatError::OutOfBounds);
        }
        let header = read_u32(buffer, 0) as usize;
        if header > len || len - header < 12 {
            return Err(FormatError::OutOfBounds);
        }
        let bone_count = read_u32(buffer, header);
        let bones_offset = read_u32(buffer, header + 8) as u64;
        if bone_count > MAX_BONES {
            return Err(FormatError::TooManyBones);
        }
        if bone_count > 0 {
            let last = bones_offset + BONE_STRIDE * (bone_count as u64 - 1) + BONE_NAME_OFFSET;
            if last > len as u64 || (len as u64) - last < BONE_NAME_WIDTH as u64 {
                return Err(FormatError::OutOfBounds);
            }
        }
        let mut bones: Vec<String> = Vec::new();
        let mut i: u32 = 0;
        while i < bone_count
            invariant
                rig_header_ok(buffer@),
                rig_records_ok(buffer@),
                len == buffer@.len(),
                bone_count as int == rig_bone_count(buffer@),
                bones_offset as int == rig_bones_offset(buffer@),
                bone_count <= MAX_BONES,
                i <= bone_count,
                bones@.len() == i,
                forall|k: int| 0 <= k < i ==> valid_utf8(#[trigger] bone_name_bytes(buffer@, k)),
                forall|k: int|
                    0 <= k < i ==> #[trigger] bones@[k]@ == decode_utf8(bone_name_bytes(buffer@, k)),
            decreases bone_count - i,
        {
            let offset = (bones_offset + BONE_STRIDE * i as u64 + BONE_NAME_OFFSET) as usize;
            let field_len = trimmed_field_len(buffer, offset);
            let mut name_bytes: Vec<u8> = Vec::new();
            let mut k: usize = 0;
            while k < field_len
                invariant
                    k <= field_len <= BONE_NAME_WIDTH,
                    offset + 0x22 <= len == buffer@.len(),
                    name_bytes@ == buffer@.subrange(offset as int, offset + k),
                decreases field_len - k,
            {
                name_bytes.push(buffer[offset + k]);
                k = k + 1;
            }
            proof {
                assert(offset as int == bone_name_offset(buffer@, i as int));
                assert(name_bytes@ =~= bone_name_bytes(buffer@, i as int));
            }
            match decode_name(name_bytes) {
                Some(name) => bones.push(name),
                None => {
                    proof {
                        let ii = i as int;
                        assert(forall|j: int|
                            0 <= j < ii ==> valid_utf8(#[trigger] bone_name_bytes(buffer@, j)));
                        assert(ii as u32 == i);
                    }
                    return Err(FormatError::InvalidBoneName(i));
                },
            }
            i = i + 1;
        }
        let borg = Borg { bones };
        proof {
            assert forall|i: int| 0 <= i < borg.names().len() implies valid_utf8(
                bone_name_bytes(buffer@, i),
            ) && #[trigger] borg.names()[i] == decode_utf8(bone_name_bytes(buffer@, i)) by {
                assert(borg.bones@[i]@ == decode_utf8(bone_name_bytes(buffer@, i)));
                assert(valid_utf8(bone_name_bytes(buffer@, i)));
            }
        }
        Ok(borg)
    }
}

impl Borg {
    /// The index of the bone named `name`; where several bones share the
    /// name, the last of them.
    pub fn index_of(&self, name: &String) -> (r: Option<u8>)
        requires
            self.wf(),
        ensures
            r matches Some(k) ==> last_index(self.names(), name@) == Some(k as int),
            r is None ==> last_index(self.names(), name@) is None,
    {
        let mut i: usize = self.bones.len();
        assert(self.names().subrange(0, i as int) =~= self.names());
        while i > 0
            invariant
                i <= self.bones@.len() <= MAX_BONES,
                last_index(self.names(), name@) == last_index(self.names().subrange(0, i as int), name@),
            decreases i,
        {
            let ghost prefix = self.names().subrange(0, i as int);
            proof {
                assert(prefix.drop_last() =~= self.names().subrange(0, i - 1));
            }
            if self.bones[i - 1] == *name {
                return Some((i - 1) as u8);
            }
            i = i - 1;
        }
        None
    }

    /// Whether two bones share a name; the lookup then keeps only the later
    /// of them, so vertices bound to the earlier cannot be remapped.
    pub fn has_duplicate_names(&self) -> (r: bool)
        ensures
            r == !self.names().no_duplicates(),
    {
        let n = self.bones.len();
        let mut i: usize = 0;
        while i < n
            invariant
                n == self.bones@.len(),
                i <= n,
                forall|a: int, b: int| 0 <= a < i && a < b < n ==> self.names()[a] != self.names()[b],
            decreases n - i,
        {
            let mut j: usize = i + 1;
            while j < n
                invariant
                    n == self.bones@.len(),
                    i < n,
                    i + 1 <= j <= n,
                    forall|a: int, b: int| 0 <= a < i && a < b < n ==> self.names()[a] != self.names()[b],
                    forall|b: int| i < b < j ==> self.names()[i as int] != self.names()[b],
                decreases n - j,
            {
                if self.bones[i] == self.bones[j] {
                    assert(self.names()[i as int] == self.names()[j as int]);
                    return true;
                }
                j = j + 1;
            }
            i = i + 1;
        }
        false
    }

    /// The names of this rig, in order, that `other` has no bone for.
    pub fn unique_bones(&self, other: &Borg) -> (r: Vec<String>)
        requires
            other.wf(),
        ensures
            r@.map_values(|s: String| s@) == missing_from(self.names(), other.names()),
    {
        let mut r: Vec<String> = Vec::new();
        let mut i: usize = 0;
        while i < self.bones.len()
            invariant
                i <= self.bones@.len(),
                other.wf(),
                r@.map_values(|s: String| s@) == missing_from(
                    self.names().subrange(0, i as int),
                    other.names(),
                ),
            decreases self.bones@.len() - i,
        {
            let ghost before = r@.map_values(|s: String| s@);
            proof {
                assert(self.names().subrange(0, i + 1).drop_last() =~= self.names().subrange(0, i as int));
            }
            let name = &self.bones[i];
            if other.index_of(name).is_none() {
                r.push(name.clone());
                proof {
                    assert(r@.map_values(|s: String| s@) =~= before.push(name@));
                }
            }
            i = i + 1;
        }
        proof {
            assert(self.names().subrange(0, self.bones@.len() as int) =~= self.names());
        }
        r
    }
}

/// Length of the name field at `offset` without its trailing zero bytes.
fn trimmed_field_len(buffer: &Vec<u8>, offset: usize) -> (r: usize)
    requires
        fits(buffer@, offset as int, 0x22),
    ensures
        r <= BONE_NAME_WIDTH,
        r == trimmed_len(buffer@.subrange(offset as int, offset + 0x22)),
{
    let len = buffer.len();
    let ghost field = buffer@.subrange(offset as int, offset + 0x22);
    assert(field.subrange(0, BONE_NAME_WIDTH as int) =~= field);
    let mut end: usize = BONE_NAME_WIDTH;
    while end > 0 && buffer[offset + end - 1] == 0
        invariant
            end <= BONE_NAME_WIDTH,
            offset + 0x22 <= len == buffer@.len(),
            field == buffer@.subrange(offset as int, offset + 0x22),
            trimmed_len(field) == trimmed_len(field.subrange(0, end as int)),
        decreases end,
    {
        proof {
            assert(field.subrange(0, end as int).drop_last() =~= field.subrange(0, end - 1));
        }
        end = end - 1;
    }
    end
}

} // verus!
