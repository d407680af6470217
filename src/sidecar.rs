//! Sidecar metadata patcher: points the model's dependency on its rig at the
//! target rig, in the structured or in the raw binary form of the sidecar.
use vstd::prelude::*;
use vstd::string::{StrSliceExecFns, StringExecFns};
use crate::bytes::{fits, le_u32, le_u64, read_u32, write_u64};
use crate::error::FormatError;

verus! {

/// Offset of the dependency block size in a binary sidecar.
pub const DEPENDS_SIZE_OFFSET: usize = 0x18;

/// Offset of the word whose low 30 bits hold the dependency count.
pub const DEPENDS_COUNT_OFFSET: usize = 0x2C;

/// Mask of the dependency count bits.
pub const DEPENDS_COUNT_MASK: u32 = 0x3FFF_FFFF;

/// Where the hash slot starts, before the dependency count is added.
pub const HASH_SLOT_BASE: usize = 0x30;

/// One dependency of a sidecar: a hash naming the asset depended on, and a flag.
pub struct HashDepend {
    pub hash: String,
    pub flag: String,
}

/// The structured form of a model's sidecar metadata.
pub struct Meta {
    pub hash_value: String,
    pub hash_path: String,
    pub hash_offset: u32,
    pub hash_size: u32,
    pub hash_resource_type: String,
    pub hash_reference_table_size: u32,
    pub hash_reference_table_dummy: u32,
    pub hash_size_final: u32,
    pub hash_size_in_memory: u32,
    pub hash_size_in_video_memory: u32,
    pub hash_reference_data: Vec<HashDepend>,
}

/// A rig file stem that names a rig by its hash: sixteen characters starting
/// with "00".
pub open spec fn is_rig_hash(stem: Seq<char>) -> bool {
    stem.len() == 16 && stem[0] == '0' && stem[1] == '0'
}

/// The fields other than the dependency list are the same.
pub open spec fn same_header(a: Meta, b: Meta) -> bool {
    &&& a.hash_value == b.hash_value
    &&& a.hash_path == b.hash_path
    &&& a.hash_offset == b.hash_offset
    &&& a.hash_size == b.hash_size
    &&& a.hash_resource_type == b.hash_resource_type
    &&& a.hash_reference_table_size == b.hash_reference_table_size
    &&& a.hash_reference_table_dummy == b.hash_reference_table_dummy
    &&& a.hash_size_final == b.hash_size_final
    &&& a.hash_size_in_memory == b.hash_size_in_memory
    &&& a.hash_size_in_video_memory == b.hash_size_in_video_memory
}

impl Meta {
    /// Points the first dependency at the target rig named by `target_stem`,
    /// when there is a dependency and the stem is a rig hash; otherwise leaves
    /// the record as it is.
    pub fn retarget(&mut self, target_stem: &String)
        ensures
            same_header(*final(self), *old(self)),
            final(self).hash_reference_data@.len() == old(self).hash_reference_data@.len(),
            old(self).hash_reference_data@.len() > 0 && is_rig_hash(target_stem@) ==> {
                &&& final(self).hash_reference_data@[0].hash@ == target_stem@
                &&& final(self).hash_reference_data@[0].flag@ == old(self).hash_reference_data@[0].flag@
                &&& forall|i: int|
                    1 <= i < old(self).hash_reference_data@.len()
                        ==> #[trigger] final(self).hash_reference_data@[i]
                        == old(self).hash_reference_data@[i]
            },
            !(old(self).hash_reference_data@.len() > 0 && is_rig_hash(target_stem@))
                ==> final(self).hash_reference_data@ == old(self).hash_reference_data@,
    {
        if self.hash_reference_data.len() == 0 {
            return;
        }
        let stem = target_stem.as_str();
        if stem.unicode_len() != 16 || stem.get_char(0) != '0' || stem.get_char(1) != '0' {
            return;
        }
        let flag = self.hash_reference_data[0].flag.clone();
        self.hash_reference_data.set(0, HashDepend { hash: target_stem.clone(), flag });
    }
}

/// Suffix of the structured sidecar of a model asset.
pub const JSON_SIDECAR_SUFFIX: &'static str = ".meta.json";

/// Suffix of the binary sidecar of a model asset.
pub const BINARY_SIDECAR_SUFFIX: &'static str = ".meta";

/// What `str::to_lowercase` makes of a string.
pub uninterp spec fn lower_of(s: Seq<char>) -> Seq<char>;

/// Relies on `str::to_lowercase`: the result depends on the characters alone.
#[verifier::external_body]
fn lowercase(s: &str) -> (r: String)
    ensures
        r@ == lower_of(s@),
{
    s.to_lowercase()
}

/// The index of the first of the already case-folded `folded_names` equal to
/// `folded_wanted`.
pub fn find_folded(folded_names: &Vec<String>, folded_wanted: &String) -> (r: Option<usize>)
    ensures
        match r {
            Some(i) => i < folded_names@.len() && folded_names@[i as int]@ == folded_wanted@
                && forall|k: int| 0 <= k < i ==> (#[trigger] folded_names@[k])@ != folded_wanted@,
            None => forall|k: int|
                0 <= k < folded_names@.len() ==> (#[trigger] folded_names@[k])@ != folded_wanted@,
        },
{
    let mut i: usize = 0;
    while i < folded_names.len()
        invariant
            i <= folded_names@.len(),
            forall|k: int| 0 <= k < i ==> (#[trigger] folded_names@[k])@ != folded_wanted@,
        decreases folded_names@.len() - i,
    {
        if folded_names[i] == *folded_wanted {
            return Some(i);
        }
        i = i + 1;
    }
    None
}

/// The index of the first of the sibling file names `names` that, ignoring
/// case, is the asset's file name `asset_name` followed by `suffix`.
pub fn find_sidecar(names: &Vec<String>, asset_name: &str, suffix: &str) -> (r: Option<usize>)
    ensures
        match r {
            Some(i) => i < names@.len() && lower_of(names@[i as int]@) == lower_of(asset_name@)
                + suffix@ && forall|k: int|
                0 <= k < i ==> lower_of((#[trigger] names@[k])@) != lower_of(asset_name@) + suffix@,
            None => forall|k: int|
                0 <= k < names@.len() ==> lower_of((#[trigger] names@[k])@) != lower_of(asset_name@)
                    + suffix@,
        },
{
    let wanted = lowercase(asset_name).concat(suffix);
    let mut folded: Vec<String> = Vec::new();
    let mut i: usize = 0;
    while i < names.len()
        invariant
            i <= names@.len(),
            folded@.len() == i,
            forall|k: int| 0 <= k < i ==> (#[trigger] folded@[k])@ == lower_of(names@[k]@),
        decreases names@.len() - i,
    {
        folded.push(lowercase(names[i].as_str()));
        i = i + 1;
    }
    let r = find_folded(&folded, &wanted);
    proof {
        assert forall|k: int| 0 <= k < names@.len() implies lower_of((#[trigger] names@[k])@) == folded@[k]@ by {}
    }
    r
}

/// The value of a hexadecimal digit.
pub open spec fn hex_digit(c: char) -> Option<int> {
    if '0' <= c <= '9' {
        Some(c as int - '0' as int)
    } else if 'a' <= c <= 'f' {
        Some(c as int - 'a' as int + 10)
    } else if 'A' <= c <= 'F' {
        Some(c as int - 'A' as int + 10)
    } else {
        None
    }
}

/// The value of a string of hexadecimal digits, most significant first.
pub open spec fn hex_digits_value(s: Seq<char>) -> Option<int>
    decreases s.len(),
{
    if s.len() == 0 {
        Some(0)
    } else {
        match (hex_digits_value(s.drop_last()), hex_digit(s.last())) {
            (Some(high), Some(low)) => Some(16 * high + low),
            _ => None,
        }
    }
}

/// The 64-bit number that `s` writes in hexadecimal, after an optional '+'.
pub open spec fn hex_u64(s: Seq<char>) -> Option<int> {
    let digits = if s.len() > 0 && s[0] == '+' {
        s.drop_first()
    } else {
        s
    };
    if digits.len() == 0 {
        None
    } else {
        match hex_digits_value(digits) {
            Some(v) => if v < 0x1_0000_0000_0000_0000 {
                Some(v)
            } else {
                None
            },
            None => None,
        }
    }
}

/// Relies on `u64::from_str_radix` with radix 16: an optional '+' then at
/// least one hexadecimal digit, and the value must fit in 64 bits.
#[verifier::external_body]
fn parse_hex_u64(s: &str) -> (r: Option<u64>)
    ensures
        r matches Some(v) ==> hex_u64(s@) == Some(v as int),
        r is None ==> hex_u64(s@) is None,
{
    u64::from_str_radix(s, 16).ok()
}

/// Size of the dependency block of a binary sidecar.
pub open spec fn meta_depends_size(b: Seq<u8>) -> int {
    le_u32(b, DEPENDS_SIZE_OFFSET as int)
}

/// Number of dependencies of a binary sidecar.
pub open spec fn meta_depends_count(b: Seq<u8>) -> int {
    le_u32(b, DEPENDS_COUNT_OFFSET as int) % 0x4000_0000
}

/// Offset of the rig hash slot of a binary sidecar.
pub open spec fn meta_hash_slot(b: Seq<u8>) -> int {
    HASH_SLOT_BASE + meta_depends_count(b)
}

/// Writes `hash` into the rig hash slot of the binary sidecar `buffer`.
/// `Ok(None)` when the sidecar has no dependency block, which leaves nothing to
/// change.
pub fn patch_binary_meta(buffer: Vec<u8>, hash: u64) -> (r: Result<Option<Vec<u8>>, FormatError>)
    ensures
        !fits(buffer@, DEPENDS_SIZE_OFFSET as int, 4) ==> r == Err::<Option<Vec<u8>>, FormatError>(
            FormatError::OutOfBounds,
        ),
        fits(buffer@, DEPENDS_SIZE_OFFSET as int, 4) && meta_depends_size(buffer@) == 0 ==> r
            == Ok::<Option<Vec<u8>>, FormatError>(None),
        fits(buffer@, DEPENDS_SIZE_OFFSET as int, 4) && meta_depends_size(buffer@) != 0 && !(fits(
            buffer@,
            DEPENDS_COUNT_OFFSET as int,
            4,
        ) && fits(buffer@, meta_hash_slot(buffer@), 8)) ==> r == Err::<
            Option<Vec<u8>>,
            FormatError,
        >(FormatError::OutOfBounds),
        fits(buffer@, DEPENDS_SIZE_OFFSET as int, 4) && meta_depends_size(buffer@) != 0 && fits(
            buffer@,
            DEPENDS_COUNT_OFFSET as int,
            4,
        ) && fits(buffer@, meta_hash_slot(buffer@), 8) ==> match r {
            Ok(Some(out)) => {
                &&& out@.len() == buffer@.len()
                &&& le_u64(out@, meta_hash_slot(buffer@)) == hash as int
                &&& forall|j: int|
                    0 <= j < buffer@.len() && !(meta_hash_slot(buffer@) <= j < meta_hash_slot(buffer@)
                        + 8) ==> #[trigger] out@[j] == buffer@[j]
            },
            _ => false,
        },
{
    let len = buffer.len();
    if len < DEPENDS_SIZE_OFFSET + 4 {
        return Err(FormatError::OutOfBounds);
    }
    let depends_size = read_u32(&buffer, DEPENDS_SIZE_OFFSET);
    if depends_size == 0 {
        return Ok(None);
    }
    if len < DEPENDS_COUNT_OFFSET + 4 {
        return Err(FormatError::OutOfBounds);
    }
    let word = read_u32(&buffer, DEPENDS_COUNT_OFFSET);
    let depends_count = word & DEPENDS_COUNT_MASK;
    assert(word & 0x3FFF_FFFF == word % 0x4000_0000) by (bit_vector);
    let slot = HASH_SLOT_BASE + depends_count as usize;
    if slot > len || len - slot < 8 {
        return Err(FormatError::OutOfBounds);
    }
    let mut out = buffer;
    write_u64(&mut out, slot, hash);
    Ok(Some(out))
}

/// Points the binary sidecar `buffer` at the target rig whose file stem is
/// `target_stem`, the rig's hash in hexadecimal. `Ok(None)` when the sidecar
/// has no dependency block.
pub fn retarget_binary_meta(buffer: Vec<u8>, target_stem: &str) -> (r: Result<
    Option<Vec<u8>>,
    FormatError,
>)
    ensures
        !fits(buffer@, DEPENDS_SIZE_OFFSET as int, 4) ==> r == Err::<Option<Vec<u8>>, FormatError>(
            FormatError::OutOfBounds,
        ),
        fits(buffer@, DEPENDS_SIZE_OFFSET as int, 4) && meta_depends_size(buffer@) == 0 ==> r
            == Ok::<Option<Vec<u8>>, FormatError>(None),
        fits(buffer@, DEPENDS_SIZE_OFFSET as int, 4) && meta_depends_size(buffer@) != 0 && !fits(
            buffer@,
            DEPENDS_COUNT_OFFSET as int,
            4,
        ) ==> r == Err::<Option<Vec<u8>>, FormatError>(FormatError::OutOfBounds),
        fits(buffer@, DEPENDS_SIZE_OFFSET as int, 4) && meta_depends_size(buffer@) != 0 && fits(
            buffer@,
            DEPENDS_COUNT_OFFSET as int,
            4,
        ) && hex_u64(target_stem@) is None ==> r == Err::<Option<Vec<u8>>, FormatError>(
            FormatError::InvalidHash,
        ),
        fits(buffer@, DEPENDS_SIZE_OFFSET as int, 4) && meta_depends_size(buffer@) != 0 && fits(
            buffer@,
            DEPENDS_COUNT_OFFSET as int,
            4,
        ) && !fits(buffer@, meta_hash_slot(buffer@), 8) && hex_u64(target_stem@) is Some ==> r
            == Err::<Option<Vec<u8>>, FormatError>(FormatError::OutOfBounds),
        fits(buffer@, DEPENDS_SIZE_OFFSET as int, 4) && meta_depends_size(buffer@) != 0 && fits(
            buffer@,
            DEPENDS_COUNT_OFFSET as int,
            4,
        ) && fits(buffer@, meta_hash_slot(buffer@), 8) && hex_u64(target_stem@) is Some ==> match r {
            Ok(Some(out)) => {
                &&& out@.len() == buffer@.len()
                &&& Some(le_u64(out@, meta_hash_slot(buffer@))) == hex_u64(target_stem@)
                &&& forall|j: int|
                    0 <= j < buffer@.len() && !(meta_hash_slot(buffer@) <= j < meta_hash_slot(buffer@)
                        + 8) ==> #[trigger] out@[j] == buffer@[j]
            },
            _ => false,
        },
{
    let len = buffer.len();
    if len < DEPENDS_SIZE_OFFSET + 4 {
        return Err(FormatError::OutOfBounds);
    }
    if read_u32(&buffer, DEPENDS_SIZE_OFFSET) == 0 {
        return Ok(None);
    }
    if len < DEPENDS_COUNT_OFFSET + 4 {
        return Err(FormatError::OutOfBounds);
    }
    match parse_hex_u64(target_stem) {
        Some(hash) => patch_binary_meta(buffer, hash),
        None => Err(FormatError::InvalidHash),
    }
}

} // verus!
