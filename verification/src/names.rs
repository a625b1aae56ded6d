//! Names of the devices that a pool creates: sub-arrays and volume groups.

use vstd::prelude::*;
use vstd::string::StringExecFns;
use rand::Rng;
use crate::text::texts;

verus! {

/// The directory and prefix of every sub-array that belongs to a pool.
pub const MD_PREFIX: &'static str = "/dev/md/hyraid_md_";

/// The prefix of every volume group that belongs to a pool.
pub const VG_PREFIX: &'static str = "hyraid_vg_";

/// Random characters in the name of a sub-array.
pub const MD_SUFFIX_LEN: usize = 10;

/// Random characters in the name of a volume group.
pub const VG_SUFFIX_LEN: usize = 16;

/// An ASCII letter or digit.
pub open spec fn is_alphanumeric(c: char) -> bool {
    ('0' <= c && c <= '9') || ('a' <= c && c <= 'z') || ('A' <= c && c <= 'Z')
}

/// A text of `length` ASCII letters and digits.
pub open spec fn is_random_suffix(s: Seq<char>, length: int) -> bool {
    &&& s.len() == length
    &&& forall|i: int| 0 <= i < s.len() ==> is_alphanumeric(#[trigger] s[i])
}

/// The name of a sub-array: the prefix, then ten letters and digits.
pub open spec fn is_md_name(name: Seq<char>) -> bool {
    exists|suffix: Seq<char>|
        is_random_suffix(suffix, MD_SUFFIX_LEN as int) && name == MD_PREFIX@ + suffix
}

/// The name of a volume group: the prefix, then sixteen letters and digits.
pub open spec fn is_vg_name(name: Seq<char>) -> bool {
    exists|suffix: Seq<char>|
        is_random_suffix(suffix, VG_SUFFIX_LEN as int) && name == VG_PREFIX@ + suffix
}

/// Draws `length` characters from `rand`'s thread-local generator with the
/// `Alphanumeric` distribution, which yields ASCII letters and digits only.
/// Which ones come is left open: two calls may differ. The generator is
/// seeded by the operating system; `rand` panics where that fails.
#[verifier::external_body]
pub(crate) fn random_string(length: usize) -> (s: String)
    ensures
        is_random_suffix(s@, length as int),
{
    rand::rng().sample_iter(&rand::distr::Alphanumeric).take(length).map(char::from).collect()
}

/// The sub-array name with the given suffix.
pub fn md_name(suffix: &str) -> (name: String)
    ensures
        name@ == MD_PREFIX@ + suffix@,
{
    MD_PREFIX.to_owned().concat(suffix)
}

/// The volume-group name with the given suffix.
pub fn vg_name(suffix: &str) -> (name: String)
    ensures
        name@ == VG_PREFIX@ + suffix@,
{
    VG_PREFIX.to_owned().concat(suffix)
}

/// A fresh name for a sub-array.
pub fn fresh_md_name() -> (name: String)
    ensures
        is_md_name(name@),
{
    let suffix = random_string(MD_SUFFIX_LEN);
    md_name(suffix.as_str())
}

/// As many fresh names for sub-arrays as asked for.
pub fn fresh_md_names(count: usize) -> (names: Vec<String>)
    ensures
        names@.len() == count,
        forall|k: int| 0 <= k < count ==> is_md_name(#[trigger] texts(names@)[k]),
{
    let mut names: Vec<String> = Vec::new();
    let mut i: usize = 0;
    while i < count
        invariant
            0 <= i <= count,
            names@.len() == i,
            forall|k: int| 0 <= k < i ==> is_md_name(#[trigger] texts(names@)[k]),
        decreases count - i,
    {
        let ghost earlier = names@;
        names.push(fresh_md_name());
        proof {
            assert forall|k: int| 0 <= k < i + 1 implies is_md_name(
                #[trigger] texts(names@)[k],
            ) by {
                if k < i {
                    assert(texts(names@)[k] == texts(earlier)[k]);
                }
            }
        }
        i = i + 1;
    }
    names
}

/// A fresh name for a volume group.
pub fn fresh_vg_name() -> (name: String)
    ensures
        is_vg_name(name@),
{
    let suffix = random_string(VG_SUFFIX_LEN);
    vg_name(suffix.as_str())
}

} // verus!
