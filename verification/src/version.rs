//! Packed Vulkan-style version numbers and the application description
//! that carries one.
use vstd::prelude::*;
use crate::text::{parse_u32, parse_u32_spec, split_on, split_text};

verus! {

/// The packed form of a version: variant in the top three bits, then ten
/// bits of major, ten of minor and twelve of patch (each part shifted
/// into place and truncated to 32 bits, then or-ed together).
pub open spec fn packed_version(variant: u32, major: u32, minor: u32, patch: u32) -> u32 {
    (variant << 29u32) | (major << 22u32) | (minor << 12u32) | patch
}

/// `ash::vk::make_api_version`, whose body is
/// `(variant << 29) | (major << 22) | (minor << 12) | patch` on `u32`:
/// the contract claims exactly that expression.
#[verifier::external_body]
fn make_api_version(variant: u32, major: u32, minor: u32, patch: u32) -> (r: u32)
    ensures
        r == packed_version(variant, major, minor, patch),
{
    ash::vk::make_api_version(variant, major, minor, patch)
}

/// The numbers of the dot-separated pieces of a version text that parse
/// as `u32`, in order; pieces that do not parse are skipped.
pub open spec fn version_numbers(pieces: Seq<Seq<char>>) -> Seq<u32>
    decreases pieces.len(),
{
    if pieces.len() == 0 {
        Seq::empty()
    } else {
        let rest = version_numbers(pieces.drop_last());
        match parse_u32_spec(pieces.last()) {
            Some(v) => rest.push(v),
            None => rest,
        }
    }
}

/// The `k`-th number counted from the end (0 is the last), or 0 when
/// there are not that many.
pub open spec fn from_end(nums: Seq<u32>, k: int) -> u32 {
    if 0 <= k < nums.len() {
        nums[nums.len() - 1 - k]
    } else {
        0
    }
}

/// The packed version that a text such as "1.3.0" stands for: the last
/// number is the patch, then minor, major and variant; missing parts are 0.
pub open spec fn version_text_value(s: Seq<char>) -> u32 {
    let nums = version_numbers(split_on(s, '.'));
    packed_version(from_end(nums, 3), from_end(nums, 2), from_end(nums, 1), from_end(nums, 0))
}

/// A value that names a version.
pub trait ApiVersion {
    spec fn api_value(&self) -> u32;

    fn as_api(&self) -> (r: u32)
        ensures
            r == self.api_value(),
    ;
}

/// (variant, major, minor, patch).
impl ApiVersion for (u32, u32, u32, u32) {
    open spec fn api_value(&self) -> u32 {
        packed_version(self.0, self.1, self.2, self.3)
    }

    fn as_api(&self) -> (r: u32) {
        make_api_version(self.0, self.1, self.2, self.3)
    }
}

/// An already packed version.
impl ApiVersion for u32 {
    open spec fn api_value(&self) -> u32 {
        *self
    }

    fn as_api(&self) -> (r: u32) {
        *self
    }
}

/// A dotted version text.
impl<'a> ApiVersion for &'a str {
    open spec fn api_value(&self) -> u32 {
        version_text_value((*self)@)
    }

    fn as_api(&self) -> (r: u32) {
        version_of_text(*self)
    }
}

/// The packed version of a dotted text.
pub fn version_of_text(s: &str) -> (r: u32)
    ensures
        r == version_text_value(s@),
{
    let pieces = split_text(s, '.');
    let ghost views = split_on(s@, '.');
    let mut nums: Vec<u32> = Vec::new();
    let mut i: usize = 0;
    while i < pieces.len()
        invariant
            i <= pieces@.len(),
            pieces@.len() == views.len(),
            forall|k: int| 0 <= k < pieces@.len() ==> #[trigger] pieces@[k]@ == views[k],
            nums@ == version_numbers(views.take(i as int)),
        decreases pieces.len() - i,
    {
        assert(views.take(i + 1).drop_last() =~= views.take(i as int));
        assert(views.take(i + 1).last() == views[i as int]);
        match parse_u32(pieces[i].as_str()) {
            Some(v) => nums.push(v),
            None => {},
        }
        i = i + 1;
    }
    assert(views.take(pieces@.len() as int) =~= views);
    let n = nums.len();
    let patch = if n > 0 {
        nums[n - 1]
    } else {
        0
    };
    let minor = if n > 1 {
        nums[n - 2]
    } else {
        0
    };
    let major = if n > 2 {
        nums[n - 3]
    } else {
        0
    };
    let variant = if n > 3 {
        nums[n - 4]
    } else {
        0
    };
    make_api_version(variant, major, minor, patch)
}

/// The name and version an application announces to the renderer.
#[derive(Clone, Debug)]
pub struct ApplicationInfo {
    pub name: String,
    pub api_version: u32,
}

impl ApplicationInfo {
    /// An unnamed application at version 0.
    pub fn default_info() -> (r: Self)
        ensures
            r.name@ == Seq::<char>::empty(),
            r.api_version == 0,
    {
        ApplicationInfo { name: String::new(), api_version: 0 }
    }
}

impl Default for ApplicationInfo {
    fn default() -> (r: Self)
        ensures
            r.name@ == Seq::<char>::empty(),
            r.api_version == 0,
    {
        ApplicationInfo::default_info()
    }
}

} // verus!
