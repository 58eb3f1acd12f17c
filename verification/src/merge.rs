//! Merging staged files into the system: each file is first copied next to
//! its destination under a temporary name, then renamed over it.
use vstd::prelude::*;
use crate::text::concat2;

verus! {

/// The extension of a path as `std::path::Path::extension` gives it.
pub uninterp spec fn path_extension(path: Seq<char>) -> Option<Seq<char>>;

/// The path that `std::path::Path::with_extension` makes of `path` and `ext`.
pub uninterp spec fn path_with_extension(path: Seq<char>, ext: Seq<char>) -> Seq<char>;

/// Whether `s` holds no path separator.
pub open spec fn no_separator(s: Seq<char>) -> bool {
    forall|i: int| 0 <= i < s.len() ==> s[i] != '/'
}

/// The extension of `path`, by `std::path::Path::extension`: the text after
/// the last dot of the file name, none when the name has no dot or only a
/// leading one. The contract names the result and claims one more thing: as
/// a part of the final path component, the extension holds no separator.
#[verifier::external_body]
fn extension_of(path: &str) -> (r: Option<String>)
    ensures
        match r {
            Some(e) => path_extension(path@) == Some(e@) && no_separator(e@),
            None => path_extension(path@) is None,
        },
{
    std::path::Path::new(path).extension().and_then(|e| e.to_str()).map(|e| e.to_string())
}

/// `path` with its extension replaced by `ext`, by
/// `std::path::Path::with_extension`, which panics when `ext` holds a path
/// separator; `requires` leaves such an `ext` out. The contract names the
/// result and claims nothing more.
#[verifier::external_body]
fn with_extension_of(path: &str, ext: &str) -> (r: String)
    requires
        no_separator(ext@),
    ensures
        r@ == path_with_extension(path@, ext@),
{
    std::path::Path::new(path).with_extension(ext).to_string_lossy().into_owned()
}

/// The extension of the temporary copy: the destination's own extension, if
/// any, followed by `.rad_new`.
pub open spec fn spec_tmp_extension(ext: Option<Seq<char>>) -> Seq<char> {
    match ext {
        Some(e) => e + ".rad_new"@,
        None => ".rad_new"@,
    }
}

/// The extension of the temporary copy of a file whose extension is `ext`.
pub fn tmp_extension(ext: &Option<String>) -> (r: String)
    ensures
        r@ == spec_tmp_extension(
            match ext {
                Some(e) => Some(e@),
                None => None,
            },
        ),
{
    match ext {
        Some(e) => concat2(e.as_str(), ".rad_new"),
        None => String::from_str(".rad_new"),
    }
}

/// The temporary path under which a file is copied before it is renamed to `dest`.
pub fn atomic_tmp_path(dest: &str) -> (r: String)
    ensures
        r@ == path_with_extension(dest@, spec_tmp_extension(path_extension(dest@))),
{
    let ext = extension_of(dest);
    let tmp = tmp_extension(&ext);
    proof {
        reveal_strlit(".rad_new");
        assert(no_separator(tmp@)) by {
            if let Some(e) = ext {
                assert(tmp@ == e@ + ".rad_new"@);
                assert forall|i: int| 0 <= i < tmp@.len() implies tmp@[i] != '/' by {
                    if i >= e@.len() {
                        assert(tmp@[i] == ".rad_new"@[i - e@.len()]);
                    }
                }
            }
        }
    }
    with_extension_of(dest, tmp.as_str())
}

} // verus!
