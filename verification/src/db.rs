//! The database of installed packages: one manifest per package under
//! `/var/lib/rad/installed`, listing the files that the package put on the system.
use vstd::prelude::*;
use crate::text::{chars_of, concat2, range_is, range_texts, split_by, split_ranges, text_of, views, Sep, sep_pred};

verus! {

/// The directory that holds the manifests of installed packages.
pub open spec fn spec_db_dir() -> Seq<char> {
    "/var/lib/rad/installed"@
}

/// The manifest of package `name`.
pub open spec fn spec_manifest_path(name: Seq<char>) -> Seq<char> {
    "/var/lib/rad/installed/"@ + name
}

/// The directory that holds the manifests of installed packages.
pub fn db_dir() -> (r: String)
    ensures
        r@ == spec_db_dir(),
{
    String::from_str("/var/lib/rad/installed")
}

/// The manifest of package `name`.
pub fn manifest_path(name: &str) -> (r: String)
    ensures
        r@ == spec_manifest_path(name@),
{
    concat2("/var/lib/rad/installed/", name)
}

/// Tells whether a file or directory exists at `path`, by
/// `std::path::Path::exists`. The answer depends on the file system at the
/// moment of the call, so nothing is stated of it.
#[verifier::external_body]
fn path_exists(path: &str) -> bool {
    std::path::Path::new(path).exists()
}

/// Whether package `name` is installed: whether its manifest exists. The
/// answer comes from the file system, so the contract states nothing of it.
pub fn is_installed(name: &str) -> bool {
    let path = manifest_path(name);
    path_exists(path.as_str())
}

/// A line without the carriage return that ends it, if it has one.
pub open spec fn strip_cr(l: Seq<char>) -> Seq<char> {
    if l.len() > 0 && l.last() == '\r' {
        l.drop_last()
    } else {
        l
    }
}

/// The lines of `s` as `str::lines` gives them: cut at each `\n`, a `\r`
/// before the `\n` dropped, and no empty line after a final `\n`.
pub open spec fn str_lines(s: Seq<char>) -> Seq<Seq<char>> {
    let pieces = split_by(s, |c: char| c == '\n');
    let terminated = pieces.drop_last().map_values(|l: Seq<char>| strip_cr(l));
    if pieces.last().len() == 0 {
        terminated
    } else {
        terminated.push(pieces.last())
    }
}

/// The file that no removal touches: the info directory index, shared by packages.
pub open spec fn shared_info_index() -> Seq<char> {
    "/usr/share/info/dir"@
}

/// The files that removing a package deletes: the lines of its manifest,
/// except the shared info directory index.
pub open spec fn spec_files_to_remove(manifest: Seq<char>) -> Seq<Seq<char>> {
    str_lines(manifest).filter(|l: Seq<char>| l != shared_info_index())
}

/// The files that removing a package with this manifest deletes, in order.
pub fn files_to_remove(manifest: &str) -> (r: Vec<String>)
    ensures
        views(r@) == spec_files_to_remove(manifest@),
{
    let v = chars_of(manifest);
    let rs = split_ranges(&v, 0, v.len(), Sep::Char('\n'));
    assert(v@.subrange(0, v@.len() as int) =~= v@);
    assert(sep_pred(Sep::Char('\n')) =~= (|c: char| c == '\n'));
    proof {
        crate::text::lemma_split_by_nonempty(manifest@, |c: char| c == '\n');
    }
    let ghost pieces = split_by(manifest@, |c: char| c == '\n');
    let ghost ls = str_lines(manifest@);
    let ghost keep = |l: Seq<char>| l != shared_info_index();
    assert(range_texts(v@, rs@) == pieces);
    let n = rs.len();
    let (la, lb) = rs[n - 1];
    assert(pieces.last() == v@.subrange(la as int, lb as int));
    let count = if la < lb {
        n
    } else {
        n - 1
    };
    assert(ls.len() == count);
    let mut r: Vec<String> = Vec::new();
    let mut k: usize = 0;
    while k < count
        invariant
            v@ == manifest@,
            n == rs@.len(),
            n >= 1,
            count <= n,
            ls.len() == count,
            k <= count,
            range_texts(v@, rs@) == pieces,
            pieces.len() == n,
            ls == str_lines(manifest@),
            pieces == split_by(manifest@, |c: char| c == '\n'),
            forall|j: int| 0 <= j < n ==> 0 <= #[trigger] rs@[j].0 <= rs@[j].1 <= v@.len(),
            keep == (|l: Seq<char>| l != shared_info_index()),
            views(r@) == ls.take(k as int).filter(keep),
        decreases count - k,
    {
        reveal_with_fuel(Seq::<_>::filter, 1);
        let (a, b0) = rs[k];
        assert(pieces[k as int] == v@.subrange(a as int, b0 as int));
        let b = if k + 1 < n && b0 > a && v[b0 - 1] == '\r' {
            b0 - 1
        } else {
            b0
        };
        assert(v@.subrange(a as int, b as int) == ls[k as int]) by {
            if k + 1 < n {
                assert(ls[k as int] == strip_cr(pieces[k as int]));
                if b0 > a && v@[b0 - 1] == '\r' {
                    assert(v@.subrange(a as int, b0 as int).drop_last() =~= v@.subrange(
                        a as int,
                        b as int,
                    ));
                }
            }
        }
        assert(ls.take(k + 1).drop_last() =~= ls.take(k as int));
        if !range_is(&v, a, b, "/usr/share/info/dir") {
            let t = text_of(manifest, a, b);
            let ghost before = r@;
            r.push(t);
            assert(views(r@) =~= views(before).push(t@));
        }
        k = k + 1;
    }
    assert(ls.take(count as int) =~= ls);
    r
}

/// Law: removing a package never deletes the shared info directory index,
/// whatever its manifest lists.
pub proof fn lemma_info_index_is_kept(manifest: Seq<char>)
    ensures
        !spec_files_to_remove(manifest).contains(shared_info_index()),
{
    let keep = |l: Seq<char>| l != shared_info_index();
    let f = str_lines(manifest).filter(keep);
    if f.contains(shared_info_index()) {
        let i = choose|i: int| 0 <= i < f.len() && f[i] == shared_info_index();
        str_lines(manifest).lemma_filter_pred(keep, i);
    }
}

} // verus!
