//! Finding the package manager of a LibreOffice installation.

use crate::refresh::{candidate_views, libreoffice_of, CandidateRegKey, CandidateView, LibreOffice};
use vstd::prelude::*;
use vstd::string::*;

verus! {

pub const PROGRAM_DIR: &'static str = "program";

pub const UNOPKG_FILE: &'static str = "unopkg.com";

/// The entry at `i` is the first that describes a LibreOffice installation.
pub open spec fn first_install_at(candidates: Seq<CandidateView>, i: int) -> bool {
    &&& 0 <= i < candidates.len()
    &&& libreoffice_of(candidates[i]) is Some
    &&& forall|k: int| 0 <= k < i ==> libreoffice_of(#[trigger] candidates[k]) is None
}

/// Where the first LibreOffice installation among the entries is installed.
pub open spec fn first_install(candidates: Seq<CandidateView>) -> Option<Seq<char>> {
    if exists|i: int| first_install_at(candidates, i) {
        libreoffice_of(candidates[choose|i: int| first_install_at(candidates, i)])
    } else {
        None
    }
}

/// There is one first installation at most.
pub proof fn lemma_first_install_unique(candidates: Seq<CandidateView>, i: int, j: int)
    requires
        first_install_at(candidates, i),
        first_install_at(candidates, j),
    ensures
        i == j,
{
    if i < j {
        assert(libreoffice_of(candidates[i]) is None);
    } else if j < i {
        assert(libreoffice_of(candidates[j]) is None);
    }
}

/// The first LibreOffice installation among the entries of installed
/// programs.
pub fn find_libreoffice(candidates: &Vec<CandidateRegKey>) -> (r: Option<LibreOffice>)
    ensures
        match r {
            Some(office) => first_install(candidate_views(candidates@)) == Some(
                office.install_path@,
            ),
            None => first_install(candidate_views(candidates@)) is None,
        },
{
    let ghost all = candidate_views(candidates@);
    let n: usize = candidates.len();
    let mut i: usize = 0;
    while i < n
        invariant
            all == candidate_views(candidates@),
            n == candidates.len(),
            i <= n,
            forall|k: int| 0 <= k < i ==> libreoffice_of(#[trigger] all[k]) is None,
        decreases n - i,
    {
        assert(all[i as int] == candidates[i as int]@);
        match candidates[i].validate_libreoffice() {
            Some(office) => {
                proof {
                    assert(first_install_at(all, i as int));
                    lemma_first_install_unique(
                        all,
                        i as int,
                        choose|j: int| first_install_at(all, j),
                    );
                }
                return Some(office);
            },
            None => {},
        }
        i = i + 1;
    }
    assert forall|j: int| !first_install_at(all, j) by {
        if 0 <= j < all.len() {
            assert(libreoffice_of(all[j]) is None);
        }
    }
    None
}

/// Calls `std::path::Path::join`, which puts `child` behind `base` with the
/// separator of the platform it runs on. Nothing is claimed of the result.
#[verifier::external_body]
fn join_path(base: &str, child: &str) -> (r: String) {
    std::path::Path::new(base).join(child).to_string_lossy().into_owned()
}

/// Where the package manager of the first LibreOffice installation among the
/// entries should be: the file `unopkg.com` in the directory `program` of
/// the installation. Whether the file is there is for the caller to see.
pub fn find_unopkg(candidates: &Vec<CandidateRegKey>) -> (r: Option<String>)
    ensures
        r is Some <==> first_install(candidate_views(candidates@)) is Some,
{
    match find_libreoffice(candidates) {
        None => None,
        Some(office) => {
            let program: String = join_path(office.install_path.as_str(), PROGRAM_DIR);
            Some(join_path(program.as_str(), UNOPKG_FILE))
        },
    }
}

} // verus!
