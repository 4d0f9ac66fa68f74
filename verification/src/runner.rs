//! The selection of the files to run.

use vstd::prelude::*;
use vstd::string::*;

verus! {

/// How deep below the root directory test files are looked for.
pub const TEST_FILES_MAX_DEPTH: u32 = 25;

/// The values of a list of paths, in order.
pub open spec fn path_views(paths: Seq<String>) -> Seq<Seq<char>> {
    Seq::new(paths.len(), |i: int| paths[i]@)
}

/// The test on a path that selection makes: the path is not excluded.
pub open spec fn not_excluded(excluded: Seq<Seq<char>>) -> spec_fn(Seq<char>) -> bool {
    |path: Seq<char>| !excluded.contains(path)
}

/// The paths to run: those that an include pattern matched and no exclude
/// pattern did, in the order in which they were found.
pub open spec fn selected(included: Seq<Seq<char>>, excluded: Seq<Seq<char>>) -> Seq<Seq<char>> {
    included.filter(not_excluded(excluded))
}

/// The entry point of a run.
pub struct Runner;

impl Runner {
    pub fn run() {
    }

    /// Whether `path` is one of `excluded`.
    pub fn is_excluded(path: &String, excluded: &Vec<String>) -> (found: bool)
        ensures
            found == path_views(excluded@).contains(path@),
    {
        let mut i: usize = 0;
        while i < excluded.len()
            invariant
                i <= excluded.len(),
                forall|j: int| 0 <= j < i ==> path_views(excluded@)[j] != path@,
            decreases excluded.len() - i,
        {
            if excluded[i] == *path {
                assert(path_views(excluded@)[i as int] == path@);
                return true;
            }
            i += 1;
        }
        false
    }

    /// Selects the test files of a run. `included` holds the paths that the
    /// include patterns matched, `excluded` those that the exclude patterns
    /// matched. A path is selected if it is in the first list and not in the
    /// second; the selected paths keep their order.
    pub fn select_test_files(included: &Vec<String>, excluded: &Vec<String>) -> (files: Vec<String>)
        ensures
            path_views(files@) == selected(path_views(included@), path_views(excluded@)),
    {
        let ghost keep = not_excluded(path_views(excluded@));
        let mut files: Vec<String> = Vec::new();
        let mut i: usize = 0;
        proof {
            reveal(Seq::filter);
            assert(path_views(included@).take(0) =~= Seq::empty());
            assert(path_views(files@) =~= Seq::empty());
        }
        while i < included.len()
            invariant
                i <= included.len(),
                keep == not_excluded(path_views(excluded@)),
                path_views(files@) == path_views(included@).take(i as int).filter(keep),
            decreases included.len() - i,
        {
            let excluded_here = Self::is_excluded(&included[i], excluded);
            proof {
                reveal(Seq::filter);
                let before = path_views(included@).take(i as int);
                let now = path_views(included@).take(i + 1);
                assert(now.drop_last() =~= before);
                assert(now.last() == included@[i as int]@);
                assert(keep(included@[i as int]@) == !excluded_here);
            }
            if !excluded_here {
                let ghost earlier = path_views(files@);
                files.push(included[i].clone());
                assert(path_views(files@) =~= earlier.push(included@[i as int]@));
            }
            i += 1;
        }
        assert(path_views(included@).take(included.len() as int) =~= path_views(included@));
        files
    }
}

} // verus!
