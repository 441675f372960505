//! Registered repositories and nearest-repo resolution.

use vstd::prelude::*;

verus! {

/// A registered project directory together with its labels.
///
/// `path` holds the absolute path of the directory as its sequence of
/// components below the filesystem root. `labels` holds the repo's tags in
/// insertion order; a well-formed repo carries no duplicate labels, so the
/// vector represents a set.
#[derive(Debug, Clone, PartialEq, Eq)]
pub struct Repo {
    pub path: Vec<String>,
    pub labels: Vec<String>,
}

/// Whether the directory with components `path` is an ancestor of, or equal
/// to, the directory with components `dir`.
pub open spec fn path_encloses(path: Seq<Seq<char>>, dir: Seq<Seq<char>>) -> bool {
    path.is_prefix_of(dir)
}

/// The index of the repo nearest to `dir`: among the repos whose directory
/// encloses `dir`, the deepest, and of equally deep matches the earliest.
pub open spec fn nearest_of(repos: Seq<Repo>, dir: Seq<Seq<char>>) -> Option<int>
    decreases repos.len(),
{
    if repos.len() == 0 {
        Option::None
    } else {
        let last = repos.len() - 1;
        let prev = nearest_of(repos.drop_last(), dir);
        if !path_encloses(repos[last].path_model(), dir) {
            prev
        } else {
            match prev {
                Option::Some(k) => if repos[last].path_model().len()
                    > repos[k].path_model().len() {
                    Option::Some(last)
                } else {
                    prev
                },
                Option::None => Option::Some(last),
            }
        }
    }
}

/// What `nearest_of` returns is a match, is at least as deep as every other
/// match, and is the earliest among the deepest matches; and it is absent
/// exactly when no repo encloses `dir`.
pub proof fn lemma_nearest_of(repos: Seq<Repo>, dir: Seq<Seq<char>>)
    ensures
        match nearest_of(repos, dir) {
            Option::Some(i) => {
                &&& 0 <= i < repos.len()
                &&& path_encloses(repos[i].path_model(), dir)
                &&& forall|j: int|
                    0 <= j < repos.len() && path_encloses(
                        #[trigger] repos[j].path_model(),
                        dir,
                    ) ==> repos[j].path_model().len() <= repos[i].path_model().len()
                &&& forall|j: int|
                    0 <= j < i && path_encloses(#[trigger] repos[j].path_model(), dir)
                        ==> repos[j].path_model().len() < repos[i].path_model().len()
            },
            Option::None => forall|j: int|
                0 <= j < repos.len() ==> !path_encloses(#[trigger] repos[j].path_model(), dir),
        },
    decreases repos.len(),
{
    if repos.len() > 0 {
        let sub = repos.drop_last();
        lemma_nearest_of(sub, dir);
        assert(forall|j: int| 0 <= j < sub.len() ==> sub[j] == repos[j]);
    }
}

impl Repo {
    /// The path, as a sequence of component character sequences.
    pub open spec fn path_model(self) -> Seq<Seq<char>> {
        self.path.deep_view()
    }

    /// The labels, as a sequence of character sequences.
    pub open spec fn labels_model(self) -> Seq<Seq<char>> {
        self.labels.deep_view()
    }

    /// A repo is well-formed when its labels hold no duplicates.
    pub open spec fn well_formed(self) -> bool {
        forall|i: int, j: int|
            0 <= i < j < self.labels@.len() ==> self.labels@[i]@ != self.labels@[j]@
    }

    /// Whether the repo carries the given label.
    pub open spec fn spec_has_label(self, label: Seq<char>) -> bool {
        self.labels_model().contains(label)
    }

    /// Whether the repo carries the given label.
    pub fn has_label(&self, label: &String) -> (found: bool)
        ensures
            found == self.spec_has_label(label@),
    {
        let mut i: usize = 0;
        while i < self.labels.len()
            invariant
                i <= self.labels@.len(),
                forall|j: int| 0 <= j < i ==> self.labels@[j]@ != label@,
            decreases self.labels@.len() - i,
        {
            if self.labels[i] == *label {
                assert(self.labels_model()[i as int] == label@);
                return true;
            }
            i += 1;
        }
        assert forall|k: int| 0 <= k < self.labels_model().len() implies self.labels_model()[k]
            != label@ by {
            assert(self.labels_model()[k] == self.labels@[k]@);
        }
        false
    }

    /// Whether this repo's directory is an ancestor of, or equal to, `dir`.
    pub fn encloses(&self, dir: &Vec<String>) -> (enc: bool)
        ensures
            enc == path_encloses(self.path_model(), dir.deep_view()),
    {
        if self.path.len() > dir.len() {
            return false;
        }
        let mut i: usize = 0;
        while i < self.path.len()
            invariant
                i <= self.path@.len() <= dir@.len(),
                forall|j: int| 0 <= j < i ==> self.path@[j]@ == dir@[j]@,
            decreases self.path@.len() - i,
        {
            if self.path[i] != dir[i] {
                assert(self.path_model()[i as int] != dir.deep_view()[i as int]);
                return false;
            }
            i += 1;
        }
        assert(self.path_model() =~= dir.deep_view().subrange(0, self.path@.len() as int));
        true
    }

    /// The index of the repo nearest to `directory`: the deepest of the
    /// repos whose directory encloses it, and of equally deep matches the
    /// earliest; absent when no repo encloses it.
    pub fn find_nearest(repos: &Vec<Repo>, directory: &Vec<String>) -> (found: Option<usize>)
        ensures
            match found {
                Option::Some(i) => i < repos@.len() && nearest_of(repos@, directory.deep_view())
                    == Option::Some(i as int),
                Option::None => nearest_of(repos@, directory.deep_view()) is None,
            },
    {
        let ghost dir = directory.deep_view();
        let mut best: Option<usize> = Option::None;
        let mut i: usize = 0;
        while i < repos.len()
            invariant
                i <= repos@.len(),
                match best {
                    Option::Some(b) => b < i && nearest_of(repos@.take(i as int), dir)
                        == Option::Some(b as int),
                    Option::None => nearest_of(repos@.take(i as int), dir) is None,
                },
                dir == directory.deep_view(),
            decreases repos@.len() - i,
        {
            let enc = repos[i].encloses(directory);
            proof {
                let prefix1 = repos@.take(i + 1 as int);
                assert(prefix1.drop_last() =~= repos@.take(i as int));
                assert(prefix1[i as int] == repos@[i as int]);
            }
            if enc {
                best = match best {
                    Option::Some(b) => {
                        if repos[i].path.len() > repos[b].path.len() {
                            Option::Some(i)
                        } else {
                            Option::Some(b)
                        }
                    },
                    Option::None => Option::Some(i),
                };
            }
            i += 1;
        }
        proof {
            assert(repos@.take(repos@.len() as int) =~= repos@);
        }
        best
    }
}

} // verus!
