//! The registry of known repositories and the operations on it.
//!
//! The manager owns the in-memory registry. Loading and saving the registry
//! file, checking which registered paths still exist on disk, and running
//! batch commands are the embedding program's work; the manager takes their
//! outcomes as plain values (the current directory as path components, a
//! liveness flag per record) and decides everything else.

use vstd::prelude::*;

use crate::batch_filter::BatchFilter;
use crate::batch_filter::FilterExpr;
use crate::errors::RepoError;
use crate::repo::nearest_of;
use crate::repo::Repo;

verus! {

/// The registry records that survive pruning: those whose `alive` flag is
/// set, in registry order.
pub open spec fn retained(repos: Seq<Repo>, alive: Seq<bool>) -> Seq<Repo>
    decreases repos.len(),
{
    if repos.len() == 0 {
        Seq::empty()
    } else if alive[repos.len() - 1] {
        retained(repos.drop_last(), alive.drop_last()).push(repos.last())
    } else {
        retained(repos.drop_last(), alive.drop_last())
    }
}

/// Law: when every record is still alive, pruning keeps the registry as it
/// stands; reloading a freshly saved registry loses nothing.
pub proof fn lemma_retained_all_alive(repos: Seq<Repo>, alive: Seq<bool>)
    requires
        repos.len() == alive.len(),
        forall|i: int| 0 <= i < alive.len() ==> alive[i],
    ensures
        retained(repos, alive) == repos,
    decreases repos.len(),
{
    if repos.len() > 0 {
        lemma_retained_all_alive(repos.drop_last(), alive.drop_last());
        assert(retained(repos, alive) =~= repos);
    }
}

/// The labels with every occurrence of `label` dropped, in order.
pub open spec fn without_label(labels: Seq<String>, label: Seq<char>) -> Seq<String> {
    labels.filter(|l: String| l@ != label)
}

/// Every element of `without_label(labels, label)` is an element of
/// `labels`.
proof fn lemma_without_label_membership(labels: Seq<String>, label: Seq<char>, k: int)
    requires
        0 <= k < without_label(labels, label).len(),
    ensures
        exists|m: int| 0 <= m < labels.len() && labels[m] == without_label(labels, label)[k],
    decreases labels.len(),
{
    reveal_with_fuel(Seq::<_>::filter, 2);
    if labels.len() > 0 {
        let shorter = labels.drop_last();
        if k < without_label(shorter, label).len() {
            lemma_without_label_membership(shorter, label, k);
            let m = choose|m: int|
                0 <= m < shorter.len() && shorter[m] == without_label(shorter, label)[k];
            assert(labels[m] == without_label(labels, label)[k]);
        } else {
            assert(labels[labels.len() - 1] == without_label(labels, label)[k]);
        }
    }
}

/// Dropping a label keeps the remaining labels free of duplicates.
proof fn lemma_without_label_unique(labels: Seq<String>, label: Seq<char>)
    requires
        forall|i: int, j: int| 0 <= i < j < labels.len() ==> labels[i]@ != labels[j]@,
    ensures
        forall|i: int, j: int|
            0 <= i < j < without_label(labels, label).len() ==> without_label(labels, label)[i]@
                != without_label(labels, label)[j]@,
    decreases labels.len(),
{
    reveal_with_fuel(Seq::<_>::filter, 2);
    if labels.len() > 0 {
        let shorter = labels.drop_last();
        lemma_without_label_unique(shorter, label);
        let filtered = without_label(labels, label);
        assert forall|i: int, j: int| 0 <= i < j < filtered.len() implies filtered[i]@
            != filtered[j]@ by {
            if j == without_label(shorter, label).len() && labels.last()@ != label {
                lemma_without_label_membership(shorter, label, i);
                let m = choose|m: int|
                    0 <= m < shorter.len() && shorter[m] == without_label(shorter, label)[i];
                assert(labels[m]@ != labels[labels.len() - 1]@);
            }
        }
    }
}

/// Whether some record in `repos` has exactly the path `path`.
pub open spec fn spec_registered(repos: Seq<Repo>, path: Seq<Seq<char>>) -> bool {
    exists|i: int| 0 <= i < repos.len() && (#[trigger] repos[i].path_model()) == path
}

/// Whether two paths have the same components.
pub fn paths_equal(a: &Vec<String>, b: &Vec<String>) -> (eq: bool)
    ensures
        eq == (a.deep_view() == b.deep_view()),
{
    if a.len() != b.len() {
        proof {
            assert(a.deep_view().len() == a@.len());
            assert(b.deep_view().len() == b@.len());
        }
        return false;
    }
    let mut i: usize = 0;
    while i < a.len()
        invariant
            i <= a@.len() == b@.len(),
            forall|j: int| 0 <= j < i ==> a@[j]@ == b@[j]@,
        decreases a@.len() - i,
    {
        if a[i] != b[i] {
            assert(a.deep_view()[i as int] != b.deep_view()[i as int]);
            return false;
        }
        i += 1;
    }
    proof {
        assert(a.deep_view() =~= b.deep_view());
    }
    true
}

/// The in-memory registry, the path of the file it is persisted in, and the
/// directory that template definitions are read from.
#[derive(Debug)]
pub struct RepoManager {
    pub repos: Vec<Repo>,
    pub repos_file: Vec<String>,
    pub template_dir: Vec<String>,
}

impl RepoManager {
    /// A well-formed registry: no two records share a path, and every
    /// record's labels hold no duplicates.
    pub open spec fn well_formed(self) -> bool {
        &&& forall|i: int, j: int|
            #![trigger self.repos@[i].path_model(), self.repos@[j].path_model()]
            0 <= i < j < self.repos@.len() ==> self.repos@[i].path_model()
                != self.repos@[j].path_model()
        &&& forall|i: int| 0 <= i < self.repos@.len() ==> (#[trigger] self.repos@[i]).well_formed()
    }

    /// A manager over the given registry and configuration paths.
    pub fn new(repos: Vec<Repo>, repos_file: Vec<String>, template_dir: Vec<String>) -> (manager:
        Self)
        ensures
            manager.repos == repos,
            manager.repos_file == repos_file,
            manager.template_dir == template_dir,
    {
        RepoManager { repos, repos_file, template_dir }
    }

    /// Drops every record whose `alive` flag is cleared — a record whose
    /// directory no longer exists — keeping the others in registry order.
    pub fn prune_removed_repos(repos: &mut Vec<Repo>, alive: &Vec<bool>)
        requires
            old(repos)@.len() == alive@.len(),
        ensures
            final(repos)@ == retained(old(repos)@, alive@),
    {
        let ghost orig = old(repos)@;
        let total = alive.len();
        let mut kept: Vec<Repo> = Vec::new();
        let mut i: usize = 0;
        proof {
            assert(orig.take(0) =~= Seq::<Repo>::empty());
            assert(alive@.take(0) =~= Seq::<bool>::empty());
        }
        while repos.len() > 0
            invariant
                orig.len() == alive@.len(),
                total == alive@.len(),
                i + repos@.len() == total,
                repos@ == orig.skip(i as int),
                kept@ == retained(orig.take(i as int), alive@.take(i as int)),
            decreases repos@.len(),
        {
            let record = repos.remove(0);
            proof {
                assert(orig.skip(i as int).remove(0) =~= orig.skip(i as int + 1));
            }
            if alive[i] {
                kept.push(record);
            }
            i += 1;
            proof {
                assert(orig.take(i as int).drop_last() =~= orig.take(i as int - 1));
                assert(alive@.take(i as int).drop_last() =~= alive@.take(i as int - 1));
                assert(orig.take(i as int).last() == orig[i as int - 1]);
            }
        }
        proof {
            assert(orig.take(orig.len() as int) =~= orig);
            assert(alive@.take(alive@.len() as int) =~= alive@);
        }
        *repos = kept;
    }

    /// The index of the registered repo nearest to `current_dir`: the
    /// deepest of the records whose directory encloses it.
    pub fn nearest_repo(&self, current_dir: &Vec<String>) -> (found: Option<usize>)
        ensures
            match found {
                Option::Some(i) => i < self.repos@.len() && nearest_of(
                    self.repos@,
                    current_dir.deep_view(),
                ) == Option::Some(i as int),
                Option::None => nearest_of(self.repos@, current_dir.deep_view()) is None,
            },
    {
        Repo::find_nearest(&self.repos, current_dir)
    }

    /// The variable mapping for rendering a new project's templates: it
    /// binds `project_name` to the project's name and `author` to the fixed
    /// author.
    pub fn create_template_globals(&self, project_name: &String) -> (vars: Vec<(String, String)>)
        ensures
            vars@.len() == 2,
            vars@[0].0@ == "project_name"@,
            vars@[0].1@ == project_name@,
            vars@[1].0@ == "author"@,
            vars@[1].1@ == "PurpleMyst"@,
    {
        let mut vars: Vec<(String, String)> = Vec::new();
        vars.push(("project_name".to_owned(), project_name.clone()));
        vars.push(("author".to_owned(), "PurpleMyst".to_owned()));
        vars
    }

    /// The labels of the repo nearest to `current_dir`; an error when no
    /// registered repo encloses it.
    pub fn list_labels(&self, current_dir: &Vec<String>) -> (labels: Result<&Vec<String>, RepoError>)
        ensures
            match labels {
                Ok(l) => match nearest_of(self.repos@, current_dir.deep_view()) {
                    Option::Some(i) => *l == self.repos@[i].labels,
                    Option::None => false,
                },
                Err(e) => e == RepoError::NoEnclosingRepo && nearest_of(
                    self.repos@,
                    current_dir.deep_view(),
                ) is None,
            },
    {
        match Repo::find_nearest(&self.repos, current_dir) {
            Option::Some(i) => Ok(&self.repos[i].labels),
            Option::None => Err(RepoError::NoEnclosingRepo),
        }
    }

    /// Adds `label` to the repo nearest to `current_dir`. Fails, mutating
    /// nothing, when no registered repo encloses `current_dir` and when the
    /// repo already carries the label — so a well-formed registry stays
    /// well-formed.
    pub fn add_label(&mut self, current_dir: &Vec<String>, label: String) -> (outcome: Result<
        (),
        RepoError,
    >)
        ensures
            old(self).well_formed() ==> final(self).well_formed(),
            match nearest_of(old(self).repos@, current_dir.deep_view()) {
                Option::Some(i) => {
                    if old(self).repos@[i].spec_has_label(label@) {
                        &&& outcome == Err::<(), RepoError>(RepoError::DuplicateLabel { label })
                        &&& *final(self) == *old(self)
                    } else {
                        &&& outcome == Ok::<(), RepoError>(())
                        &&& final(self).repos@.len() == old(self).repos@.len()
                        &&& forall|j: int|
                            0 <= j < old(self).repos@.len() && j != i ==> final(self).repos@[j]
                                == old(self).repos@[j]
                        &&& final(self).repos@[i].path == old(self).repos@[i].path
                        &&& final(self).repos@[i].labels@ == old(self).repos@[i].labels@.push(
                            label,
                        )
                        &&& final(self).repos_file == old(self).repos_file
                        &&& final(self).template_dir == old(self).template_dir
                    }
                },
                Option::None => outcome == Err::<(), RepoError>(RepoError::NoEnclosingRepo)
                    && *final(self) == *old(self),
            },
    {
        match Repo::find_nearest(&self.repos, current_dir) {
            Option::Some(i) => {
                if self.repos[i].has_label(&label) {
                    Err(RepoError::DuplicateLabel { label })
                } else {
                    let ghost pre = self.repos@;
                    let mut record = self.repos.remove(i);
                    record.labels.push(label);
                    self.repos.insert(i, record);
                    proof {
                        assert forall|j: int|
                            0 <= j < pre.len() && j != i as int implies self.repos@[j]
                            == pre[j] by {
                            let rebuilt = pre.remove(i as int).insert(i as int, record);
                            assert(self.repos@[j] == rebuilt[j]);
                        }
                        assert(self.repos@[i as int] == record);
                        if old(self).well_formed() {
                            let n = self.repos@.len();
                            let old_labels = pre[i as int].labels@;
                            assert forall|a: int| 0 <= a < n implies (
                            #[trigger] self.repos@[a]).well_formed() by {
                                if a == i as int {
                                    assert(record.labels@ == old_labels.push(label));
                                    assert forall|x: int, y: int|
                                        0 <= x < y < record.labels@.len() implies record.labels@[x]@
                                        != record.labels@[y]@ by {
                                        if y == old_labels.len() {
                                            assert(pre[i as int].labels_model()[x]
                                                == old_labels[x]@);
                                            if old_labels[x]@ == label@ {
                                                assert(pre[i as int].labels_model().contains(
                                                    label@,
                                                ));
                                            }
                                        } else {
                                            assert(pre[i as int].well_formed());
                                        }
                                    }
                                } else {
                                    assert(self.repos@[a] == pre[a]);
                                    assert(pre[a].well_formed());
                                }
                            }
                            assert forall|a: int, b: int|
                                #![trigger self.repos@[a].path_model(), self.repos@[b].path_model()]
                                0 <= a < b < n implies self.repos@[a].path_model()
                                != self.repos@[b].path_model() by {
                                assert(self.repos@[a].path == pre[a].path);
                                assert(self.repos@[b].path == pre[b].path);
                                assert(pre[a].path_model() != pre[b].path_model());
                            }
                        }
                    }
                    Ok(())
                }
            },
            Option::None => Err(RepoError::NoEnclosingRepo),
        }
    }

    /// Removes `label` from the repo nearest to `current_dir`. Fails,
    /// mutating nothing, when no registered repo encloses `current_dir` and
    /// when the repo does not carry the label — so a well-formed registry
    /// stays well-formed.
    pub fn remove_label(&mut self, current_dir: &Vec<String>, label: &String) -> (outcome: Result<
        (),
        RepoError,
    >)
        ensures
            old(self).well_formed() ==> final(self).well_formed(),
            match nearest_of(old(self).repos@, current_dir.deep_view()) {
                Option::Some(i) => {
                    if old(self).repos@[i].spec_has_label(label@) {
                        &&& outcome == Ok::<(), RepoError>(())
                        &&& final(self).repos@.len() == old(self).repos@.len()
                        &&& forall|j: int|
                            0 <= j < old(self).repos@.len() && j != i ==> final(self).repos@[j]
                                == old(self).repos@[j]
                        &&& final(self).repos@[i].path == old(self).repos@[i].path
                        &&& final(self).repos@[i].labels@ == without_label(
                            old(self).repos@[i].labels@,
                            label@,
                        )
                        &&& final(self).repos_file == old(self).repos_file
                        &&& final(self).template_dir == old(self).template_dir
                    } else {
                        &&& outcome matches Err(e) && e matches RepoError::MissingLabel {
                            label: missing,
                        } && missing@ == label@
                        &&& *final(self) == *old(self)
                    }
                },
                Option::None => outcome == Err::<(), RepoError>(RepoError::NoEnclosingRepo)
                    && *final(self) == *old(self),
            },
    {
        match Repo::find_nearest(&self.repos, current_dir) {
            Option::Some(i) => {
                if !self.repos[i].has_label(label) {
                    Err(RepoError::MissingLabel { label: label.clone() })
                } else {
                    let ghost pre = self.repos@;
                    let mut record = self.repos.remove(i);
                    let ghost orig_labels = record.labels@;
                    let mut kept: Vec<String> = Vec::new();
                    let total = record.labels.len();
                    let mut j: usize = 0;
                    proof {
                        assert(orig_labels.take(0) =~= Seq::<String>::empty());
                        reveal_with_fuel(Seq::<_>::filter, 1);
                        assert(without_label(Seq::<String>::empty(), label@) =~= Seq::<
                            String,
                        >::empty());
                    }
                    while record.labels.len() > 0
                        invariant
                            total == orig_labels.len(),
                            j + record.labels@.len() == total,
                            record.path == pre[i as int].path,
                            i < pre.len(),
                            record.labels@ == orig_labels.skip(j as int),
                            kept@ == without_label(orig_labels.take(j as int), label@),
                        decreases record.labels@.len(),
                    {
                        let candidate = record.labels.remove(0);
                        proof {
                            assert(orig_labels.skip(j as int).remove(0) =~= orig_labels.skip(
                                j as int + 1,
                            ));
                            assert(candidate == orig_labels[j as int]);
                        }
                        let ghost pre_kept = kept@;
                        if candidate != *label {
                            kept.push(candidate);
                        }
                        j += 1;
                        proof {
                            let shorter = orig_labels.take(j as int - 1);
                            let longer = orig_labels.take(j as int);
                            assert(longer.drop_last() =~= shorter);
                            assert(longer.last() == orig_labels[j as int - 1]);
                            reveal_with_fuel(Seq::<_>::filter, 2);
                            assert(without_label(longer, label@) == if longer.last()@ != label@ {
                                without_label(shorter, label@).push(longer.last())
                            } else {
                                without_label(shorter, label@)
                            });
                            assert(kept@ == without_label(longer, label@));
                        }
                    }
                    proof {
                        assert(orig_labels.take(total as int) =~= orig_labels);
                    }
                    record.labels = kept;
                    self.repos.insert(i, record);
                    proof {
                        assert forall|k: int|
                            0 <= k < pre.len() && k != i as int implies self.repos@[k]
                            == pre[k] by {
                            let rebuilt = pre.remove(i as int).insert(i as int, record);
                            assert(self.repos@[k] == rebuilt[k]);
                        }
                        assert(self.repos@[i as int] == record);
                        if old(self).well_formed() {
                            let n = self.repos@.len();
                            assert forall|a: int| 0 <= a < n implies (
                            #[trigger] self.repos@[a]).well_formed() by {
                                if a == i as int {
                                    assert(pre[a].well_formed());
                                    lemma_without_label_unique(orig_labels, label@);
                                } else {
                                    assert(self.repos@[a] == pre[a]);
                                    assert(pre[a].well_formed());
                                }
                            }
                            assert forall|a: int, b: int|
                                #![trigger self.repos@[a].path_model(), self.repos@[b].path_model()]
                                0 <= a < b < n implies self.repos@[a].path_model()
                                != self.repos@[b].path_model() by {
                                assert(self.repos@[a].path == pre[a].path);
                                assert(self.repos@[b].path == pre[b].path);
                                assert(pre[a].path_model() != pre[b].path_model());
                            }
                        }
                    }
                    Ok(())
                }
            },
            Option::None => Err(RepoError::NoEnclosingRepo),
        }
    }

    /// Appends a record for a freshly created repo, with the given path and
    /// no labels. Fails, mutating nothing, when a record with this path is
    /// already registered, so a well-formed registry stays well-formed.
    pub fn register_repo(&mut self, path: Vec<String>) -> (outcome: Result<(), RepoError>)
        ensures
            old(self).well_formed() ==> final(self).well_formed(),
            match outcome {
                Ok(_) => {
                    &&& !spec_registered(old(self).repos@, path.deep_view())
                    &&& final(self).repos@.len() == old(self).repos@.len() + 1
                    &&& final(self).repos@.drop_last() == old(self).repos@
                    &&& final(self).repos@.last().path_model() == path.deep_view()
                    &&& final(self).repos@.last().labels@.len() == 0
                    &&& final(self).repos_file == old(self).repos_file
                    &&& final(self).template_dir == old(self).template_dir
                },
                Err(e) => {
                    &&& e == RepoError::AlreadyRegistered
                    &&& spec_registered(old(self).repos@, path.deep_view())
                    &&& *final(self) == *old(self)
                },
            },
    {
        let mut i: usize = 0;
        while i < self.repos.len()
            invariant
                i <= self.repos@.len(),
                forall|j: int|
                    0 <= j < i ==> (#[trigger] self.repos@[j].path_model()) != path.deep_view(),
            decreases self.repos@.len() - i,
        {
            if paths_equal(&self.repos[i].path, &path) {
                proof {
                    assert(self.repos@[i as int].path_model() == path.deep_view());
                }
                return Err(RepoError::AlreadyRegistered);
            }
            i += 1;
        }
        let record = Repo { path, labels: Vec::new() };
        self.repos.push(record);
        proof {
            assert(self.repos@.drop_last() =~= old(self).repos@);
        }
        Ok(())
    }

    /// The indices of the records that pass the filter, in registry order;
    /// with no filter, every record. The batch command runs in each of these
    /// repos' directories.
    pub fn batch_targets(&self, filter: &Option<FilterExpr>) -> (targets: Vec<usize>)
        ensures
            forall|k: int|
                0 <= k < targets@.len() ==> (#[trigger] targets@[k]) < self.repos@.len()
                    && filter.spec_passes(&self.repos@[targets@[k] as int]),
            forall|j: int|
                0 <= j < self.repos@.len() && filter.spec_passes(&self.repos@[j])
                    ==> targets@.contains(j as usize),
            forall|k1: int, k2: int|
                0 <= k1 < k2 < targets@.len() ==> targets@[k1] < targets@[k2],
    {
        let mut targets: Vec<usize> = Vec::new();
        let mut i: usize = 0;
        while i < self.repos.len()
            invariant
                i <= self.repos@.len(),
                forall|k: int|
                    0 <= k < targets@.len() ==> (#[trigger] targets@[k]) < i
                        && filter.spec_passes(&self.repos@[targets@[k] as int]),
                forall|j: int|
                    0 <= j < i && filter.spec_passes(&self.repos@[j]) ==> targets@.contains(
                        j as usize,
                    ),
                forall|k1: int, k2: int|
                    0 <= k1 < k2 < targets@.len() ==> targets@[k1] < targets@[k2],
            decreases self.repos@.len() - i,
        {
            let ghost pre = targets@;
            if filter.passes_through(&self.repos[i]) {
                targets.push(i);
            }
            proof {
                assert forall|j: int|
                    0 <= j < i + 1 && filter.spec_passes(&self.repos@[j]) implies targets@.contains(
                    j as usize,
                ) by {
                    if j < i {
                        let w = choose|w: int| 0 <= w < pre.len() && pre[w] == j as usize;
                        assert(targets@[w] == j as usize);
                    } else {
                        assert(targets@[targets@.len() - 1] == j as usize);
                    }
                }
            }
            i += 1;
        }
        targets
    }
}

} // verus!
