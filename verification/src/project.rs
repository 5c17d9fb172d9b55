//! The record type, lookup by name, and upsert by name.

use vstd::prelude::*;
use vstd::string::StrSliceExecFns;

verus! {

/// The status of a project: exactly one of three variants.
#[derive(Clone, Copy, Debug, PartialEq, Eq, Structural)]
pub enum Status {
    Active,
    Inactive,
    Archived,
}

/// One record of the collection, identified by its `name`.
///
/// `focus` is a percentage, conventionally 0 to 100; the range is a
/// convention of the data, not a constraint the type enforces.
#[derive(Clone, Debug)]
pub struct Project {
    pub name: String,
    pub status: Status,
    pub focus: u8,
}

/// The mathematical value of a record: the name as a sequence of
/// characters, together with the status and the focus.
pub struct ProjectView {
    pub name: Seq<char>,
    pub status: Status,
    pub focus: u8,
}

impl View for Project {
    type V = ProjectView;

    open spec fn view(&self) -> ProjectView {
        ProjectView { name: self.name@, status: self.status, focus: self.focus }
    }
}

impl DeepView for Project {
    type V = ProjectView;

    open spec fn deep_view(&self) -> ProjectView {
        self.view()
    }
}

/// The error kinds of the store.
#[derive(Clone, Copy, Debug, PartialEq, Eq, Structural)]
pub enum StoreError {
    /// The data file does not exist.
    NotFound,
    /// The file cannot be opened, created or written.
    IOError,
    /// The file contents are not a valid serialized collection.
    DeserializationError,
}

/// Index of the first record named `name` in `s`, or -1 if none is.
pub open spec fn find_idx(s: Seq<ProjectView>, name: Seq<char>) -> int
    decreases s.len(),
{
    if s.len() == 0 {
        -1
    } else if s[0].name == name {
        0
    } else {
        let r = find_idx(s.drop_first(), name);
        if r == -1 {
            -1
        } else {
            r + 1
        }
    }
}

/// Lookup correctness: `find_idx` returns -1 exactly when no record has
/// the name, and otherwise the smallest index of a record that has it.
pub proof fn lemma_find_idx_props(s: Seq<ProjectView>, name: Seq<char>)
    ensures
        find_idx(s, name) == -1 ==> forall|i: int| 0 <= i < s.len() ==> s[i].name != name,
        find_idx(s, name) != -1 ==> {
            &&& 0 <= find_idx(s, name) < s.len()
            &&& s[find_idx(s, name)].name == name
            &&& forall|i: int| 0 <= i < find_idx(s, name) ==> s[i].name != name
        },
    decreases s.len(),
{
    if s.len() == 0 {
    } else if s[0].name == name {
    } else {
        lemma_find_idx_props(s.drop_first(), name);
        assert forall|i: int| 1 <= i < s.len() implies s[i] == s.drop_first()[i - 1] by {}
    }
}

/// The first matching index is unique: an index that matches, with no
/// match before it, is what `find_idx` returns.
pub proof fn lemma_find_idx_is_first(s: Seq<ProjectView>, name: Seq<char>, i: int)
    requires
        0 <= i < s.len(),
        s[i].name == name,
        forall|j: int| 0 <= j < i ==> s[j].name != name,
    ensures
        find_idx(s, name) == i,
    decreases s.len(),
{
    if s[0].name == name {
    } else {
        assert forall|j: int| 1 <= j < s.len() implies s[j] == s.drop_first()[j - 1] by {}
        lemma_find_idx_is_first(s.drop_first(), name, i - 1);
    }
}

/// When no record matches, `find_idx` reports so.
pub proof fn lemma_find_idx_none(s: Seq<ProjectView>, name: Seq<char>)
    requires
        forall|i: int| 0 <= i < s.len() ==> s[i].name != name,
    ensures
        find_idx(s, name) == -1,
{
    lemma_find_idx_props(s, name);
}

/// What upsert does to the collection: replace the first record of the
/// same name, or append when none has it.
pub open spec fn spec_upsert(s: Seq<ProjectView>, p: ProjectView) -> Seq<ProjectView> {
    let i = find_idx(s, p.name);
    if i == -1 {
        s.push(p)
    } else {
        s.update(i, p)
    }
}

/// Character-for-character equality of two string slices.
pub fn str_eq(a: &str, b: &str) -> (r: bool)
    ensures
        r == (a@ == b@),
{
    let alen = a.unicode_len();
    let blen = b.unicode_len();
    if alen != blen {
        return false;
    }
    let mut i: usize = 0;
    while i < alen
        invariant
            alen == a@.len(),
            alen == b@.len(),
            0 <= i <= alen,
            forall|j: int| 0 <= j < i ==> a@[j] == b@[j],
        decreases alen - i,
    {
        if a.get_char(i) != b.get_char(i) {
            return false;
        }
        i += 1;
    }
    proof {
        assert(a@ =~= b@);
    }
    true
}

/// Linear scan: the first record whose name equals `query`, or `None`.
///
/// The reference returned is to the record inside the slice itself, at
/// the first matching position.
pub fn find_project_by_name<'a>(projects: &'a [Project], query: &str) -> (r: Option<
    &'a Project,
>)
    ensures
        match r {
            Some(p) => {
                &&& find_idx(projects.deep_view(), query@) >= 0
                &&& p@ == projects.deep_view()[find_idx(projects.deep_view(), query@)]
                &&& p@.name == query@
            },
            None => find_idx(projects.deep_view(), query@) == -1,
        },
{
    let ghost s = projects.deep_view();
    let n = projects.len();
    let mut i: usize = 0;
    while i < n
        invariant
            n == projects@.len(),
            s == projects.deep_view(),
            0 <= i <= n,
            forall|j: int| 0 <= j < i ==> s[j].name != query@,
        decreases n - i,
    {
        if str_eq(projects[i].name.as_str(), query) {
            proof {
                lemma_find_idx_is_first(s, query@, i as int);
            }
            return Some(&projects[i]);
        }
        i += 1;
    }
    proof {
        lemma_find_idx_none(s, query@);
    }
    None
}

/// Upsert: replace the first record named like `new_project`, or append
/// `new_project` when no record has its name. Order of the other records
/// is kept; a replaced record keeps its position.
pub fn update_or_add_project(projects: &mut Vec<Project>, new_project: Project)
    ensures
        final(projects).deep_view() == spec_upsert(old(projects).deep_view(), new_project@),
        find_idx(old(projects).deep_view(), new_project@.name) != -1 ==> final(projects)@.len()
            == old(projects)@.len(),
        find_idx(old(projects).deep_view(), new_project@.name) == -1 ==> final(projects)@.len()
            == old(projects)@.len() + 1,
{
    let ghost s = projects.deep_view();
    let n = projects.len();
    let mut i: usize = 0;
    while i < n
        invariant
            n == projects@.len(),
            s == projects.deep_view(),
            *projects == *old(projects),
            0 <= i <= n,
            forall|j: int| 0 <= j < i ==> s[j].name != new_project@.name,
        decreases n - i,
    {
        if str_eq(projects[i].name.as_str(), new_project.name.as_str()) {
            proof {
                lemma_find_idx_is_first(s, new_project@.name, i as int);
            }
            projects[i] = new_project;
            proof {
                assert(projects.deep_view() =~= s.update(i as int, new_project@));
            }
            return ;
        }
        i += 1;
    }
    proof {
        lemma_find_idx_none(s, new_project@.name);
    }
    projects.push(new_project);
    proof {
        assert(projects.deep_view() =~= s.push(new_project@));
    }
}

/// Upsert idempotence: upserting the same record twice leaves the same
/// collection as upserting it once.
pub proof fn lemma_upsert_idempotent(s: Seq<ProjectView>, p: ProjectView)
    ensures
        spec_upsert(spec_upsert(s, p), p) == spec_upsert(s, p),
{
    let i = find_idx(s, p.name);
    lemma_find_idx_props(s, p.name);
    if i == -1 {
        let s1 = s.push(p);
        lemma_find_idx_is_first(s1, p.name, s.len() as int);
        assert(s1.update(s.len() as int, p) =~= s1);
    } else {
        let s1 = s.update(i, p);
        lemma_find_idx_is_first(s1, p.name, i);
        assert(s1.update(i, p) =~= s1);
    }
}

/// Upsert-update keeps the size; upsert-insert grows it by one.
pub proof fn lemma_upsert_len(s: Seq<ProjectView>, p: ProjectView)
    ensures
        find_idx(s, p.name) != -1 ==> spec_upsert(s, p).len() == s.len(),
        find_idx(s, p.name) == -1 ==> spec_upsert(s, p).len() == s.len() + 1,
{
    lemma_find_idx_props(s, p.name);
}

} // verus!
