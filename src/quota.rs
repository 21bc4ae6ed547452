use vstd::prelude::*;

use crate::text::same_text;

verus! {

/// The most projects one user may own.
pub const MAX_PROJECTS_PER_USER: usize = 10;

/// A user's record: the user name and the names of the projects the user
/// owns, in the order they were added.
#[derive(Clone, Debug, PartialEq, Eq)]
pub struct UserData {
    pub github_username: String,
    pub projects: Vec<String>,
}

/// A user record as values: the user name and the project names.
pub type Record = (Seq<char>, Seq<Seq<char>>);

/// The texts that a sequence of strings holds.
pub open spec fn texts(v: Seq<String>) -> Seq<Seq<char>> {
    v.map_values(|s: String| s@)
}

impl View for UserData {
    type V = Record;

    open spec fn view(&self) -> Record {
        (self.github_username@, texts(self.projects@))
    }
}

#[verifier::external_type_specification]
#[verifier::external_body]
#[verifier::reject_recursive_types(K)]
#[verifier::reject_recursive_types(V)]
#[verifier::reject_recursive_types(S)]
pub struct ExDashMap<K, V, S>(dashmap::DashMap<K, V, S>);

/// What the in-memory mirror holds: user name to record.
pub uninterp spec fn mirror_records(m: dashmap::DashMap<String, UserData>) -> Map<Seq<char>, Record>;

/// Relies on dashmap::DashMap::new: a new map is empty.
#[verifier::external_body]
fn mirror_new() -> (r: dashmap::DashMap<String, UserData>)
    ensures
        mirror_records(r).dom() == Set::<Seq<char>>::empty(),
{
    dashmap::DashMap::new()
}

/// Relies on dashmap::DashMap::get: the value stored under `key`, if any
/// (cloned out of the shard guard).
#[verifier::external_body]
fn mirror_get(m: &dashmap::DashMap<String, UserData>, key: &str) -> (r: Option<UserData>)
    ensures
        r is Some <==> mirror_records(*m).contains_key(key@),
        r matches Some(d) ==> d@ == mirror_records(*m)[key@],
{
    m.get(key).map(|entry| entry.value().clone())
}

/// Relies on dashmap::DashMap::insert: afterwards `key` maps to `value` and
/// every other key is untouched.
#[verifier::external_body]
fn mirror_insert(m: &mut dashmap::DashMap<String, UserData>, key: String, value: UserData)
    ensures
        mirror_records(*final(m)) == mirror_records(*old(m)).insert(key@, value@),
{
    m.insert(key, value);
}


/// `p` is among the names in `ps`.
pub open spec fn owns(ps: Seq<Seq<char>>, p: Seq<char>) -> bool {
    ps.contains(p)
}

/// Whether a user with these records may upload project `p`: yes unless the
/// user already owns the maximum number of projects and `p` is not one of them.
pub open spec fn may_upload(records: Map<Seq<char>, Record>, u: Seq<char>, p: Seq<char>) -> bool {
    !records.contains_key(u) || records[u].1.len() < MAX_PROJECTS_PER_USER || owns(records[u].1, p)
}

/// The project list after adding `p`: unchanged where `p` is present, else
/// with `p` at the end.
pub open spec fn projects_with(ps: Seq<Seq<char>>, p: Seq<char>) -> Seq<Seq<char>> {
    if owns(ps, p) {
        ps
    } else {
        ps.push(p)
    }
}

/// The project list with every `p` taken out, the rest in order.
pub open spec fn projects_without(ps: Seq<Seq<char>>, p: Seq<char>) -> Seq<Seq<char>>
    decreases ps.len(),
{
    if ps.len() == 0 {
        ps
    } else if ps.last() == p {
        projects_without(ps.drop_last(), p)
    } else {
        projects_without(ps.drop_last(), p).push(ps.last())
    }
}

/// The record of `u` after adding `p`; a new record where there was none.
pub open spec fn record_with(records: Map<Seq<char>, Record>, u: Seq<char>, p: Seq<char>) -> Record {
    if records.contains_key(u) {
        (records[u].0, projects_with(records[u].1, p))
    } else {
        (u, seq![p])
    }
}

/// The record of `u` after removing `p`, where `u` has one.
pub open spec fn record_without(records: Map<Seq<char>, Record>, u: Seq<char>, p: Seq<char>) -> Record {
    (records[u].0, projects_without(records[u].1, p))
}

/// The records that loading these (name, record) entries in order gives: a
/// later entry for a name replaces an earlier one.
pub open spec fn loaded_records(entries: Seq<(Seq<char>, Record)>) -> Map<Seq<char>, Record>
    decreases entries.len(),
{
    if entries.len() == 0 {
        Map::empty()
    } else {
        loaded_records(entries.drop_last()).insert(entries.last().0, entries.last().1)
    }
}

/// The values of a sequence of decoded store entries.
pub open spec fn entry_values(entries: Seq<(String, UserData)>) -> Seq<(Seq<char>, Record)> {
    entries.map_values(|e: (String, UserData)| (e.0@, e.1@))
}

/// Whether `name` is among `projects`.
pub fn contains_project(projects: &Vec<String>, name: &str) -> (r: bool)
    ensures
        r == owns(texts(projects@), name@),
{
    let mut i: usize = 0;
    while i < projects.len()
        invariant
            i <= projects@.len(),
            forall|j: int| 0 <= j < i ==> projects@[j]@ != name@,
        decreases projects@.len() - i,
    {
        if same_text(projects[i].as_str(), name) {
            assert(texts(projects@)[i as int] == name@);
            return true;
        }
        i += 1;
    }
    assert(!texts(projects@).contains(name@)) by {
        if texts(projects@).contains(name@) {
            let j = choose|j: int| 0 <= j < texts(projects@).len() && texts(projects@)[j] == name@;
            assert(projects@[j]@ == name@);
        }
    }
    false
}

/// A copy of `projects`, name by name.
fn copy_projects(projects: &Vec<String>) -> (r: Vec<String>)
    ensures
        texts(r@) == texts(projects@),
{
    let mut out: Vec<String> = Vec::new();
    let mut i: usize = 0;
    while i < projects.len()
        invariant
            i <= projects@.len(),
            texts(out@) =~= texts(projects@).take(i as int),
        decreases projects@.len() - i,
    {
        let ghost before = out@;
        out.push(projects[i].clone());
        assert(texts(out@) =~= texts(before).push(projects@[i as int]@));
        assert(texts(projects@).take(i + 1) =~= texts(projects@).take(i as int).push(
            projects@[i as int]@,
        ));
        i += 1;
    }
    assert(texts(projects@).take(projects@.len() as int) =~= texts(projects@));
    out
}

/// `projects` with every `name` taken out, the rest in order.
fn projects_without_name(projects: &Vec<String>, name: &str) -> (r: Vec<String>)
    ensures
        texts(r@) == projects_without(texts(projects@), name@),
{
    let mut out: Vec<String> = Vec::new();
    let mut i: usize = 0;
    while i < projects.len()
        invariant
            i <= projects@.len(),
            texts(out@) == projects_without(texts(projects@).take(i as int), name@),
        decreases projects@.len() - i,
    {
        let ghost before = texts(projects@).take(i as int);
        assert(texts(projects@).take(i + 1).drop_last() =~= before);
        if !same_text(projects[i].as_str(), name) {
            out.push(projects[i].clone());
            assert(texts(out@) =~= projects_without(before, name@).push(projects@[i as int]@));
        }
        i += 1;
    }
    assert(texts(projects@).take(projects@.len() as int) =~= texts(projects@));
    out
}

/// The authorization store: each user's record, kept in a concurrent
/// in-memory mirror of the durable store.
pub struct GitHubAuth {
    user_projects: dashmap::DashMap<String, UserData>,
}

impl GitHubAuth {
    /// The records, by user name.
    pub closed spec fn records(&self) -> Map<Seq<char>, Record> {
        mirror_records(self.user_projects)
    }

    /// The store loaded from decoded durable entries, in the order the
    /// startup scan met them.
    pub fn new(entries: Vec<(String, UserData)>) -> (r: Self)
        ensures
            r.records() == loaded_records(entry_values(entries@)),
    {
        let ghost all = entry_values(entries@);
        let mut rest = entries;
        let mut user_projects = mirror_new();
        let ghost mut taken: int = 0;
        assert(all.take(0) =~= Seq::<(Seq<char>, Record)>::empty());
        assert(loaded_records(all.take(0)) =~= mirror_records(user_projects));
        while rest.len() > 0
            invariant
                0 <= taken <= all.len(),
                entry_values(rest@) =~= all.skip(taken),
                mirror_records(user_projects) == loaded_records(all.take(taken)),
            decreases rest@.len(),
        {
            let ghost before = rest@;
            let (name, data) = rest.remove(0);
            assert(entry_values(rest@) =~= entry_values(before).skip(1));
            assert(all[taken] == (name@, data@)) by {
                assert(entry_values(before)[0] == all.skip(taken)[0]);
            }
            assert(all.take(taken + 1).drop_last() =~= all.take(taken));
            mirror_insert(&mut user_projects, name, data);
            proof {
                taken = taken + 1;
            }
        }
        assert(all.take(taken) =~= all);
        GitHubAuth { user_projects }
    }

    /// Whether `username` may upload `project_name`: always, unless the user
    /// owns the maximum number of projects and this is not one of them.
    pub fn can_upload_project(&self, username: &str, project_name: &str) -> (r: bool)
        ensures
            r == may_upload(self.records(), username@, project_name@),
    {
        match mirror_get(&self.user_projects, username) {
            Some(data) => data.projects.len() < MAX_PROJECTS_PER_USER || contains_project(
                &data.projects,
                project_name,
            ),
            None => true,
        }
    }

    /// The record of `username` as it would be after adding `project_name`.
    /// Nothing is changed.
    pub fn record_after_add(&self, username: &str, project_name: &str) -> (r: UserData)
        ensures
            r@ == record_with(self.records(), username@, project_name@),
    {
        match mirror_get(&self.user_projects, username) {
            Some(data) => {
                let mut projects = data.projects;
                if !contains_project(&projects, project_name) {
                    projects.push(project_name.to_owned());
                    assert(texts(projects@) =~= texts(data.projects@).push(project_name@));
                }
                UserData { github_username: data.github_username, projects }
            },
            None => {
                let mut projects: Vec<String> = Vec::new();
                projects.push(project_name.to_owned());
                assert(texts(projects@) =~= seq![project_name@]);
                UserData { github_username: username.to_owned(), projects }
            },
        }
    }

    /// The record of `username` as it would be after removing
    /// `project_name`; `None` where the user has no record. Nothing is changed.
    pub fn record_after_remove(&self, username: &str, project_name: &str) -> (r: Option<UserData>)
        ensures
            r is Some <==> self.records().contains_key(username@),
            r matches Some(d) ==> d@ == record_without(self.records(), username@, project_name@),
    {
        match mirror_get(&self.user_projects, username) {
            Some(data) => {
                let projects = projects_without_name(&data.projects, project_name);
                Some(UserData { github_username: data.github_username, projects })
            },
            None => None,
        }
    }

    /// Makes `record` the record of `username`.
    pub fn store_record(&mut self, username: String, record: UserData)
        ensures
            final(self).records() == old(self).records().insert(username@, record@),
    {
        mirror_insert(&mut self.user_projects, username, record);
    }

    /// Adds `project_name` to the projects of `username` (creating the record
    /// where there is none; a project already present is not added twice) and
    /// returns the new record, for the durable store. The quota is not checked
    /// here: callers check `can_upload_project` first.
    pub fn add_project(&mut self, username: &str, project_name: &str) -> (r: UserData)
        ensures
            r@ == record_with(old(self).records(), username@, project_name@),
            final(self).records() == old(self).records().insert(username@, r@),
    {
        let record = self.record_after_add(username, project_name);
        let stored = UserData {
            github_username: record.github_username.clone(),
            projects: copy_projects(&record.projects),
        };
        self.store_record(username.to_owned(), stored);
        record
    }

    /// Removes `project_name` from the projects of `username` and returns the
    /// new record, for the durable store; where the user has no record nothing
    /// changes and `None` comes back.
    pub fn remove_project(&mut self, username: &str, project_name: &str) -> (r: Option<UserData>)
        ensures
            r is Some <==> old(self).records().contains_key(username@),
            r is None ==> final(self).records() == old(self).records(),
            r matches Some(d) ==> d@ == record_without(old(self).records(), username@, project_name@)
                && final(self).records() == old(self).records().insert(username@, d@),
    {
        match self.record_after_remove(username, project_name) {
            Some(record) => {
                let stored = UserData {
                    github_username: record.github_username.clone(),
                    projects: copy_projects(&record.projects),
                };
                self.store_record(username.to_owned(), stored);
                Some(record)
            },
            None => None,
        }
    }

    /// The projects of `username`, in the order they were added; `None` where
    /// the user has no record. A user who removed every project still has a
    /// record, with an empty list.
    pub fn get_user_projects(&self, username: &str) -> (r: Option<Vec<String>>)
        ensures
            r is Some <==> self.records().contains_key(username@),
            r matches Some(v) ==> texts(v@) == self.records()[username@].1,
    {
        match mirror_get(&self.user_projects, username) {
            Some(data) => Some(data.projects),
            None => None,
        }
    }
}


/// The records after `u` adds each of `ps` in turn.
pub open spec fn after_adds(records: Map<Seq<char>, Record>, u: Seq<char>, ps: Seq<Seq<char>>) -> Map<
    Seq<char>,
    Record,
>
    decreases ps.len(),
{
    if ps.len() == 0 {
        records
    } else {
        let before = after_adds(records, u, ps.drop_last());
        before.insert(u, record_with(before, u, ps.last()))
    }
}

proof fn lemma_adds_distinct(records: Map<Seq<char>, Record>, u: Seq<char>, ps: Seq<Seq<char>>)
    requires
        !records.contains_key(u),
        ps.len() > 0,
        ps.no_duplicates(),
    ensures
        after_adds(records, u, ps).contains_key(u),
        after_adds(records, u, ps)[u].1 == ps,
    decreases ps.len(),
{
    let init = ps.drop_last();
    if ps.len() == 1 {
        assert(init.len() == 0);
        assert(after_adds(records, u, init) == records);
        assert(seq![ps.last()] =~= ps);
    } else {
        assert(init.no_duplicates());
        lemma_adds_distinct(records, u, init);
        assert(!init.contains(ps.last())) by {
            if init.contains(ps.last()) {
                let j = choose|j: int| 0 <= j < init.len() && init[j] == ps.last();
                assert(ps[j] == ps[ps.len() - 1]);
            }
        }
        assert(init.push(ps.last()) =~= ps);
    }
}

/// A user who owns fewer than the maximum number of projects may upload any
/// project; once a user has added the maximum number of distinct projects,
/// every other project is refused while each of those may still be uploaded
/// again.
pub proof fn quota_law(records: Map<Seq<char>, Record>, u: Seq<char>, ps: Seq<Seq<char>>, p: Seq<char>)
    requires
        !records.contains_key(u),
        ps.len() == MAX_PROJECTS_PER_USER,
        ps.no_duplicates(),
    ensures
        forall|k: int|
            0 <= k < MAX_PROJECTS_PER_USER ==> may_upload(
                #[trigger] after_adds(records, u, ps.take(k)),
                u,
                p,
            ),
        !ps.contains(p) ==> !may_upload(after_adds(records, u, ps), u, p),
        forall|k: int| 0 <= k < ps.len() ==> may_upload(after_adds(records, u, ps), u, #[trigger] ps[k]),
{
    assert forall|k: int| 0 <= k < MAX_PROJECTS_PER_USER implies may_upload(
        #[trigger] after_adds(records, u, ps.take(k)),
        u,
        p,
    ) by {
        if k > 0 {
            let pre = ps.take(k);
            assert(pre.no_duplicates()) by {
                assert forall|a: int, b: int| 0 <= a < pre.len() && 0 <= b < pre.len() && a != b implies pre[a] != pre[b] by {
                    assert(pre[a] == ps[a] && pre[b] == ps[b]);
                }
            }
            lemma_adds_distinct(records, u, pre);
        }
    }
    lemma_adds_distinct(records, u, ps);
    assert forall|k: int| 0 <= k < ps.len() implies may_upload(after_adds(records, u, ps), u, #[trigger] ps[k]) by {
        assert(after_adds(records, u, ps)[u].1[k] == ps[k]);
    }
}

/// `p` stands at most once in `ps`.
pub open spec fn at_most_once(ps: Seq<Seq<char>>, p: Seq<char>) -> bool {
    forall|i: int, j: int| 0 <= i < ps.len() && 0 <= j < ps.len() && ps[i] == p && ps[j] == p ==> i == j
}

/// `p` stands exactly once in `ps`.
pub open spec fn exactly_once(ps: Seq<Seq<char>>, p: Seq<char>) -> bool {
    owns(ps, p) && at_most_once(ps, p)
}

/// Adding the same project twice changes nothing the second time, and the
/// project is then listed exactly once (where it was not already listed
/// twice or more).
pub proof fn add_twice_law(records: Map<Seq<char>, Record>, u: Seq<char>, p: Seq<char>)
    requires
        records.contains_key(u) ==> at_most_once(records[u].1, p),
    ensures
        ({
            let once = records.insert(u, record_with(records, u, p));
            let twice = once.insert(u, record_with(once, u, p));
            &&& twice == once
            &&& exactly_once(twice[u].1, p)
        }),
{
    let once = records.insert(u, record_with(records, u, p));
    let ps = once[u].1;
    if records.contains_key(u) {
        let old_ps = records[u].1;
        if !old_ps.contains(p) {
            assert(ps[old_ps.len() as int] == p);
            assert forall|a: int, b: int| 0 <= a < ps.len() && 0 <= b < ps.len() && ps[a] == p && ps[b] == p implies a == b by {
                if a < old_ps.len() {
                    assert(old_ps[a] == p);
                }
                if b < old_ps.len() {
                    assert(old_ps[b] == p);
                }
            }
        }
    } else {
        assert(ps[0] == p);
    }
    assert(owns(ps, p));
    assert(once.insert(u, record_with(once, u, p)) =~= once);
}

proof fn lemma_loaded(entries: Seq<(Seq<char>, Record)>)
    requires
        forall|i: int, j: int| 0 <= i < j < entries.len() ==> entries[i].0 != entries[j].0,
    ensures
        forall|k: Seq<char>|
            #[trigger] loaded_records(entries).contains_key(k) <==> exists|i: int|
                0 <= i < entries.len() && entries[i].0 == k,
        forall|i: int|
            0 <= i < entries.len() ==> #[trigger] loaded_records(entries)[entries[i].0]
                == entries[i].1,
    decreases entries.len(),
{
    if entries.len() > 0 {
        let init = entries.drop_last();
        lemma_loaded(init);
        let last = entries.len() - 1;
        assert(loaded_records(entries) == loaded_records(init).insert(entries[last].0, entries[last].1));
        assert forall|k: Seq<char>| #[trigger] loaded_records(entries).contains_key(k) <==> exists|i: int|
            0 <= i < entries.len() && entries[i].0 == k by {
            if loaded_records(entries).contains_key(k) && k != entries[last].0 {
                assert(loaded_records(init).contains_key(k));
                let i = choose|i: int| 0 <= i < init.len() && init[i].0 == k;
                assert(entries[i].0 == k);
            }
            if exists|i: int| 0 <= i < entries.len() && entries[i].0 == k {
                let i = choose|i: int| 0 <= i < entries.len() && entries[i].0 == k;
                if i < last {
                    assert(init[i].0 == k);
                }
            }
        }
        assert forall|i: int| 0 <= i < entries.len() implies #[trigger] loaded_records(entries)[entries[i].0]
            == entries[i].1 by {
            if i < last {
                assert(init[i] == entries[i]);
                assert(entries[i].0 != entries[last].0);
            }
        }
    }
}

/// Writing out every record, one entry per user in any order, and loading
/// those entries again gives back the same records.
pub proof fn reload_law(records: Map<Seq<char>, Record>, entries: Seq<(Seq<char>, Record)>)
    requires
        forall|i: int, j: int| 0 <= i < j < entries.len() ==> entries[i].0 != entries[j].0,
        forall|i: int|
            0 <= i < entries.len() ==> records.contains_key(#[trigger] entries[i].0)
                && entries[i].1 == records[entries[i].0],
        forall|k: Seq<char>|
            #[trigger] records.contains_key(k) ==> exists|i: int|
                0 <= i < entries.len() && entries[i].0 == k,
    ensures
        loaded_records(entries) == records,
{
    lemma_loaded(entries);
    assert forall|k: Seq<char>| #[trigger] records.contains_key(k) implies loaded_records(entries)[k]
        == records[k] by {
        let i = choose|i: int| 0 <= i < entries.len() && entries[i].0 == k;
        assert(loaded_records(entries)[entries[i].0] == entries[i].1);
    }
    assert(loaded_records(entries) =~= records);
}

proof fn lemma_without_absent(ps: Seq<Seq<char>>, p: Seq<char>)
    requires
        !ps.contains(p),
    ensures
        projects_without(ps, p) == ps,
    decreases ps.len(),
{
    if ps.len() > 0 {
        let init = ps.drop_last();
        assert(!init.contains(p)) by {
            if init.contains(p) {
                let j = choose|j: int| 0 <= j < init.len() && init[j] == p;
                assert(ps[j] == p);
            }
        }
        assert(ps.last() != p) by {
            assert(ps[ps.len() - 1] == ps.last());
        }
        lemma_without_absent(init, p);
        assert(init.push(ps.last()) =~= ps);
    }
}

/// Removing a project that the user does not own leaves every record as it
/// was (a user with no record keeps having none: see `remove_project`).
pub proof fn remove_absent_law(records: Map<Seq<char>, Record>, u: Seq<char>, p: Seq<char>)
    requires
        records.contains_key(u) ==> !owns(records[u].1, p),
    ensures
        records.contains_key(u) ==> records.insert(u, record_without(records, u, p)) == records,
{
    if records.contains_key(u) {
        lemma_without_absent(records[u].1, p);
        assert(records.insert(u, record_without(records, u, p)) =~= records);
    }
}

} // verus!
