//! Data model of the duty-roster snapshot and directories.
//!
//! All ids are unsigned numbers; they travel as their decimal text in
//! templates and configuration lists.  Directories and snapshots are keyed
//! association lists with unique keys (the well-formedness below), looked up
//! by first match.

use vstd::prelude::*;

verus! {

/// The envelope every service reply arrives in.
#[derive(Debug, Clone)]
pub struct Wrapper<T> {
    pub data: T,
}

/// Display metadata of one user.
#[derive(Debug, Clone)]
pub struct User {
    pub name: String,
}

/// Display metadata of one status.
#[derive(Debug, Clone)]
pub struct Status {
    pub name: String,
    pub color_hex: String,
}

/// How many members one status has.
#[derive(Debug, Clone)]
pub struct BasicMonitorStatus {
    pub count: u32,
}

/// One member of a status's list.
#[derive(Debug, Clone)]
pub struct MonitorUser {
    pub id: u32,
}

/// The members of one status, in the order the service reports them.
#[derive(Debug, Clone)]
pub struct MonitorStatus {
    pub users: Vec<MonitorUser>,
}

/// Snapshot of the whole duty roster, keyed by status id: per-status member
/// counts and per-status member lists.  Replaced whole on every refresh,
/// never merged.
#[derive(Debug, Clone)]
pub struct Monitor {
    pub basic: Vec<(u32, BasicMonitorStatus)>,
    pub complex: Vec<(u32, MonitorStatus)>,
}

/// The caller's own current status id.
#[derive(Debug, Clone)]
pub struct UserStatus {
    pub status_id: u32,
}

/// Directory of users, keyed by user id.
pub type UserMap = Vec<(u32, User)>;

/// Directory of statuses, keyed by status id.
pub type StatusMap = Vec<(u32, Status)>;

/// First-match lookup in a keyed association list.
pub open spec fn spec_lookup<V>(m: Seq<(u32, V)>, id: u32) -> Option<V>
    decreases m.len(),
{
    if m.len() == 0 {
        None
    } else if m[0].0 == id {
        Some(m[0].1)
    } else {
        spec_lookup(m.drop_first(), id)
    }
}

proof fn lemma_lookup_at<V>(m: Seq<(u32, V)>, id: u32, i: int)
    requires
        0 <= i < m.len(),
        forall|k: int| 0 <= k < i ==> m[k].0 != id,
        m[i].0 == id,
    ensures
        spec_lookup(m, id) == Some(m[i].1),
    decreases i,
{
    if i > 0 {
        assert(forall|k: int| 0 <= k < i - 1 ==> m.drop_first()[k] == m[k + 1]);
        lemma_lookup_at(m.drop_first(), id, i - 1);
    }
}

proof fn lemma_lookup_absent<V>(m: Seq<(u32, V)>, id: u32)
    requires
        forall|k: int| 0 <= k < m.len() ==> m[k].0 != id,
    ensures
        spec_lookup(m, id) is None,
    decreases m.len(),
{
    if m.len() > 0 {
        assert(forall|k: int| 0 <= k < m.len() - 1 ==> m.drop_first()[k] == m[k + 1]);
        lemma_lookup_absent(m.drop_first(), id);
    }
}

/// First-match lookup of an id in a keyed association list.
pub fn find_by_id<'a, V>(m: &'a Vec<(u32, V)>, id: u32) -> (r: Option<&'a V>)
    ensures
        match r {
            Some(v) => spec_lookup(m@, id) == Some(*v),
            None => spec_lookup(m@, id) is None,
        },
{
    let mut i: usize = 0;
    while i < m.len()
        invariant
            i <= m.len(),
            forall|k: int| 0 <= k < i ==> m@[k].0 != id,
        decreases m.len() - i,
    {
        if m[i].0 == id {
            proof {
                lemma_lookup_at(m@, id, i as int);
            }
            return Some(&m[i].1);
        }
        i += 1;
    }
    proof {
        lemma_lookup_absent(m@, id);
    }
    None
}

impl UserStatus {
    /// A status value carrying the given id.
    pub fn new(status_id: u32) -> (r: Self)
        ensures
            r.status_id == status_id,
    {
        Self { status_id }
    }

    /// The status id itself.
    pub fn status_id(&self) -> (r: u32)
        ensures
            r == self.status_id,
    {
        self.status_id
    }
}

impl User {
    /// The display name.
    pub fn name(&self) -> (r: &String)
        ensures
            *r == self.name,
    {
        &self.name
    }
}

impl Status {
    /// The display name.
    pub fn name(&self) -> (r: &String)
        ensures
            *r == self.name,
    {
        &self.name
    }

    /// The display color, as a hex triple without `#`.
    pub fn color_hex(&self) -> (r: &String)
        ensures
            *r == self.color_hex,
    {
        &self.color_hex
    }
}

impl BasicMonitorStatus {
    /// The member count.
    pub fn count(&self) -> (r: u32)
        ensures
            r == self.count,
    {
        self.count
    }
}

impl MonitorUser {
    /// The user id.
    pub fn id(&self) -> (r: u32)
        ensures
            r == self.id,
    {
        self.id
    }
}

impl MonitorStatus {
    /// The member list.
    pub fn users(&self) -> (r: &Vec<MonitorUser>)
        ensures
            *r == self.users,
    {
        &self.users
    }
}

impl Monitor {
    /// The per-status counts.
    pub fn basic(&self) -> (r: &Vec<(u32, BasicMonitorStatus)>)
        ensures
            *r == self.basic,
    {
        &self.basic
    }

    /// The per-status member lists.
    pub fn complex(&self) -> (r: &Vec<(u32, MonitorStatus)>)
        ensures
            *r == self.complex,
    {
        &self.complex
    }

    /// Well-formedness of a snapshot: keys unique on both sides, every status
    /// id with a member list also has a count, and each count equals the
    /// length of its member list.
    pub open spec fn wf(&self) -> bool {
        &&& forall|i: int, j: int|
            0 <= i < j < self.basic@.len() ==> self.basic@[i].0 != self.basic@[j].0
        &&& forall|i: int, j: int|
            0 <= i < j < self.complex@.len() ==> self.complex@[i].0 != self.complex@[j].0
        &&& forall|i: int|
            0 <= i < self.complex@.len() ==> match spec_lookup(
                self.basic@,
                (#[trigger] self.complex@[i]).0,
            ) {
                Some(b) => b.count == self.complex@[i].1.users@.len(),
                None => false,
            }
    }
}

} // verus!
