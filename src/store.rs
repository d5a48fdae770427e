use crate::model::{Core, CoreRelease, CoreSystems, Platform, System, Team};
use vstd::prelude::*;

verus! {

/// The first element of `s` that satisfies `p`.
pub open spec fn first_match<T>(s: Seq<T>, p: spec_fn(T) -> bool) -> Option<T>
    decreases s.len(),
{
    if s.len() == 0 {
        None
    } else if p(s[0]) {
        Some(s[0])
    } else {
        first_match(s.skip(1), p)
    }
}

/// The first team with id `id`.
pub open spec fn team_with_id(teams: Seq<Team>, id: i32) -> Option<Team> {
    first_match(teams, |t: Team| t.id == id)
}

/// The first platform with id `id`.
pub open spec fn platform_with_id(platforms: Seq<Platform>, id: i32) -> Option<Platform> {
    first_match(platforms, |p: Platform| p.id == id)
}

/// The first system with id `id`.
pub open spec fn system_with_id(systems: Seq<System>, id: i32) -> Option<System> {
    first_match(systems, |s: System| s.id == id)
}

/// The first core with id `id`.
pub open spec fn core_with_id(cores: Seq<Core>, id: i32) -> Option<Core> {
    first_match(cores, |c: Core| c.id == id)
}

/// The first core with slug `slug`.
pub open spec fn core_with_slug(cores: Seq<Core>, slug: Seq<char>) -> Option<Core> {
    first_match(cores, |c: Core| c.slug@ == slug)
}

/// The systems linked to core `core_id`, in the order of the junction rows;
/// a junction row whose system is missing contributes nothing.
pub open spec fn systems_of(links: Seq<CoreSystems>, systems: Seq<System>, core_id: i32) -> Seq<
    System,
>
    decreases links.len(),
{
    if links.len() == 0 {
        seq![]
    } else {
        let rest = systems_of(links.drop_last(), systems, core_id);
        let l = links.last();
        if l.core_id == core_id && system_with_id(systems, l.system_id) is Some {
            rest.push(system_with_id(systems, l.system_id).unwrap())
        } else {
            rest
        }
    }
}

/// A core that no junction row names has an empty group of systems.
pub proof fn lemma_unlinked_core_has_no_systems(
    links: Seq<CoreSystems>,
    systems: Seq<System>,
    core_id: i32,
)
    requires
        forall|i: int| 0 <= i < links.len() ==> (#[trigger] links[i]).core_id != core_id,
    ensures
        systems_of(links, systems, core_id) == Seq::<System>::empty(),
    decreases links.len(),
{
    if links.len() > 0 {
        let init = links.drop_last();
        assert forall|i: int| 0 <= i < init.len() implies (#[trigger] init[i]).core_id != core_id by {
            assert(init[i] == links[i]);
        }
        lemma_unlinked_core_has_no_systems(init, systems, core_id);
        assert(links[links.len() - 1].core_id != core_id);
    }
}

proof fn lemma_first_match_step<T>(s: Seq<T>, p: spec_fn(T) -> bool, i: int)
    requires
        0 <= i < s.len(),
    ensures
        first_match(s.subrange(i, s.len() as int), p) == (if p(s[i]) {
            Some(s[i])
        } else {
            first_match(s.subrange(i + 1, s.len() as int), p)
        }),
{
    assert(s.subrange(i, s.len() as int).skip(1) =~= s.subrange(i + 1, s.len() as int));
}

pub(crate) proof fn lemma_first_match_found<T>(s: Seq<T>, p: spec_fn(T) -> bool)
    requires
        first_match(s, p) is Some,
    ensures
        s.contains(first_match(s, p).unwrap()),
        p(first_match(s, p).unwrap()),
    decreases s.len(),
{
    if !p(s[0]) {
        lemma_first_match_found(s.skip(1), p);
        let x = first_match(s, p).unwrap();
        let k = choose|k: int| 0 <= k < s.skip(1).len() && s.skip(1)[k] == x;
        assert(s[k + 1] == x);
    }
}

pub(crate) proof fn lemma_first_match_none<T>(s: Seq<T>, p: spec_fn(T) -> bool)
    requires
        first_match(s, p) is None,
    ensures
        forall|i: int| 0 <= i < s.len() ==> !p(#[trigger] s[i]),
    decreases s.len(),
{
    if s.len() > 0 {
        lemma_first_match_none(s.skip(1), p);
        assert forall|i: int| 0 <= i < s.len() implies !p(#[trigger] s[i]) by {
            if i > 0 {
                assert(s[i] == s.skip(1)[i - 1]);
            }
        }
    }
}

pub(crate) proof fn lemma_first_match_push<T>(s: Seq<T>, x: T, p: spec_fn(T) -> bool)
    ensures
        first_match(s.push(x), p) == (if first_match(s, p) is Some {
            first_match(s, p)
        } else if p(x) {
            Some(x)
        } else {
            None
        }),
    decreases s.len(),
{
    if s.len() == 0 {
        assert(s.push(x).skip(1) =~= s);
    } else {
        assert(s.push(x).skip(1) =~= s.skip(1).push(x));
        lemma_first_match_push(s.skip(1), x, p);
    }
}

/// The entity store: one table per kind of row, each in insertion order.
/// `next_core_id` is the id that the next core will get.
pub struct Store {
    pub teams: Vec<Team>,
    pub platforms: Vec<Platform>,
    pub systems: Vec<System>,
    pub cores: Vec<Core>,
    pub core_systems: Vec<CoreSystems>,
    pub core_releases: Vec<CoreRelease>,
    pub next_core_id: i32,
}

impl Store {
    /// The store's integrity constraints: every core has a unique id below
    /// `next_core_id`, a unique slug and an owning team; every junction row
    /// names an existing core and system, and no pair occurs twice.
    pub open spec fn wf(&self) -> bool {
        &&& forall|i: int, j: int|
            0 <= i < j < self.cores@.len() ==> self.cores@[i].id != self.cores@[j].id
                && self.cores@[i].slug@ != self.cores@[j].slug@
        &&& forall|i: int| 0 <= i < self.cores@.len() ==> self.cores@[i].id < self.next_core_id
        &&& forall|i: int|
            0 <= i < self.cores@.len() ==> team_with_id(
                self.teams@,
                #[trigger] self.cores@[i].owner_team_id,
            ) is Some
        &&& forall|i: int|
            0 <= i < self.core_systems@.len() ==> core_with_id(
                self.cores@,
                #[trigger] self.core_systems@[i].core_id,
            ) is Some && system_with_id(self.systems@, self.core_systems@[i].system_id) is Some
        &&& forall|i: int, j: int|
            0 <= i < j < self.core_systems@.len() ==> self.core_systems@[i]
                != self.core_systems@[j]
    }

    /// An empty store.
    pub fn new() -> (r: Store)
        ensures
            r.wf(),
            r.teams@.len() == 0,
            r.platforms@.len() == 0,
            r.systems@.len() == 0,
            r.cores@.len() == 0,
            r.core_systems@.len() == 0,
            r.core_releases@.len() == 0,
            r.next_core_id == 1,
    {
        Store {
            teams: Vec::new(),
            platforms: Vec::new(),
            systems: Vec::new(),
            cores: Vec::new(),
            core_systems: Vec::new(),
            core_releases: Vec::new(),
            next_core_id: 1,
        }
    }

    /// The team with id `id`, if there is one.
    pub fn find_team(&self, id: i32) -> (r: Option<&Team>)
        ensures
            match r {
                Some(t) => team_with_id(self.teams@, id) == Some(*t),
                None => team_with_id(self.teams@, id) is None,
            },
    {
        let mut i: usize = 0;
        proof {
            assert(self.teams@.subrange(0, self.teams@.len() as int) =~= self.teams@);
        }
        while i < self.teams.len()
            invariant
                i <= self.teams@.len(),
                team_with_id(self.teams@, id) == first_match(
                    self.teams@.subrange(i as int, self.teams@.len() as int),
                    |t: Team| t.id == id,
                ),
            decreases self.teams@.len() - i,
        {
            proof {
                lemma_first_match_step(self.teams@, |t: Team| t.id == id, i as int);
            }
            if self.teams[i].id == id {
                return Some(&self.teams[i]);
            }
            i += 1;
        }
        None
    }

    /// The platform with id `id`, if there is one.
    pub fn find_platform(&self, id: i32) -> (r: Option<&Platform>)
        ensures
            match r {
                Some(t) => platform_with_id(self.platforms@, id) == Some(*t),
                None => platform_with_id(self.platforms@, id) is None,
            },
    {
        let mut i: usize = 0;
        proof {
            assert(self.platforms@.subrange(0, self.platforms@.len() as int) =~= self.platforms@);
        }
        while i < self.platforms.len()
            invariant
                i <= self.platforms@.len(),
                platform_with_id(self.platforms@, id) == first_match(
                    self.platforms@.subrange(i as int, self.platforms@.len() as int),
                    |t: Platform| t.id == id,
                ),
            decreases self.platforms@.len() - i,
        {
            proof {
                lemma_first_match_step(self.platforms@, |t: Platform| t.id == id, i as int);
            }
            if self.platforms[i].id == id {
                return Some(&self.platforms[i]);
            }
            i += 1;
        }
        None
    }

    /// The system with id `id`, if there is one.
    pub fn find_system(&self, id: i32) -> (r: Option<&System>)
        ensures
            match r {
                Some(t) => system_with_id(self.systems@, id) == Some(*t),
                None => system_with_id(self.systems@, id) is None,
            },
    {
        let mut i: usize = 0;
        proof {
            assert(self.systems@.subrange(0, self.systems@.len() as int) =~= self.systems@);
        }
        while i < self.systems.len()
            invariant
                i <= self.systems@.len(),
                system_with_id(self.systems@, id) == first_match(
                    self.systems@.subrange(i as int, self.systems@.len() as int),
                    |t: System| t.id == id,
                ),
            decreases self.systems@.len() - i,
        {
            proof {
                lemma_first_match_step(self.systems@, |t: System| t.id == id, i as int);
            }
            if self.systems[i].id == id {
                return Some(&self.systems[i]);
            }
            i += 1;
        }
        None
    }

    /// The core with id `id`, if there is one.
    pub fn find_core(&self, id: i32) -> (r: Option<&Core>)
        ensures
            match r {
                Some(t) => core_with_id(self.cores@, id) == Some(*t),
                None => core_with_id(self.cores@, id) is None,
            },
    {
        let mut i: usize = 0;
        proof {
            assert(self.cores@.subrange(0, self.cores@.len() as int) =~= self.cores@);
        }
        while i < self.cores.len()
            invariant
                i <= self.cores@.len(),
                core_with_id(self.cores@, id) == first_match(
                    self.cores@.subrange(i as int, self.cores@.len() as int),
                    |t: Core| t.id == id,
                ),
            decreases self.cores@.len() - i,
        {
            proof {
                lemma_first_match_step(self.cores@, |t: Core| t.id == id, i as int);
            }
            if self.cores[i].id == id {
                return Some(&self.cores[i]);
            }
            i += 1;
        }
        None
    }

    /// The core with slug `slug`, if there is one.
    pub fn find_core_by_slug(&self, slug: &str) -> (r: Option<&Core>)
        ensures
            match r {
                Some(t) => core_with_slug(self.cores@, slug@) == Some(*t),
                None => core_with_slug(self.cores@, slug@) is None,
            },
    {
        let key = slug.to_owned();
        let mut i: usize = 0;
        proof {
            assert(self.cores@.subrange(0, self.cores@.len() as int) =~= self.cores@);
        }
        while i < self.cores.len()
            invariant
                i <= self.cores@.len(),
                key@ == slug@,
                core_with_slug(self.cores@, slug@) == first_match(
                    self.cores@.subrange(i as int, self.cores@.len() as int),
                    |t: Core| t.slug@ == slug@,
                ),
            decreases self.cores@.len() - i,
        {
            proof {
                lemma_first_match_step(self.cores@, |t: Core| t.slug@ == slug@, i as int);
            }
            if self.cores[i].slug.eq(&key) {
                return Some(&self.cores[i]);
            }
            i += 1;
        }
        None
    }

    /// The systems linked to core `core_id`, in junction order.
    pub fn systems_for(&self, core_id: i32) -> (r: Vec<System>)
        ensures
            r@ == systems_of(self.core_systems@, self.systems@, core_id),
    {
        let mut r: Vec<System> = Vec::new();
        let mut i: usize = 0;
        while i < self.core_systems.len()
            invariant
                i <= self.core_systems@.len(),
                r@ == systems_of(self.core_systems@.subrange(0, i as int), self.systems@, core_id),
            decreases self.core_systems@.len() - i,
        {
            let l = self.core_systems[i];
            proof {
                assert(self.core_systems@.subrange(0, i + 1).drop_last()
                    =~= self.core_systems@.subrange(0, i as int));
            }
            if l.core_id == core_id {
                match self.find_system(l.system_id) {
                    Some(s) => {
                        r.push(s.copy());
                    },
                    None => {},
                }
            }
            i += 1;
        }
        proof {
            assert(self.core_systems@.subrange(0, self.core_systems@.len() as int)
                =~= self.core_systems@);
        }
        r
    }
}

} // verus!
