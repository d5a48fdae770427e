use crate::identity::IdOrSlug;
use crate::model::{Core, CoreRelease, CoreSystems, Platform, System, Team};
use crate::store::{
    core_with_id, core_with_slug, lemma_first_match_found, lemma_first_match_none,
    lemma_first_match_push, system_with_id, systems_of, team_with_id, Store,
};
use crate::view::{
    build_predicate, clauses_for, group_systems, page_of, primary_page, primary_rows, Row,
};
use serde_json::Value as Json;
use vstd::prelude::*;

verus! {

/// A core with its systems, its team, its latest release and that release's
/// platform.
pub type CompositeRow = (Core, Vec<System>, Team, Option<CoreRelease>, Platform);

/// The id of the platform filter, where one is given.
pub open spec fn platform_key(p: Option<&Platform>) -> Option<i32> {
    match p {
        Some(p) => Some(p.id),
        None => None,
    }
}

/// The id of the system filter, where one is given.
pub open spec fn system_key(s: Option<&System>) -> Option<i32> {
    match s {
        Some(s) => Some(s.id),
        None => None,
    }
}

/// The id of the team filter, where one is given.
pub open spec fn team_key(t: Option<&Team>) -> Option<i32> {
    match t {
        Some(t) => Some(t.id),
        None => None,
    }
}

/// The composite record `c` is the view row `row`, with the systems of its
/// core attached.
pub open spec fn composes(db: Store, c: CompositeRow, row: Row) -> bool {
    &&& c.0 == row.0
    &&& c.1@ == systems_of(db.core_systems@, db.systems@, row.0.id)
    &&& c.2 == row.1
    &&& c.3 == row.2
    &&& c.4 == row.3
}

/// The cores, each with its owning team, in the order of the cores; a core
/// whose team is missing is left out.
pub open spec fn teamed_rows(teams: Seq<Team>, cores: Seq<Core>) -> Seq<(Core, Team)>
    decreases cores.len(),
{
    if cores.len() == 0 {
        seq![]
    } else {
        let rest = teamed_rows(teams, cores.drop_last());
        let team = team_with_id(teams, cores.last().owner_team_id);
        if team is Some {
            rest.push((cores.last(), team.unwrap()))
        } else {
            rest
        }
    }
}

/// The core that `id` names: by id, or by slug.
pub open spec fn core_named(cores: Seq<Core>, id: IdOrSlug) -> Option<Core> {
    match id {
        IdOrSlug::Id(n) => core_with_id(cores, n),
        IdOrSlug::Slug(s) => core_with_slug(cores, s@),
    }
}

/// Which integrity constraint a write broke.
#[derive(Clone, Copy, Debug, PartialEq, Eq, Structural)]
pub enum ConstraintKind {
    /// Another core has the slug.
    UniqueSlug,
    /// A referenced team or system does not exist.
    ForeignKey,
    /// The same core/system pair was given twice.
    DuplicateKey,
}

/// Why a store operation failed.
#[derive(Clone, Copy, Debug, PartialEq, Eq, Structural)]
pub enum StorageError {
    ConstraintViolation(ConstraintKind),
    /// The store cannot take the write: it has no core id left to assign.
    StorageUnavailable,
}

/// Some system of the list is not in the store.
pub open spec fn missing_system(db: Store, systems: Seq<System>) -> bool {
    exists|i: int| 0 <= i < systems.len() && system_with_id(db.systems@, #[trigger] systems[i].id) is None
}

/// Two systems of the list have the same id.
pub open spec fn repeated_system(systems: Seq<System>) -> bool {
    exists|i: int, j: int| 0 <= i < j < systems.len() && #[trigger] systems[i].id == #[trigger] systems[j].id
}

/// The error that creating a core with `slug`, owned by `owner`, linked to
/// `systems`, meets in `db`, if any.
pub open spec fn create_error(db: Store, slug: Seq<char>, owner: i32, systems: Seq<System>) -> Option<
    StorageError,
> {
    if core_with_slug(db.cores@, slug) is Some {
        Some(StorageError::ConstraintViolation(ConstraintKind::UniqueSlug))
    } else if team_with_id(db.teams@, owner) is None {
        Some(StorageError::ConstraintViolation(ConstraintKind::ForeignKey))
    } else if db.next_core_id == i32::MAX {
        Some(StorageError::StorageUnavailable)
    } else if missing_system(db, systems) {
        Some(StorageError::ConstraintViolation(ConstraintKind::ForeignKey))
    } else if repeated_system(systems) {
        Some(StorageError::ConstraintViolation(ConstraintKind::DuplicateKey))
    } else {
        None
    }
}

/// The junction rows that link `core_id` to each system, in order.
pub open spec fn junction_rows(core_id: i32, systems: Seq<System>) -> Seq<CoreSystems> {
    systems.map_values(|s: System| CoreSystems { core_id, system_id: s.id })
}

proof fn lemma_create_keeps_wf(before: Store, after: Store, c: Core, systems: Seq<System>)
    requires
        before.wf(),
        core_with_slug(before.cores@, c.slug@) is None,
        team_with_id(before.teams@, c.owner_team_id) is Some,
        c.id == before.next_core_id,
        before.next_core_id < i32::MAX,
        !missing_system(before, systems),
        !repeated_system(systems),
        after.cores@ == before.cores@.push(c),
        after.core_systems@ == before.core_systems@ + junction_rows(c.id, systems),
        after.next_core_id == before.next_core_id + 1,
        after.teams == before.teams,
        after.systems == before.systems,
    ensures
        after.wf(),
{
    let old_cores = before.cores@;
    lemma_first_match_none(old_cores, |k: Core| k.slug@ == c.slug@);
    let n = before.core_systems@.len();
    let links = after.core_systems@;
    assert forall|i: int| 0 <= i < links.len() implies core_with_id(
        after.cores@,
        #[trigger] links[i].core_id,
    ) is Some && system_with_id(after.systems@, links[i].system_id) is Some by {
        lemma_first_match_push(old_cores, c, |k: Core| k.id == links[i].core_id);
        if i >= n {
            let s = systems[i - n];
            assert(system_with_id(before.systems@, s.id) is Some);
        }
    }
    assert forall|i: int, j: int| 0 <= i < j < links.len() implies links[i] != links[j] by {
        if i < n && j >= n {
            lemma_first_match_found(old_cores, |k: Core| k.id == links[i].core_id);
            let k = core_with_id(old_cores, links[i].core_id).unwrap();
            let m = choose|m: int| 0 <= m < old_cores.len() && old_cores[m] == k;
            assert(old_cores[m].id < before.next_core_id);
        }
        if i >= n {
            assert(systems[i - n].id != systems[j - n].id);
        }
    }
}

/// Whether position `k` lies on page `page` of size `limit`.
fn on_page(k: usize, page: i64, limit: i64) -> (r: bool)
    requires
        page >= 0,
        limit > 0,
    ensures
        r == (page * limit <= k < page * limit + limit),
{
    assert(0 <= page * limit <= 0x7fff_ffff_ffff_ffff * 0x7fff_ffff_ffff_ffff) by (nonlinear_arith)
        requires
            0 <= page <= 0x7fff_ffff_ffff_ffff,
            0 < limit <= 0x7fff_ffff_ffff_ffff,
    ;
    let offset: i128 = page as i128 * limit as i128;
    offset <= k as i128 && (k as i128) < offset + limit as i128
}

/// Attaches `groups[i]` to `rows[i]`, for each position.
fn zip_groups(rows: Vec<Row>, groups: Vec<Vec<System>>) -> (r: Vec<CompositeRow>)
    requires
        rows@.len() == groups@.len(),
    ensures
        r@.len() == rows@.len(),
        forall|i: int|
            0 <= i < rows@.len() ==> (#[trigger] r@[i]).0 == rows@[i].0 && r@[i].1 == groups@[i]
                && r@[i].2 == rows@[i].1 && r@[i].3 == rows@[i].2 && r@[i].4 == rows@[i].3,
{
    let ghost rows0 = rows@;
    let ghost groups0 = groups@;
    let mut rows = rows;
    let mut groups = groups;
    let mut r: Vec<CompositeRow> = Vec::new();
    let n = rows.len();
    let mut i: usize = 0;
    while i < n
        invariant
            n == rows0.len(),
            n == groups0.len(),
            i <= n,
            rows@ == rows0.skip(i as int),
            groups@ == groups0.skip(i as int),
            r@.len() == i,
            forall|j: int|
                0 <= j < i ==> (#[trigger] r@[j]).0 == rows0[j].0 && r@[j].1 == groups0[j]
                    && r@[j].2 == rows0[j].1 && r@[j].3 == rows0[j].2 && r@[j].4 == rows0[j].3,
        decreases n - i,
    {
        let row = rows.remove(0);
        let group = groups.remove(0);
        proof {
            assert(rows0.skip(i as int).remove(0) =~= rows0.skip(i + 1));
            assert(groups0.skip(i as int).remove(0) =~= groups0.skip(i + 1));
        }
        r.push((row.0, group, row.1, row.2, row.3));
        i += 1;
    }
    r
}

impl Core {

    /// Creates a core and links it to each of `systems`, as one atomic
    /// write: the core gets the store's next id; on any error the store is
    /// left as it was.
    pub fn create(
        db: &mut Store,
        slug: &str,
        name: &str,
        description: &str,
        metadata: Json,
        links: Json,
        systems: &[System],
        owner_team: &Team,
    ) -> (r: Result<Core, StorageError>)
        ensures
            old(db).wf() ==> final(db).wf(),
            match r {
                Err(e) => create_error(*old(db), slug@, owner_team.id, systems@) == Some(e)
                    && *final(db) == *old(db),
                Ok(c) => {
                    &&& create_error(*old(db), slug@, owner_team.id, systems@) is None
                    &&& c.id == old(db).next_core_id
                    &&& c.slug@ == slug@
                    &&& c.name@ == name@
                    &&& c.description@ == description@
                    &&& c.metadata == metadata
                    &&& c.links == links
                    &&& c.owner_team_id == owner_team.id
                    &&& final(db).cores@ == old(db).cores@.push(c)
                    &&& final(db).core_systems@ == old(db).core_systems@ + junction_rows(
                        c.id,
                        systems@,
                    )
                    &&& final(db).next_core_id == old(db).next_core_id + 1
                    &&& final(db).teams == old(db).teams
                    &&& final(db).platforms == old(db).platforms
                    &&& final(db).systems == old(db).systems
                    &&& final(db).core_releases == old(db).core_releases
                },
            },
    {
        if let Some(_) = db.find_core_by_slug(slug) {
            return Err(StorageError::ConstraintViolation(ConstraintKind::UniqueSlug));
        }
        if let None = db.find_team(owner_team.id) {
            return Err(StorageError::ConstraintViolation(ConstraintKind::ForeignKey));
        }
        if db.next_core_id == i32::MAX {
            return Err(StorageError::StorageUnavailable);
        }
        let mut i: usize = 0;
        while i < systems.len()
            invariant
                core_with_slug(db.cores@, slug@) is None,
                team_with_id(db.teams@, owner_team.id) is Some,
                db.next_core_id != i32::MAX,
                i <= systems@.len(),
                forall|j: int|
                    0 <= j < i ==> system_with_id(db.systems@, #[trigger] systems@[j].id) is Some,
            decreases systems@.len() - i,
        {
            if let None = db.find_system(systems[i].id) {
                assert(system_with_id(db.systems@, systems@[i as int].id) is None);
                return Err(StorageError::ConstraintViolation(ConstraintKind::ForeignKey));
            }
            i += 1;
        }
        let mut i: usize = 0;
        while i < systems.len()
            invariant
                core_with_slug(db.cores@, slug@) is None,
                team_with_id(db.teams@, owner_team.id) is Some,
                db.next_core_id != i32::MAX,
                !missing_system(*db, systems@),
                i <= systems@.len(),
                forall|a: int, b: int|
                    0 <= a < b < i ==> #[trigger] systems@[a].id != #[trigger] systems@[b].id,
            decreases systems@.len() - i,
        {
            let mut j: usize = 0;
            while j < i
                invariant
                    core_with_slug(db.cores@, slug@) is None,
                    team_with_id(db.teams@, owner_team.id) is Some,
                    db.next_core_id != i32::MAX,
                    !missing_system(*db, systems@),
                    i < systems@.len(),
                    j <= i,
                    forall|a: int| 0 <= a < j ==> #[trigger] systems@[a].id != systems@[i as int].id,
                decreases i - j,
            {
                if systems[j].id == systems[i].id {
                    assert(systems@[j as int].id == systems@[i as int].id);
                    return Err(StorageError::ConstraintViolation(ConstraintKind::DuplicateKey));
                }
                j += 1;
            }
            i += 1;
        }
        assert(!repeated_system(systems@));
        let ghost before = *db;
        let id = db.next_core_id;
        let core = Core {
            id,
            slug: slug.to_owned(),
            name: name.to_owned(),
            description: description.to_owned(),
            metadata,
            links,
            owner_team_id: owner_team.id,
        };
        let result = core.copy();
        db.cores.push(core);
        db.next_core_id = id + 1;
        let mut k: usize = 0;
        while k < systems.len()
            invariant
                k <= systems@.len(),
                db.cores@ == before.cores@.push(result),
                db.next_core_id == id + 1,
                db.teams == before.teams,
                db.platforms == before.platforms,
                db.systems == before.systems,
                db.core_releases == before.core_releases,
                db.core_systems@ == before.core_systems@ + junction_rows(id, systems@.subrange(0, k as int)),
            decreases systems@.len() - k,
        {
            db.core_systems.push(CoreSystems { core_id: id, system_id: systems[k].id });
            proof {
                assert(junction_rows(id, systems@.subrange(0, k + 1)) =~= junction_rows(id, systems@.subrange(0, k as int)).push(CoreSystems { core_id: id, system_id: systems@[k as int].id }));
            }
            k += 1;
        }
        proof {
            assert(systems@.subrange(0, systems@.len() as int) =~= systems@);
            if before.wf() {
                lemma_create_keeps_wf(before, *db, result, systems@);
            }
        }
        Ok(result)
    }


    /// The core with id `id`, if there is one.
    pub fn from_id(db: &Store, id: i32) -> (r: Option<Core>)
        ensures
            r == core_with_id(db.cores@, id),
    {
        match db.find_core(id) {
            Some(c) => Some(c.copy()),
            None => None,
        }
    }

    /// The core with slug `slug`, if there is one.
    pub fn from_slug(db: &Store, slug: &str) -> (r: Option<Core>)
        ensures
            r == core_with_slug(db.cores@, slug@),
    {
        match db.find_core_by_slug(slug) {
            Some(c) => Some(c.copy()),
            None => None,
        }
    }

    /// One page of the cores, in their order: from position `page * limit`
    /// on, at most `limit` of them.
    pub fn list(db: &Store, page: i64, limit: i64) -> (r: Vec<Core>)
        requires
            page >= 0,
            limit > 0,
        ensures
            r@ == page_of(db.cores@, page * limit, limit as int),
    {
        let mut r: Vec<Core> = Vec::new();
        let mut i: usize = 0;
        while i < db.cores.len()
            invariant
                page >= 0,
                limit > 0,
                i <= db.cores@.len(),
                r@ == page_of(db.cores@.subrange(0, i as int), page * limit, limit as int),
            decreases db.cores@.len() - i,
        {
            proof {
                crate::view::lemma_page_push(
                    db.cores@.subrange(0, i as int),
                    db.cores@[i as int],
                    page * limit,
                    limit as int,
                );
                assert(db.cores@.subrange(0, i as int).push(db.cores@[i as int])
                    =~= db.cores@.subrange(0, i + 1));
            }
            if on_page(i, page, limit) {
                r.push(db.cores[i].copy());
            }
            i += 1;
        }
        proof {
            assert(db.cores@.subrange(0, db.cores@.len() as int) =~= db.cores@);
        }
        r
    }

    /// One page of the cores with their teams: from position `page * limit`
    /// of the cores whose team exists, at most `limit` of them.
    pub fn list_with_teams(db: &Store, page: i64, limit: i64) -> (r: Vec<(Core, Team)>)
        requires
            page >= 0,
            limit > 0,
        ensures
            r@ == page_of(teamed_rows(db.teams@, db.cores@), page * limit, limit as int),
    {
        let mut r: Vec<(Core, Team)> = Vec::new();
        let mut seen: usize = 0;
        let mut i: usize = 0;
        while i < db.cores.len()
            invariant
                page >= 0,
                limit > 0,
                i <= db.cores@.len(),
                seen == teamed_rows(db.teams@, db.cores@.subrange(0, i as int)).len(),
                seen <= i,
                r@ == page_of(
                    teamed_rows(db.teams@, db.cores@.subrange(0, i as int)),
                    page * limit,
                    limit as int,
                ),
            decreases db.cores@.len() - i,
        {
            let ghost before = teamed_rows(db.teams@, db.cores@.subrange(0, i as int));
            proof {
                assert(db.cores@.subrange(0, i + 1).drop_last() =~= db.cores@.subrange(
                    0,
                    i as int,
                ));
            }
            match db.find_team(db.cores[i].owner_team_id) {
                Some(t) => {
                    let row = (db.cores[i].copy(), t.copy());
                    proof {
                        crate::view::lemma_page_push(before, row, page * limit, limit as int);
                    }
                    if on_page(seen, page, limit) {
                        r.push(row);
                    }
                    seen += 1;
                },
                None => {},
            }
            i += 1;
        }
        proof {
            assert(db.cores@.subrange(0, db.cores@.len() as int) =~= db.cores@);
        }
        r
    }

    /// The core that `id` names, with its owning team and all its systems
    /// in junction order; `None` where no core is named so, or its team is
    /// missing.
    pub fn get_with_owner_and_systems(db: &Store, id: &IdOrSlug) -> (r: Option<
        (Core, Team, Vec<System>),
    >)
        ensures
            ({
                let core = core_named(db.cores@, *id);
                match r {
                    Some(found) => core is Some && team_with_id(
                        db.teams@,
                        core.unwrap().owner_team_id,
                    ) == Some(found.1) && found.0 == core.unwrap() && found.2@ == systems_of(
                        db.core_systems@,
                        db.systems@,
                        core.unwrap().id,
                    ),
                    None => core is None || team_with_id(
                        db.teams@,
                        core.unwrap().owner_team_id,
                    ) is None,
                }
            }),
    {
        let core = match id {
            IdOrSlug::Id(n) => db.find_core(*n),
            IdOrSlug::Slug(s) => db.find_core_by_slug(s.as_str()),
        };
        let core = match core {
            Some(c) => c,
            None => {
                return None;
            },
        };
        let team = match db.find_team(core.owner_team_id) {
            Some(t) => t,
            None => {
                return None;
            },
        };
        let systems = db.systems_for(core.id);
        Some((core.copy(), team.copy(), systems))
    }

    /// The composite view, one page of it: each core that has a latest
    /// release whose platform exists and that meets every filter given, in
    /// the order of the cores, from position `page * limit` on, at most
    /// `limit` of them; each with its full set of systems. Filters apply to
    /// the latest release only: a core whose latest release is too old is
    /// left out even where an earlier one would pass. Cores without a
    /// release do not appear.
    pub fn list_with_teams_and_releases(
        db: &Store,
        page: i64,
        limit: i64,
        platform: Option<&Platform>,
        system: Option<&System>,
        team: Option<&Team>,
        release_date_ge: Option<i64>,
    ) -> (r: Vec<CompositeRow>)
        requires
            page >= 0,
            limit > 0,
        ensures
            ({
                let rows = page_of(
                    primary_rows(
                        *db,
                        clauses_for(
                            platform_key(platform),
                            system_key(system),
                            team_key(team),
                            release_date_ge,
                        ),
                        db.cores@,
                    ),
                    page * limit,
                    limit as int,
                );
                &&& r@.len() == rows.len()
                &&& forall|i: int| 0 <= i < rows.len() ==> composes(*db, #[trigger] r@[i], rows[i])
            }),
    {
        let clauses = build_predicate(
            match platform {
                Some(p) => Some(p.id),
                None => None,
            },
            match system {
                Some(s) => Some(s.id),
                None => None,
            },
            match team {
                Some(t) => Some(t.id),
                None => None,
            },
            release_date_ge,
        );
        assert(0 <= page * limit <= 0x7fff_ffff_ffff_ffff * 0x7fff_ffff_ffff_ffff) by (nonlinear_arith)
            requires
                0 <= page <= 0x7fff_ffff_ffff_ffff,
                0 < limit <= 0x7fff_ffff_ffff_ffff,
        ;
        let offset: i128 = page as i128 * limit as i128;
        let rows = primary_page(db, &clauses, offset, limit);
        let mut keys: Vec<i32> = Vec::new();
        let mut i: usize = 0;
        while i < rows.len()
            invariant
                i <= rows@.len(),
                keys@.len() == i,
                forall|j: int| 0 <= j < i ==> keys@[j] == (#[trigger] rows@[j]).0.id,
            decreases rows@.len() - i,
        {
            keys.push(rows[i].0.id);
            i += 1;
        }
        let groups = group_systems(db, &keys);
        let ghost rows0 = rows@;
        let r = zip_groups(rows, groups);
        assert forall|i: int| 0 <= i < rows0.len() implies composes(*db, #[trigger] r@[i], rows0[i]) by {
            assert(keys@[i] == rows0[i].0.id);
        }
        r
    }
}

} // verus!
