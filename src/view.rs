use crate::model::{Core, CoreRelease, CoreSystems, Platform, System, Team};
use crate::store::{platform_with_id, system_with_id, systems_of, team_with_id, Store};
use vstd::prelude::*;

verus! {

/// Release `a` ranks before release `b`: a later date, or the same date and
/// a greater id.
pub open spec fn later(a: CoreRelease, b: CoreRelease) -> bool {
    a.date_released > b.date_released || (a.date_released == b.date_released && a.id > b.id)
}

/// The latest release of core `core_id`: greatest date, ties broken by the
/// greatest id; of two releases equal in both, the first.
pub open spec fn latest_release(releases: Seq<CoreRelease>, core_id: i32) -> Option<CoreRelease>
    decreases releases.len(),
{
    if releases.len() == 0 {
        None
    } else {
        let prev = latest_release(releases.drop_last(), core_id);
        let r = releases.last();
        if r.core_id == core_id && (prev is None || later(r, prev.unwrap())) {
            Some(r)
        } else {
            prev
        }
    }
}

/// The latest release of `core_id` among `releases`.
pub fn latest_release_of(releases: &Vec<CoreRelease>, core_id: i32) -> (r: Option<CoreRelease>)
    ensures
        r == latest_release(releases@, core_id),
{
    let mut best: Option<CoreRelease> = None;
    let mut i: usize = 0;
    while i < releases.len()
        invariant
            i <= releases@.len(),
            best == latest_release(releases@.subrange(0, i as int), core_id),
        decreases releases@.len() - i,
    {
        let r = releases[i];
        proof {
            assert(releases@.subrange(0, i + 1).drop_last() =~= releases@.subrange(0, i as int));
        }
        if r.core_id == core_id {
            match best {
                None => {
                    best = Some(r);
                },
                Some(b) => {
                    if r.date_released > b.date_released || (r.date_released == b.date_released
                        && r.id > b.id) {
                        best = Some(r);
                    }
                },
            }
        }
        i += 1;
    }
    proof {
        assert(releases@.subrange(0, releases@.len() as int) =~= releases@);
    }
    best
}

/// One restriction on the rows of a composite view.
#[derive(Clone, Copy, Debug, PartialEq, Eq, Structural)]
pub enum Clause {
    /// The latest release is for this platform.
    OnPlatform(i32),
    /// The core is linked to this system.
    HasSystem(i32),
    /// The core is owned by this team.
    OwnedBy(i32),
    /// The latest release is dated at or after this timestamp.
    ReleasedOnOrAfter(i64),
}

/// The clauses for the filters that are present, in a fixed order.
pub open spec fn clauses_for(
    platform: Option<i32>,
    system: Option<i32>,
    team: Option<i32>,
    release_date_ge: Option<i64>,
) -> Seq<Clause> {
    (if platform is Some { seq![Clause::OnPlatform(platform.unwrap())] } else { seq![] })
        + (if system is Some { seq![Clause::HasSystem(system.unwrap())] } else { seq![] })
        + (if team is Some { seq![Clause::OwnedBy(team.unwrap())] } else { seq![] })
        + (if release_date_ge is Some {
        seq![Clause::ReleasedOnOrAfter(release_date_ge.unwrap())]
    } else {
        seq![]
    })
}

/// Clause `c` holds of `core`, whose latest release is `release`.
pub open spec fn clause_holds(
    c: Clause,
    links: Seq<CoreSystems>,
    core: Core,
    release: CoreRelease,
) -> bool {
    match c {
        Clause::OnPlatform(p) => release.platform_id == p,
        Clause::HasSystem(s) => links.contains(CoreSystems { core_id: core.id, system_id: s }),
        Clause::OwnedBy(t) => core.owner_team_id == t,
        Clause::ReleasedOnOrAfter(d) => release.date_released >= d,
    }
}

/// Every clause holds: absent filters restrict nothing.
pub open spec fn clauses_hold(
    cs: Seq<Clause>,
    links: Seq<CoreSystems>,
    core: Core,
    release: CoreRelease,
) -> bool {
    forall|i: int| 0 <= i < cs.len() ==> #[trigger] clause_holds(cs[i], links, core, release)
}

proof fn lemma_clauses_split(
    a: Seq<Clause>,
    b: Seq<Clause>,
    links: Seq<CoreSystems>,
    core: Core,
    release: CoreRelease,
)
    ensures
        clauses_hold(a + b, links, core, release) == (clauses_hold(a, links, core, release)
            && clauses_hold(b, links, core, release)),
{
    if clauses_hold(a, links, core, release) && clauses_hold(b, links, core, release) {
        assert forall|i: int| 0 <= i < (a + b).len() implies #[trigger] clause_holds(
            (a + b)[i],
            links,
            core,
            release,
        ) by {
            if i < a.len() {
                assert(clause_holds(a[i], links, core, release));
            } else {
                assert((a + b)[i] == b[i - a.len()]);
                assert(clause_holds(b[i - a.len()], links, core, release));
            }
        }
    }
    if clauses_hold(a + b, links, core, release) {
        assert forall|i: int| 0 <= i < a.len() implies #[trigger] clause_holds(
            a[i],
            links,
            core,
            release,
        ) by {
            assert(clause_holds((a + b)[i], links, core, release));
        }
        assert forall|i: int| 0 <= i < b.len() implies #[trigger] clause_holds(
            b[i],
            links,
            core,
            release,
        ) by {
            assert((a + b)[a.len() + i] == b[i]);
            assert(clause_holds((a + b)[a.len() + i], links, core, release));
        }
    }
}

/// Clauses combine by logical AND: joining two lists in either order holds
/// exactly when each list holds.
pub proof fn lemma_clauses_commute(
    a: Seq<Clause>,
    b: Seq<Clause>,
    links: Seq<CoreSystems>,
    core: Core,
    release: CoreRelease,
)
    ensures
        clauses_hold(a + b, links, core, release) == (clauses_hold(a, links, core, release)
            && clauses_hold(b, links, core, release)),
        clauses_hold(a + b, links, core, release) == clauses_hold(b + a, links, core, release),
{
    lemma_clauses_split(a, b, links, core, release);
    lemma_clauses_split(b, a, links, core, release);
}

/// The clauses for the filters that are present.
pub fn build_predicate(
    platform: Option<i32>,
    system: Option<i32>,
    team: Option<i32>,
    release_date_ge: Option<i64>,
) -> (r: Vec<Clause>)
    ensures
        r@ == clauses_for(platform, system, team, release_date_ge),
{
    let mut r: Vec<Clause> = Vec::new();
    if let Some(p) = platform {
        r.push(Clause::OnPlatform(p));
    }
    if let Some(s) = system {
        r.push(Clause::HasSystem(s));
    }
    if let Some(t) = team {
        r.push(Clause::OwnedBy(t));
    }
    if let Some(d) = release_date_ge {
        r.push(Clause::ReleasedOnOrAfter(d));
    }
    assert(r@ =~= clauses_for(platform, system, team, release_date_ge));
    r
}

fn has_link(links: &Vec<CoreSystems>, core_id: i32, system_id: i32) -> (r: bool)
    ensures
        r == links@.contains(CoreSystems { core_id, system_id }),
{
    let want = CoreSystems { core_id, system_id };
    let mut i: usize = 0;
    while i < links.len()
        invariant
            i <= links@.len(),
            want == (CoreSystems { core_id, system_id }),
            forall|j: int| 0 <= j < i ==> links@[j] != want,
        decreases links@.len() - i,
    {
        if links[i] == want {
            assert(links@[i as int] == want);
            return true;
        }
        i += 1;
    }
    false
}

/// Whether every clause holds of `core`, whose latest release is `release`.
pub fn matches_clauses(
    clauses: &Vec<Clause>,
    links: &Vec<CoreSystems>,
    core: &Core,
    release: &CoreRelease,
) -> (r: bool)
    ensures
        r == clauses_hold(clauses@, links@, *core, *release),
{
    let mut i: usize = 0;
    while i < clauses.len()
        invariant
            i <= clauses@.len(),
            forall|j: int| 0 <= j < i ==> #[trigger] clause_holds(clauses@[j], links@, *core, *release),
        decreases clauses@.len() - i,
    {
        let ok = match clauses[i] {
            Clause::OnPlatform(p) => release.platform_id == p,
            Clause::HasSystem(s) => has_link(links, core.id, s),
            Clause::OwnedBy(t) => core.owner_team_id == t,
            Clause::ReleasedOnOrAfter(d) => release.date_released >= d,
        };
        if !ok {
            assert(!clause_holds(clauses@[i as int], links@, *core, *release));
            return false;
        }
        i += 1;
    }
    true
}


/// A core of the page with its team, its latest release and that release's
/// platform.
pub type Row = (Core, Team, Option<CoreRelease>, Platform);

/// The row of `core` in the composite view, if it has one. The team and the
/// platform are inner joins: a core without a release, or whose latest
/// release names a missing platform, has no row. The clauses are read
/// against the latest release alone, never against earlier ones.
pub open spec fn primary_row(db: Store, clauses: Seq<Clause>, core: Core) -> Option<Row> {
    let team = team_with_id(db.teams@, core.owner_team_id);
    let release = latest_release(db.core_releases@, core.id);
    if team is Some && release is Some {
        let platform = platform_with_id(db.platforms@, release.unwrap().platform_id);
        if platform is Some && clauses_hold(clauses, db.core_systems@, core, release.unwrap()) {
            Some((core, team.unwrap(), release, platform.unwrap()))
        } else {
            None
        }
    } else {
        None
    }
}

/// The rows of the composite view, one per core that has one, in the order
/// of the cores.
pub open spec fn primary_rows(db: Store, clauses: Seq<Clause>, cores: Seq<Core>) -> Seq<Row>
    decreases cores.len(),
{
    if cores.len() == 0 {
        seq![]
    } else {
        let rest = primary_rows(db, clauses, cores.drop_last());
        match primary_row(db, clauses, cores.last()) {
            Some(row) => rest.push(row),
            None => rest,
        }
    }
}

/// The elements of `s` at positions `offset` up to `offset + limit`.
pub open spec fn page_of<T>(s: Seq<T>, offset: int, limit: int) -> Seq<T> {
    let lo = if offset < s.len() { offset } else { s.len() as int };
    let hi = if offset + limit < s.len() { offset + limit } else { s.len() as int };
    s.subrange(lo, hi)
}

pub(crate) proof fn lemma_page_push<T>(s: Seq<T>, x: T, offset: int, limit: int)
    requires
        offset >= 0,
        limit > 0,
    ensures
        page_of(s.push(x), offset, limit) == (if offset <= s.len() < offset + limit {
            page_of(s, offset, limit).push(x)
        } else {
            page_of(s, offset, limit)
        }),
{
    let t = s.push(x);
    if offset <= s.len() < offset + limit {
        assert(page_of(t, offset, limit) =~= page_of(s, offset, limit).push(x));
    } else {
        assert(page_of(t, offset, limit) =~= page_of(s, offset, limit));
    }
}

fn row_of(db: &Store, clauses: &Vec<Clause>, core: &Core) -> (r: Option<Row>)
    ensures
        r == primary_row(*db, clauses@, *core),
{
    let team = match db.find_team(core.owner_team_id) {
        Some(t) => t,
        None => {
            return None;
        },
    };
    let release = match latest_release_of(&db.core_releases, core.id) {
        Some(r) => r,
        None => {
            return None;
        },
    };
    let platform = match db.find_platform(release.platform_id) {
        Some(p) => p,
        None => {
            return None;
        },
    };
    if !matches_clauses(clauses, &db.core_systems, core, &release) {
        return None;
    }
    Some((core.copy(), team.copy(), Some(release), platform.copy()))
}

/// The rows of the view at positions `offset` up to `offset + limit`.
pub fn primary_page(db: &Store, clauses: &Vec<Clause>, offset: i128, limit: i64) -> (r: Vec<Row>)
    requires
        offset >= 0,
        limit > 0,
    ensures
        r@ == page_of(primary_rows(*db, clauses@, db.cores@), offset as int, limit as int),
{
    let mut r: Vec<Row> = Vec::new();
    let mut seen: usize = 0;
    let mut i: usize = 0;
    while i < db.cores.len()
        invariant
            offset >= 0,
            limit > 0,
            i <= db.cores@.len(),
            seen == primary_rows(*db, clauses@, db.cores@.subrange(0, i as int)).len(),
            seen <= i,
            r@ == page_of(
                primary_rows(*db, clauses@, db.cores@.subrange(0, i as int)),
                offset as int,
                limit as int,
            ),
        decreases db.cores@.len() - i,
    {
        let ghost before = primary_rows(*db, clauses@, db.cores@.subrange(0, i as int));
        proof {
            assert(db.cores@.subrange(0, i + 1).drop_last() =~= db.cores@.subrange(0, i as int));
        }
        match row_of(db, clauses, &db.cores[i]) {
            Some(row) => {
                proof {
                    lemma_page_push(before, row, offset as int, limit as int);
                }
                if seen as i128 >= offset as i128 && (seen as i128) < offset as i128 + limit as i128 {
                    r.push(row);
                }
                seen += 1;
            },
            None => {},
        }
        i += 1;
    }
    proof {
        assert(db.cores@.subrange(0, db.cores@.len() as int) =~= db.cores@);
    }
    r
}


/// The junction rows whose core is among `keys`, each paired with its
/// system, in junction order; a row whose system is missing is left out.
pub open spec fn linked_rows(links: Seq<CoreSystems>, systems: Seq<System>, keys: Seq<i32>) -> Seq<
    (i32, System),
>
    decreases links.len(),
{
    if links.len() == 0 {
        seq![]
    } else {
        let rest = linked_rows(links.drop_last(), systems, keys);
        let l = links.last();
        if keys.contains(l.core_id) && system_with_id(systems, l.system_id) is Some {
            rest.push((l.core_id, system_with_id(systems, l.system_id).unwrap()))
        } else {
            rest
        }
    }
}

/// The systems of the pairs whose key is `key`, in order.
pub open spec fn group_of(rows: Seq<(i32, System)>, key: i32) -> Seq<System>
    decreases rows.len(),
{
    if rows.len() == 0 {
        seq![]
    } else {
        let rest = group_of(rows.drop_last(), key);
        if rows.last().0 == key {
            rest.push(rows.last().1)
        } else {
            rest
        }
    }
}

/// Grouping the pairs fetched for `keys` by a key among them gives exactly
/// that core's systems.
pub proof fn lemma_group_of_linked(
    links: Seq<CoreSystems>,
    systems: Seq<System>,
    keys: Seq<i32>,
    key: i32,
)
    requires
        keys.contains(key),
    ensures
        group_of(linked_rows(links, systems, keys), key) == systems_of(links, systems, key),
    decreases links.len(),
{
    if links.len() > 0 {
        lemma_group_of_linked(links.drop_last(), systems, keys, key);
        let rest = linked_rows(links.drop_last(), systems, keys);
        let l = links.last();
        if keys.contains(l.core_id) && system_with_id(systems, l.system_id) is Some {
            let x = (l.core_id, system_with_id(systems, l.system_id).unwrap());
            assert(rest.push(x).drop_last() =~= rest);
        }
    }
}

fn contains_key(keys: &Vec<i32>, key: i32) -> (r: bool)
    ensures
        r == keys@.contains(key),
{
    let mut i: usize = 0;
    while i < keys.len()
        invariant
            i <= keys@.len(),
            forall|j: int| 0 <= j < i ==> keys@[j] != key,
        decreases keys@.len() - i,
    {
        if keys[i] == key {
            assert(keys@[i as int] == key);
            return true;
        }
        i += 1;
    }
    false
}

/// Every junction row of a core among `keys`, with its system, fetched in one
/// pass over the junction table.
pub fn fetch_linked_systems(db: &Store, keys: &Vec<i32>) -> (r: Vec<(i32, System)>)
    ensures
        r@ == linked_rows(db.core_systems@, db.systems@, keys@),
{
    let mut r: Vec<(i32, System)> = Vec::new();
    let mut i: usize = 0;
    while i < db.core_systems.len()
        invariant
            i <= db.core_systems@.len(),
            r@ == linked_rows(db.core_systems@.subrange(0, i as int), db.systems@, keys@),
        decreases db.core_systems@.len() - i,
    {
        let l = db.core_systems[i];
        proof {
            assert(db.core_systems@.subrange(0, i + 1).drop_last() =~= db.core_systems@.subrange(
                0,
                i as int,
            ));
        }
        if contains_key(keys, l.core_id) {
            match db.find_system(l.system_id) {
                Some(s) => {
                    r.push((l.core_id, s.copy()));
                },
                None => {},
            }
        }
        i += 1;
    }
    proof {
        assert(db.core_systems@.subrange(0, db.core_systems@.len() as int) =~= db.core_systems@);
    }
    r
}

fn group_for(rows: &Vec<(i32, System)>, key: i32) -> (r: Vec<System>)
    ensures
        r@ == group_of(rows@, key),
{
    let mut r: Vec<System> = Vec::new();
    let mut i: usize = 0;
    while i < rows.len()
        invariant
            i <= rows@.len(),
            r@ == group_of(rows@.subrange(0, i as int), key),
        decreases rows@.len() - i,
    {
        proof {
            assert(rows@.subrange(0, i + 1).drop_last() =~= rows@.subrange(0, i as int));
        }
        if rows[i].0 == key {
            r.push(rows[i].1.copy());
        }
        i += 1;
    }
    proof {
        assert(rows@.subrange(0, rows@.len() as int) =~= rows@);
    }
    r
}

/// Partitions the pairs by key: one group per key, in the order of `keys`,
/// empty for a key that no pair has.
pub fn grouped_by(rows: &Vec<(i32, System)>, keys: &Vec<i32>) -> (r: Vec<Vec<System>>)
    ensures
        r@.len() == keys@.len(),
        forall|i: int| 0 <= i < keys@.len() ==> (#[trigger] r@[i])@ == group_of(rows@, keys@[i]),
{
    let mut r: Vec<Vec<System>> = Vec::new();
    let mut i: usize = 0;
    while i < keys.len()
        invariant
            i <= keys@.len(),
            r@.len() == i,
            forall|j: int| 0 <= j < i ==> (#[trigger] r@[j])@ == group_of(rows@, keys@[j]),
        decreases keys@.len() - i,
    {
        r.push(group_for(rows, keys[i]));
        i += 1;
    }
    r
}

/// The systems of each core in `keys`, fetched together and then grouped:
/// one group per key, in the order of `keys`. The same key sequence scopes
/// the fetch and shapes the groups.
pub fn group_systems(db: &Store, keys: &Vec<i32>) -> (r: Vec<Vec<System>>)
    ensures
        r@.len() == keys@.len(),
        forall|i: int|
            0 <= i < keys@.len() ==> (#[trigger] r@[i])@ == systems_of(
                db.core_systems@,
                db.systems@,
                keys@[i],
            ),
{
    let rows = fetch_linked_systems(db, keys);
    let r = grouped_by(&rows, keys);
    proof {
        assert forall|i: int| 0 <= i < keys@.len() implies (#[trigger] r@[i])@ == systems_of(
            db.core_systems@,
            db.systems@,
            keys@[i],
        ) by {
            lemma_group_of_linked(db.core_systems@, db.systems@, keys@, keys@[i]);
        }
    }
    r
}


/// The latest release of a core is one of its releases, and none of its
/// releases ranks before it: a later date wins whatever the ids, and on
/// equal dates the greater id wins. A core without releases has none.
pub proof fn lemma_latest_release_is_greatest(releases: Seq<CoreRelease>, core_id: i32)
    ensures
        match latest_release(releases, core_id) {
            Some(r) => {
                &&& releases.contains(r)
                &&& r.core_id == core_id
                &&& forall|i: int|
                    0 <= i < releases.len() && (#[trigger] releases[i]).core_id == core_id
                        ==> !later(releases[i], r)
            },
            None => forall|i: int| 0 <= i < releases.len() ==> (#[trigger] releases[i]).core_id != core_id,
        },
    decreases releases.len(),
{
    if releases.len() > 0 {
        let init = releases.drop_last();
        lemma_latest_release_is_greatest(init, core_id);
        assert forall|i: int| 0 <= i < init.len() implies #[trigger] releases[i] == init[i] by {}
        match latest_release(releases, core_id) {
            Some(r) => {
                if r == releases.last() {
                    assert(releases[releases.len() - 1] == r);
                } else {
                    let k = choose|k: int| 0 <= k < init.len() && init[k] == r;
                    assert(releases[k] == r);
                }
            },
            None => {},
        }
    }
}

/// The rows of `s`, page by page: pages `0` up to `n`, concatenated.
pub open spec fn pages_upto<T>(s: Seq<T>, limit: int, n: nat) -> Seq<T>
    decreases n,
{
    if n == 0 {
        seq![]
    } else {
        pages_upto(s, limit, (n - 1) as nat) + page_of(s, (n - 1) * limit, limit)
    }
}

proof fn lemma_pages_upto<T>(s: Seq<T>, limit: int, n: nat)
    requires
        limit > 0,
    ensures
        pages_upto(s, limit, n) == s.subrange(
            0,
            if n * limit < s.len() { n * limit } else { s.len() as int },
        ),
    decreases n,
{
    if n > 0 {
        lemma_pages_upto(s, limit, (n - 1) as nat);
        assert((n - 1) * limit + limit == n * limit) by (nonlinear_arith);
        assert((n - 1) * limit >= 0) by (nonlinear_arith)
            requires
                n >= 1,
                limit > 0,
        ;
        let lo = if (n - 1) * limit < s.len() { (n - 1) * limit } else { s.len() as int };
        let hi = if n * limit < s.len() { n * limit } else { s.len() as int };
        assert(s.subrange(0, lo) + s.subrange(lo, hi) =~= s.subrange(0, hi));
    } else {
        assert(n * limit == 0) by (nonlinear_arith)
            requires
                n == 0,
        ;
        assert(s.subrange(0, 0) =~= Seq::<T>::empty());
    }
}

/// Paging the unfiltered view: each page holds at most `limit` rows, and the
/// pages from the first on, concatenated in order, are the view's rows in
/// order, without repeats or gaps; once they reach its end they are the
/// whole view.
pub proof fn lemma_pages_cover_view(db: Store, limit: int, n: nat)
    requires
        limit > 0,
    ensures
        ({
            let rows = primary_rows(db, clauses_for(None, None, None, None), db.cores@);
            &&& forall|p: int| p >= 0 ==> (#[trigger] page_of(rows, p * limit, limit)).len() <= limit
            &&& pages_upto(rows, limit, n) == rows.subrange(
                0,
                if n * limit < rows.len() { n * limit } else { rows.len() as int },
            )
            &&& n * limit >= rows.len() ==> pages_upto(rows, limit, n) == rows
        }),
{
    let rows = primary_rows(db, clauses_for(None, None, None, None), db.cores@);
    lemma_pages_upto(rows, limit, n);
    if n * limit >= rows.len() {
        assert(rows.subrange(0, rows.len() as int) =~= rows);
    }
}

/// Each row of the view carries its core's latest release, which meets
/// every clause.
pub proof fn lemma_rows_carry_latest(db: Store, clauses: Seq<Clause>, cores: Seq<Core>)
    ensures
        forall|i: int|
            0 <= i < primary_rows(db, clauses, cores).len() ==> {
                let row = #[trigger] primary_rows(db, clauses, cores)[i];
                &&& row.2 == latest_release(db.core_releases@, row.0.id)
                &&& row.2 is Some
                &&& clauses_hold(clauses, db.core_systems@, row.0, row.2.unwrap())
            },
    decreases cores.len(),
{
    if cores.len() > 0 {
        lemma_rows_carry_latest(db, clauses, cores.drop_last());
        let rest = primary_rows(db, clauses, cores.drop_last());
        let rows = primary_rows(db, clauses, cores);
        assert forall|i: int| 0 <= i < rest.len() implies #[trigger] rows[i] == rest[i] by {}
    }
}

/// A release date threshold is held against the latest release alone: a
/// core whose latest release is older than the threshold has no row, even
/// where an earlier release of it would meet the threshold.
pub proof fn lemma_date_threshold_reads_latest_only(
    db: Store,
    clauses: Seq<Clause>,
    core_id: i32,
    threshold: i64,
)
    requires
        clauses.contains(Clause::ReleasedOnOrAfter(threshold)),
        latest_release(db.core_releases@, core_id) is Some,
        latest_release(db.core_releases@, core_id).unwrap().date_released < threshold,
    ensures
        forall|i: int|
            0 <= i < primary_rows(db, clauses, db.cores@).len() ==> (#[trigger] primary_rows(
                db,
                clauses,
                db.cores@,
            )[i]).0.id != core_id,
{
    lemma_rows_carry_latest(db, clauses, db.cores@);
    let k = choose|k: int| 0 <= k < clauses.len() && clauses[k] == Clause::ReleasedOnOrAfter(threshold);
    let rows = primary_rows(db, clauses, db.cores@);
    assert forall|i: int| 0 <= i < rows.len() implies (#[trigger] rows[i]).0.id != core_id by {
        if rows[i].0.id == core_id {
            assert(clause_holds(clauses[k], db.core_systems@, rows[i].0, rows[i].2.unwrap()));
        }
    }
}

} // verus!
