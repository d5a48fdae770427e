use chrono::NaiveDate;
use retronomicon_backend::{
    build_predicate, group_systems, latest_release_of, Clause, ConstraintKind, Core, CoreRelease,
    CoreSystems, IdOrSlug, Platform, StorageError, Store, System, Team,
};
use serde_json::Value as Json;

fn ts(y: i32, m: u32, d: u32) -> i64 {
    NaiveDate::from_ymd_opt(y, m, d)
        .unwrap()
        .and_hms_opt(0, 0, 0)
        .unwrap()
        .and_utc()
        .timestamp()
}

fn team(id: i32, slug: &str) -> Team {
    Team { id, slug: slug.to_string(), name: slug.to_uppercase() }
}

fn platform(id: i32, slug: &str) -> Platform {
    Platform { id, slug: slug.to_string(), name: slug.to_uppercase() }
}

fn system(id: i32, slug: &str) -> System {
    System { id, slug: slug.to_string(), name: slug.to_uppercase() }
}

fn release(id: i32, core_id: i32, platform_id: i32, date_released: i64) -> CoreRelease {
    CoreRelease { id, core_id, platform_id, date_released }
}

fn base_store() -> Store {
    let mut db = Store::new();
    db.teams.push(team(1, "t1"));
    db.teams.push(team(2, "t2"));
    db.platforms.push(platform(1, "linux-x64"));
    db.platforms.push(platform(2, "mister"));
    db.systems.push(system(1, "genesis"));
    db.systems.push(system(2, "mastersystem"));
    db.systems.push(system(3, "nes"));
    db
}

fn add_core(db: &mut Store, slug: &str, team_id: i32, systems: &[System]) -> Core {
    Core::create(
        db,
        slug,
        &slug.to_uppercase(),
        "a core",
        Json::Null,
        Json::String("links".to_string()),
        systems,
        &team(team_id, ""),
    )
    .unwrap()
}

fn slugs(rows: &[retronomicon_backend::CompositeRow]) -> Vec<String> {
    rows.iter().map(|r| r.0.slug.clone()).collect()
}

fn picodrive_store() -> Store {
    let mut db = base_store();
    let c = add_core(&mut db, "picodrive", 1, &[system(1, "genesis"), system(2, "mastersystem")]);
    db.core_releases.push(release(1, c.id, 1, ts(2023, 1, 1)));
    db.core_releases.push(release(2, c.id, 1, ts(2023, 6, 1)));
    db
}

#[test]
fn picodrive_single_record_with_latest_release_and_both_systems() {
    let db = picodrive_store();
    let rows = Core::list_with_teams_and_releases(&db, 0, 10, None, None, None, None);
    assert_eq!(rows.len(), 1);
    let (core, systems, team, release, platform) = &rows[0];
    assert_eq!(core.slug, "picodrive");
    assert_eq!(team.slug, "t1");
    let release = release.unwrap();
    assert_eq!(release.id, 2);
    assert_eq!(release.date_released, ts(2023, 6, 1));
    assert_eq!(platform.slug, "linux-x64");
    let mut names: Vec<String> = systems.iter().map(|s| s.slug.clone()).collect();
    names.sort();
    assert_eq!(names, vec!["genesis".to_string(), "mastersystem".to_string()]);
}

#[test]
fn later_date_wins_over_greater_id() {
    let releases = vec![release(5, 7, 1, ts(2020, 1, 1)), release(3, 7, 1, ts(2021, 1, 1))];
    assert_eq!(latest_release_of(&releases, 7).unwrap().id, 3);
    let reversed = vec![release(3, 7, 1, ts(2021, 1, 1)), release(5, 7, 1, ts(2020, 1, 1))];
    assert_eq!(latest_release_of(&reversed, 7).unwrap().id, 3);
}

#[test]
fn equal_dates_greater_id_wins() {
    let d = ts(2021, 3, 3);
    let releases = vec![release(8, 7, 1, d), release(4, 7, 2, d), release(9, 6, 1, ts(2030, 1, 1))];
    assert_eq!(latest_release_of(&releases, 7).unwrap().id, 8);
    let releases = vec![release(4, 7, 2, d), release(8, 7, 1, d)];
    assert_eq!(latest_release_of(&releases, 7).unwrap().id, 8);
}

#[test]
fn core_without_releases_has_no_latest() {
    let releases = vec![release(1, 2, 1, ts(2020, 1, 1))];
    assert_eq!(latest_release_of(&releases, 3), None);
    assert_eq!(latest_release_of(&Vec::new(), 3), None);
}

#[test]
fn date_threshold_applies_to_latest_release_only() {
    let mut db = base_store();
    let c = add_core(&mut db, "old", 1, &[system(1, "genesis")]);
    db.core_releases.push(release(1, c.id, 1, ts(2021, 6, 1)));
    let rows =
        Core::list_with_teams_and_releases(&db, 0, 10, None, None, None, Some(ts(2022, 1, 1)));
    assert!(rows.is_empty());
    let rows =
        Core::list_with_teams_and_releases(&db, 0, 10, None, None, None, Some(ts(2021, 6, 1)));
    assert_eq!(slugs(&rows), vec!["old".to_string()]);
}

#[test]
fn older_release_meeting_threshold_does_not_count() {
    let mut db = base_store();
    let c = add_core(&mut db, "c", 1, &[]);
    // The later release is dated earlier: the latest is the 2021 one.
    db.core_releases.push(release(1, c.id, 1, ts(2023, 1, 1)));
    db.core_releases.push(release(2, c.id, 1, ts(2021, 1, 1)));
    let latest = latest_release_of(&db.core_releases, c.id).unwrap();
    assert_eq!(latest.id, 1);
    let rows =
        Core::list_with_teams_and_releases(&db, 0, 10, None, None, None, Some(ts(2022, 1, 1)));
    assert_eq!(rows.len(), 1);
    db.core_releases.push(release(3, c.id, 1, ts(2024, 1, 1)));
    let rows =
        Core::list_with_teams_and_releases(&db, 0, 10, None, None, None, Some(ts(2025, 1, 1)));
    assert!(rows.is_empty());
}

#[test]
fn core_without_systems_gets_empty_group() {
    let mut db = base_store();
    let a = add_core(&mut db, "a", 1, &[]);
    let b = add_core(&mut db, "b", 2, &[system(3, "nes")]);
    db.core_releases.push(release(1, a.id, 1, ts(2020, 1, 1)));
    db.core_releases.push(release(2, b.id, 2, ts(2020, 1, 1)));
    let rows = Core::list_with_teams_and_releases(&db, 0, 10, None, None, None, None);
    assert_eq!(slugs(&rows), vec!["a".to_string(), "b".to_string()]);
    assert!(rows[0].1.is_empty());
    assert_eq!(rows[1].1.len(), 1);
    assert_eq!(rows[1].1[0].slug, "nes");
}

#[test]
fn core_without_release_is_not_listed() {
    let mut db = base_store();
    let a = add_core(&mut db, "a", 1, &[system(1, "genesis")]);
    add_core(&mut db, "b", 1, &[system(1, "genesis")]);
    db.core_releases.push(release(1, a.id, 1, ts(2020, 1, 1)));
    let rows = Core::list_with_teams_and_releases(&db, 0, 10, None, None, None, None);
    assert_eq!(slugs(&rows), vec!["a".to_string()]);
}

fn five_core_store() -> Store {
    let mut db = base_store();
    for (i, slug) in ["c1", "c2", "c3", "c4", "c5"].iter().enumerate() {
        let team_id = if i % 2 == 0 { 1 } else { 2 };
        let systems = if i < 2 { vec![system(1, "genesis")] } else { vec![system(3, "nes")] };
        let c = add_core(&mut db, slug, team_id, &systems);
        db.core_releases.push(release(i as i32 + 1, c.id, (i % 2) as i32 + 1, ts(2020 + i as i32, 1, 1)));
    }
    db
}

#[test]
fn pages_concatenate_to_unpaged_order() {
    let db = five_core_store();
    let all = slugs(&Core::list_with_teams_and_releases(&db, 0, 100, None, None, None, None));
    assert_eq!(all, vec!["c1", "c2", "c3", "c4", "c5"]);
    let mut joined: Vec<String> = Vec::new();
    for page in 0..4 {
        let rows = Core::list_with_teams_and_releases(&db, page, 2, None, None, None, None);
        assert!(rows.len() <= 2);
        joined.extend(slugs(&rows));
    }
    assert_eq!(joined, all);
    let last = Core::list_with_teams_and_releases(&db, 2, 2, None, None, None, None);
    assert_eq!(slugs(&last), vec!["c5".to_string()]);
}

#[test]
fn huge_page_is_empty() {
    let db = five_core_store();
    let rows = Core::list_with_teams_and_releases(&db, i64::MAX, i64::MAX, None, None, None, None);
    assert!(rows.is_empty());
}

#[test]
fn filters_combine_with_and() {
    let db = five_core_store();
    let linux = platform(1, "linux-x64");
    let nes = system(3, "nes");
    let t1 = team(1, "t1");
    let rows = Core::list_with_teams_and_releases(&db, 0, 10, Some(&linux), None, None, None);
    assert_eq!(slugs(&rows), vec!["c1", "c3", "c5"]);
    let rows = Core::list_with_teams_and_releases(&db, 0, 10, None, Some(&nes), None, None);
    assert_eq!(slugs(&rows), vec!["c3", "c4", "c5"]);
    let rows = Core::list_with_teams_and_releases(&db, 0, 10, None, None, Some(&team(2, "t2")), None);
    assert_eq!(slugs(&rows), vec!["c2", "c4"]);
    let rows = Core::list_with_teams_and_releases(
        &db,
        0,
        10,
        Some(&linux),
        Some(&nes),
        Some(&t1),
        Some(ts(2023, 1, 1)),
    );
    assert_eq!(slugs(&rows), vec!["c5"]);
    let rows = Core::list_with_teams_and_releases(&db, 1, 1, None, Some(&nes), None, None);
    assert_eq!(slugs(&rows), vec!["c4"]);
}

#[test]
fn predicate_holds_present_filters_only() {
    assert!(build_predicate(None, None, None, None).is_empty());
    assert_eq!(
        build_predicate(Some(1), None, Some(3), Some(99)),
        vec![Clause::OnPlatform(1), Clause::OwnedBy(3), Clause::ReleasedOnOrAfter(99)]
    );
    assert_eq!(build_predicate(None, Some(2), None, None), vec![Clause::HasSystem(2)]);
}

#[test]
fn groups_follow_key_order_with_empty_groups() {
    let mut db = base_store();
    let a = add_core(&mut db, "a", 1, &[system(1, "genesis"), system(2, "mastersystem")]);
    let b = add_core(&mut db, "b", 1, &[]);
    let c = add_core(&mut db, "c", 1, &[system(3, "nes")]);
    let groups = group_systems(&db, &vec![c.id, b.id, a.id, 99]);
    assert_eq!(groups.len(), 4);
    assert_eq!(groups[0].iter().map(|s| s.id).collect::<Vec<_>>(), vec![3]);
    assert!(groups[1].is_empty());
    assert_eq!(groups[2].iter().map(|s| s.id).collect::<Vec<_>>(), vec![1, 2]);
    assert!(groups[3].is_empty());
}

#[test]
fn create_links_systems_and_assigns_ids() {
    let mut db = base_store();
    let a = add_core(&mut db, "a", 1, &[system(2, "mastersystem"), system(1, "genesis")]);
    let b = add_core(&mut db, "b", 2, &[]);
    assert_eq!(a.id, 1);
    assert_eq!(b.id, 2);
    assert_eq!(a.name, "A");
    assert_eq!(a.description, "a core");
    assert_eq!(a.metadata, Json::Null);
    assert_eq!(a.links, Json::String("links".to_string()));
    assert_eq!(b.owner_team_id, 2);
    assert_eq!(db.cores.len(), 2);
    assert_eq!(
        db.core_systems,
        vec![CoreSystems { core_id: 1, system_id: 2 }, CoreSystems { core_id: 1, system_id: 1 }]
    );
    assert_eq!(db.next_core_id, 3);
}

#[test]
fn create_with_missing_system_leaves_no_core() {
    let mut db = base_store();
    add_core(&mut db, "a", 1, &[system(1, "genesis")]);
    let r = Core::create(
        &mut db,
        "b",
        "B",
        "",
        Json::Null,
        Json::Null,
        &[system(1, "genesis"), system(42, "ghost")],
        &team(1, "t1"),
    );
    assert_eq!(r.unwrap_err(), StorageError::ConstraintViolation(ConstraintKind::ForeignKey));
    assert_eq!(db.cores.len(), 1);
    assert_eq!(db.core_systems.len(), 1);
    assert_eq!(db.next_core_id, 2);
    assert!(Core::from_slug(&db, "b").is_none());
}

#[test]
fn create_reports_each_constraint() {
    let mut db = base_store();
    add_core(&mut db, "a", 1, &[]);
    let dup_slug = Core::create(&mut db, "a", "", "", Json::Null, Json::Null, &[], &team(1, ""));
    assert_eq!(dup_slug.unwrap_err(), StorageError::ConstraintViolation(ConstraintKind::UniqueSlug));
    let no_team = Core::create(&mut db, "b", "", "", Json::Null, Json::Null, &[], &team(9, ""));
    assert_eq!(no_team.unwrap_err(), StorageError::ConstraintViolation(ConstraintKind::ForeignKey));
    let twice = [system(1, "genesis"), system(1, "genesis")];
    let dup = Core::create(&mut db, "b", "", "", Json::Null, Json::Null, &twice, &team(1, ""));
    assert_eq!(dup.unwrap_err(), StorageError::ConstraintViolation(ConstraintKind::DuplicateKey));
    db.next_core_id = i32::MAX;
    let full = Core::create(&mut db, "b", "", "", Json::Null, Json::Null, &[], &team(1, ""));
    assert_eq!(full.unwrap_err(), StorageError::StorageUnavailable);
    assert_eq!(db.cores.len(), 1);
}

#[test]
fn get_one_by_id_and_slug() {
    let db = picodrive_store();
    let (core, team, systems) =
        Core::get_with_owner_and_systems(&db, &IdOrSlug::Slug("picodrive".to_string())).unwrap();
    assert_eq!(core.id, 1);
    assert_eq!(team.slug, "t1");
    assert_eq!(systems.iter().map(|s| s.slug.clone()).collect::<Vec<_>>(), vec!["genesis", "mastersystem"]);
    let (core, _, _) = Core::get_with_owner_and_systems(&db, &IdOrSlug::Id(1)).unwrap();
    assert_eq!(core.slug, "picodrive");
}

#[test]
fn get_one_missing_is_none() {
    let db = picodrive_store();
    assert!(Core::get_with_owner_and_systems(&db, &IdOrSlug::Id(404)).is_none());
    assert!(Core::get_with_owner_and_systems(&db, &IdOrSlug::Slug("nope".to_string())).is_none());
}

#[test]
fn parse_reads_ids_and_slugs() {
    assert_eq!(IdOrSlug::parse("42").as_id(), Some(42));
    assert_eq!(IdOrSlug::parse("-7").as_id(), Some(-7));
    assert_eq!(IdOrSlug::parse("+5").as_id(), Some(5));
    assert_eq!(IdOrSlug::parse("picodrive").as_slug(), Some("picodrive"));
    assert_eq!(IdOrSlug::parse("picodrive").as_id(), None);
    assert_eq!(IdOrSlug::parse("99999999999").as_slug(), Some("99999999999"));
    assert_eq!(IdOrSlug::parse("-").as_slug(), Some("-"));
    assert_eq!(IdOrSlug::parse("12a").as_slug(), Some("12a"));
    assert_eq!(IdOrSlug::parse("42").as_slug(), None);
}

#[test]
fn lookups_by_id_and_slug() {
    let db = picodrive_store();
    assert_eq!(Core::from_id(&db, 1).unwrap().slug, "picodrive");
    assert!(Core::from_id(&db, 2).is_none());
    assert_eq!(Core::from_slug(&db, "picodrive").unwrap().id, 1);
    assert!(Core::from_slug(&db, "genesis").is_none());
}

#[test]
fn plain_lists_page_the_cores() {
    let mut db = five_core_store();
    db.cores.push(Core {
        id: 77,
        slug: "orphan".to_string(),
        name: String::new(),
        description: String::new(),
        metadata: Json::Null,
        links: Json::Null,
        owner_team_id: 55,
    });
    let page: Vec<String> = Core::list(&db, 1, 2).iter().map(|c| c.slug.clone()).collect();
    assert_eq!(page, vec!["c3", "c4"]);
    let page: Vec<String> = Core::list(&db, 2, 2).iter().map(|c| c.slug.clone()).collect();
    assert_eq!(page, vec!["c5", "orphan"]);
    let teamed = Core::list_with_teams(&db, 2, 2);
    assert_eq!(teamed.len(), 1);
    assert_eq!(teamed[0].0.slug, "c5");
    assert_eq!(teamed[0].1.slug, "t1");
    assert!(Core::list(&db, 5, 2).is_empty());
}
