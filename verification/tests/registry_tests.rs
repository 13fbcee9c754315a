use athlete_registry::record::AthletePerformance;
use athlete_registry::record::AthleteUpdatePayload;
use athlete_registry::record::RegistryError;
use athlete_registry::registry::Registry;

fn payload(name: &str, sport: &str, metrics: &str, achievements: &[&str]) -> AthleteUpdatePayload {
    AthleteUpdatePayload {
        athlete_name: name.to_string(),
        sport: sport.to_string(),
        performance_metrics: metrics.to_string(),
        achievements: achievements.iter().map(|a| a.to_string()).collect(),
    }
}

fn assert_same_record(a: &AthletePerformance, b: &AthletePerformance) {
    assert_eq!(a.id, b.id);
    assert_eq!(a.athlete_name, b.athlete_name);
    assert_eq!(a.sport, b.sport);
    assert_eq!(a.performance_metrics, b.performance_metrics);
    assert_eq!(a.achievements, b.achievements);
    assert_eq!(a.created_at, b.created_at);
    assert_eq!(a.updated_at, b.updated_at);
}

#[test]
fn ids_are_unique_and_increasing() {
    let mut reg = Registry::new();
    let a = reg.add_athlete_performance(payload("A", "x", "", &[]), 10);
    let b = reg.add_athlete_performance(payload("B", "y", "", &[]), 11);
    let c = reg.add_athlete_performance(payload("C", "z", "", &[]), 12);
    assert!(a.id < b.id);
    assert!(b.id < c.id);
    // an id is never reassigned, even after deletion
    reg.delete_athlete_performance(b.id).unwrap();
    let d = reg.add_athlete_performance(payload("D", "w", "", &[]), 13);
    assert!(c.id < d.id);
    assert_ne!(d.id, b.id);
}

#[test]
fn create_then_get_returns_equal_record() {
    let mut reg = Registry::new();
    let created = reg.add_athlete_performance(
        payload("Jordan", "Basketball", "30 ppg", &["MVP", "All-Star"]),
        1000,
    );
    assert_eq!(created.created_at, 1000);
    assert_eq!(created.updated_at, None);
    let fetched = reg.get_athlete_performance(created.id).unwrap();
    assert_same_record(&created, &fetched);
}

#[test]
fn get_missing_id_is_not_found() {
    let reg = Registry::new();
    assert_eq!(
        reg.get_athlete_performance(7).unwrap_err(),
        RegistryError::NotFound
    );
}

#[test]
fn update_all_empty_advances_updated_at_only() {
    let mut reg = Registry::new();
    let created = reg.add_athlete_performance(payload("Ana", "Swimming", "50s", &["Gold"]), 100);
    let updated = reg
        .update_athlete_performance(created.id, payload("", "", "", &[]), 200)
        .unwrap();
    assert_eq!(updated.updated_at, Some(200));
    assert_eq!(updated.athlete_name, "Ana");
    assert_eq!(updated.sport, "Swimming");
    assert_eq!(updated.performance_metrics, "50s");
    assert_eq!(updated.achievements, vec!["Gold".to_string()]);
    assert_eq!(updated.created_at, 100);
    let fetched = reg.get_athlete_performance(created.id).unwrap();
    assert_same_record(&updated, &fetched);
}

#[test]
fn update_name_only_changes_name_alone() {
    let mut reg = Registry::new();
    let created = reg.add_athlete_performance(payload("Ana", "Swimming", "50s", &["Gold"]), 100);
    let updated = reg
        .update_athlete_performance(created.id, payload("Maria", "", "", &[]), 200)
        .unwrap();
    assert_eq!(updated.athlete_name, "Maria");
    assert_eq!(updated.sport, "Swimming");
    assert_eq!(updated.performance_metrics, "50s");
    assert_eq!(updated.achievements, vec!["Gold".to_string()]);
    assert_eq!(updated.created_at, 100);
    assert_eq!(updated.updated_at, Some(200));
}

#[test]
fn update_missing_id_is_not_found() {
    let mut reg = Registry::new();
    assert_eq!(
        reg.update_athlete_performance(3, payload("X", "", "", &[]), 5)
            .unwrap_err(),
        RegistryError::NotFound
    );
}

#[test]
fn replace_achievements_clears_where_update_does_not() {
    let mut reg = Registry::new();
    let created = reg.add_athlete_performance(payload("Ana", "Swimming", "", &["Gold"]), 100);
    // an update with an empty achievements list leaves them as they were
    let updated = reg
        .update_athlete_performance(created.id, payload("", "", "", &[]), 200)
        .unwrap();
    assert_eq!(updated.achievements, vec!["Gold".to_string()]);
    // replacement with an empty list clears them
    let replaced = reg
        .update_athlete_achievements(created.id, Vec::new(), 300)
        .unwrap();
    assert!(replaced.achievements.is_empty());
    assert_eq!(replaced.updated_at, Some(300));
    let fetched = reg.get_athlete_performance(created.id).unwrap();
    assert!(fetched.achievements.is_empty());
}

#[test]
fn replace_achievements_missing_id_is_not_found() {
    let mut reg = Registry::new();
    assert_eq!(
        reg.update_athlete_achievements(9, vec!["X".to_string()], 5)
            .unwrap_err(),
        RegistryError::NotFound
    );
}

#[test]
fn delete_then_get_fails_and_second_delete_fails() {
    let mut reg = Registry::new();
    let created = reg.add_athlete_performance(payload("Ana", "Swimming", "", &[]), 100);
    let removed = reg.delete_athlete_performance(created.id).unwrap();
    assert_same_record(&created, &removed);
    assert_eq!(
        reg.get_athlete_performance(created.id).unwrap_err(),
        RegistryError::NotFound
    );
    assert_eq!(
        reg.delete_athlete_performance(created.id).unwrap_err(),
        RegistryError::NotFound
    );
}

#[test]
fn count_fails_on_empty_store_and_counts_after_create() {
    let mut reg = Registry::new();
    assert_eq!(reg.get_athlete_count().unwrap_err(), RegistryError::EmptyStore);
    reg.add_athlete_performance(payload("Ana", "Swimming", "", &[]), 100);
    assert_eq!(reg.get_athlete_count().unwrap(), 1);
    reg.add_athlete_performance(payload("Jo", "Golf", "", &[]), 101);
    assert_eq!(reg.get_athlete_count().unwrap(), 2);
}

#[test]
fn count_fails_again_after_all_records_deleted() {
    let mut reg = Registry::new();
    let a = reg.add_athlete_performance(payload("Ana", "Swimming", "", &[]), 100);
    reg.delete_athlete_performance(a.id).unwrap();
    assert_eq!(reg.get_athlete_count().unwrap_err(), RegistryError::EmptyStore);
}

#[test]
fn search_by_name_is_case_sensitive_substring() {
    let mut reg = Registry::new();
    reg.add_athlete_performance(payload("Banana", "x", "", &[]), 1);
    reg.add_athlete_performance(payload("Santana", "y", "", &[]), 2);
    reg.add_athlete_performance(payload("Anne", "z", "", &[]), 3);
    reg.add_athlete_performance(payload("Ana", "w", "", &[]), 4);
    let found = reg.search_athlete_by_name("ana".to_string());
    let names: Vec<String> = found.iter().map(|r| r.athlete_name.clone()).collect();
    assert_eq!(names, vec!["Banana".to_string(), "Santana".to_string()]);
}

#[test]
fn search_by_name_empty_query_matches_all() {
    let mut reg = Registry::new();
    reg.add_athlete_performance(payload("A", "x", "", &[]), 1);
    reg.add_athlete_performance(payload("B", "y", "", &[]), 2);
    assert_eq!(reg.search_athlete_by_name(String::new()).len(), 2);
}

#[test]
fn search_by_sport_substring() {
    let mut reg = Registry::new();
    reg.add_athlete_performance(payload("Jordan", "Basketball", "", &[]), 1);
    reg.add_athlete_performance(payload("Ana", "Swimming", "", &[]), 2);
    let found = reg.search_athlete_by_sport("Swim".to_string());
    assert_eq!(found.len(), 1);
    assert_eq!(found[0].athlete_name, "Ana");
}

#[test]
fn search_by_achievement_is_exact_match() {
    let mut reg = Registry::new();
    reg.add_athlete_performance(payload("Jordan", "Basketball", "", &["MVP"]), 1);
    reg.add_athlete_performance(payload("Ana", "Swimming", "", &["Gold", "MVP"]), 2);
    reg.add_athlete_performance(payload("Jo", "Golf", "", &["MVP of the year"]), 3);
    let found = reg.search_athlete_by_achievements("MVP".to_string());
    let names: Vec<String> = found.iter().map(|r| r.athlete_name.clone()).collect();
    assert_eq!(names, vec!["Jordan".to_string(), "Ana".to_string()]);
    // a prefix of an achievement is not an exact match
    assert!(reg.search_athlete_by_achievements("MV".to_string()).is_empty());
}

#[test]
fn recently_updated_window_is_strict() {
    let now: u64 = 10_000_000;
    let week: u64 = 604800;
    let mut reg = Registry::new();
    let stale = reg.add_athlete_performance(payload("Old", "x", "", &[]), 1);
    let edge = reg.add_athlete_performance(payload("Edge", "y", "", &[]), 2);
    let fresh = reg.add_athlete_performance(payload("New", "z", "", &[]), 3);
    let never = reg.add_athlete_performance(payload("Never", "w", "", &[]), now);
    // stamped exactly one unit outside the window: excluded
    reg.update_athlete_performance(stale.id, payload("", "", "", &[]), now - week - 1)
        .unwrap();
    // stamped exactly at the window's lower edge: still excluded (strict)
    reg.update_athlete_performance(edge.id, payload("", "", "", &[]), now - week)
        .unwrap();
    // stamped one unit before now: included
    reg.update_athlete_performance(fresh.id, payload("", "", "", &[]), now - 1)
        .unwrap();
    let found = reg.get_recently_updated_athletes(now);
    let names: Vec<String> = found.iter().map(|r| r.athlete_name.clone()).collect();
    assert_eq!(names, vec!["New".to_string()]);
    // a record never updated is excluded however recently it was created
    assert!(!names.contains(&never.athlete_name));
}

#[test]
fn get_all_returns_records_in_storage_order() {
    let mut reg = Registry::new();
    let a = reg.add_athlete_performance(payload("A", "x", "", &[]), 1);
    let b = reg.add_athlete_performance(payload("B", "y", "", &[]), 2);
    let all = reg.get_all_athlete_performances();
    assert_eq!(all.len(), 2);
    assert_same_record(&all[0], &a);
    assert_same_record(&all[1], &b);
}

#[test]
fn scenario_two_records_search_and_delete() {
    let mut reg = Registry::new();
    let a = reg.add_athlete_performance(payload("Jordan", "Basketball", "", &["MVP"]), 1);
    let b = reg.add_athlete_performance(payload("Ana", "Swimming", "", &[]), 2);

    let by_sport = reg.search_athlete_by_sport("Swim".to_string());
    assert_eq!(by_sport.len(), 1);
    assert_eq!(by_sport[0].id, b.id);

    let by_ach = reg.search_athlete_by_achievements("MVP".to_string());
    assert_eq!(by_ach.len(), 1);
    assert_eq!(by_ach[0].id, a.id);

    let removed = reg.delete_athlete_performance(a.id).unwrap();
    assert_same_record(&removed, &a);

    let all = reg.get_all_athlete_performances();
    assert_eq!(all.len(), 1);
    assert_same_record(&all[0], &b);
}

#[test]
fn generate_athlete_id_starts_at_zero_and_advances() {
    let mut reg = Registry::new();
    assert_eq!(reg.generate_athlete_id(), 0);
    assert_eq!(reg.generate_athlete_id(), 1);
    assert_eq!(reg.generate_athlete_id(), 2);
}

#[test]
fn do_insert_overwrites_record_at_its_id() {
    let mut reg = Registry::new();
    let created = reg.add_athlete_performance(payload("Ana", "Swimming", "", &[]), 100);
    let replacement = AthletePerformance {
        id: created.id,
        athlete_name: "Ana Maria".to_string(),
        sport: "Diving".to_string(),
        performance_metrics: "10m".to_string(),
        achievements: vec!["Silver".to_string()],
        created_at: created.created_at,
        updated_at: Some(150),
    };
    reg.do_insert_athlete_performance(&replacement);
    let fetched = reg.get_athlete_performance(created.id).unwrap();
    assert_same_record(&fetched, &replacement);
    assert_eq!(reg.get_athlete_count().unwrap(), 1);
}

#[test]
fn duplicate_is_an_equal_copy() {
    let mut reg = Registry::new();
    let created = reg.add_athlete_performance(payload("Ana", "Swimming", "50s", &["Gold"]), 7);
    let copy = created.duplicate();
    assert_same_record(&created, &copy);
}

#[test]
fn count_may_be_zero_while_get_athlete_count_errs() {
    let mut reg = Registry::new();
    assert_eq!(reg.count(), 0);
    assert_eq!(reg.get_athlete_count().unwrap_err(), RegistryError::EmptyStore);
    reg.add_athlete_performance(payload("Ana", "Swimming", "", &[]), 1);
    assert_eq!(reg.count(), 1);
}

#[test]
fn peek_next_id_matches_assigned_id() {
    let mut reg = Registry::new();
    let next = reg.peek_next_id();
    let created = reg.add_athlete_performance(payload("Ana", "Swimming", "", &[]), 1);
    assert_eq!(created.id, next);
    assert_eq!(reg.peek_next_id(), next + 1);
}

#[test]
fn restore_rebuilds_a_saved_store() {
    let mut reg = Registry::new();
    reg.add_athlete_performance(payload("Ana", "Swimming", "", &["Gold"]), 1);
    reg.add_athlete_performance(payload("Jo", "Golf", "", &[]), 2);
    let saved = reg.get_all_athlete_performances();
    let next = reg.peek_next_id();

    let restored = Registry::restore(saved, next).unwrap();
    let all = reg.get_all_athlete_performances();
    let all_restored = restored.get_all_athlete_performances();
    assert_eq!(all.len(), all_restored.len());
    for (a, b) in all.iter().zip(all_restored.iter()) {
        assert_same_record(a, b);
    }
}

#[test]
fn restore_rejects_unsorted_or_unbounded_state() {
    let mut reg = Registry::new();
    let a = reg.add_athlete_performance(payload("Ana", "Swimming", "", &[]), 1);
    let b = reg.add_athlete_performance(payload("Jo", "Golf", "", &[]), 2);
    let all = reg.get_all_athlete_performances();
    // records out of id order
    let reversed = vec![all[1].duplicate(), all[0].duplicate()];
    assert!(Registry::restore(reversed, reg.peek_next_id()).is_none());
    // a counter at or below a stored id would let ids collide later
    let saved = reg.get_all_athlete_performances();
    assert!(Registry::restore(saved, b.id).is_none());
    let _ = a;
}
