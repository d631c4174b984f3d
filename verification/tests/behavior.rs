use userdb::names::create_users;
use userdb::names::generate_name;
use userdb::partition::partition;
use userdb::table::DbError;
use userdb::table::Table;
use userdb::users::DbUser;
use userdb::users::User;
use userdb::workers::batch_insertion;
use userdb::workers::dispatch_outcome;
use userdb::DATASET_SIZE;
use userdb::NAME_LEN;

fn users_from(names: &[&str]) -> Vec<User> {
    names.iter().map(|n| User::new((*n).to_string())).collect()
}

fn part_names(part: &[User]) -> Vec<String> {
    part.iter().map(|u| u.name.clone()).collect()
}

#[test]
fn generated_name_shape() {
    let name = generate_name();
    assert_eq!(name.chars().count(), NAME_LEN);
    assert!(name.chars().all(|c| c.is_ascii_alphanumeric()));
}

#[test]
fn generated_dataset_size_and_shape() {
    let names = create_users();
    assert_eq!(names.len(), DATASET_SIZE);
    assert!(names.iter().all(|n| n.chars().count() == NAME_LEN));
    assert!(names.iter().all(|n| n.chars().all(|c| c.is_ascii_alphanumeric())));
}

#[test]
fn user_and_db_user_constructors() {
    let u = User::new("carol".to_string());
    assert_eq!(u.name, "carol");
    let d = DbUser::new(7, "dave".to_string());
    assert_eq!(d.id, 7);
    assert_eq!(d.name, "dave");
}

#[test]
fn partition_strides_of_seven_into_three() {
    let users = users_from(&["a", "b", "c", "d", "e", "f", "g"]);
    let parts = partition(&users, 3);
    assert_eq!(parts.len(), 3);
    assert_eq!(part_names(&parts[0]), vec!["a", "d", "g"]);
    assert_eq!(part_names(&parts[1]), vec!["b", "e"]);
    assert_eq!(part_names(&parts[2]), vec!["c", "f"]);
}

#[test]
fn partition_single_worker_takes_everything() {
    let users = users_from(&["x", "y", "z"]);
    let parts = partition(&users, 1);
    assert_eq!(parts.len(), 1);
    assert_eq!(part_names(&parts[0]), vec!["x", "y", "z"]);
}

#[test]
fn partition_more_workers_than_items() {
    let users = users_from(&["x", "y"]);
    let parts = partition(&users, 5);
    assert_eq!(parts.len(), 5);
    assert_eq!(part_names(&parts[0]), vec!["x"]);
    assert_eq!(part_names(&parts[1]), vec!["y"]);
    assert!(parts[2].is_empty());
    assert!(parts[3].is_empty());
    assert!(parts[4].is_empty());
}

#[test]
fn partition_union_is_dataset_exactly_once() {
    let names: Vec<String> = (0..10).map(|i| format!("user{}", i)).collect();
    let users: Vec<User> = names.iter().map(|n| User::new(n.clone())).collect();
    let parts = partition(&users, 4);
    let mut collected: Vec<String> = Vec::new();
    for part in &parts {
        for u in part {
            collected.push(u.name.clone());
        }
    }
    assert_eq!(collected.len(), names.len());
    for n in &names {
        assert_eq!(collected.iter().filter(|c| *c == n).count(), 1);
    }
}

#[test]
fn ensure_schema_reports_created_then_exists() {
    let mut t = Table::new();
    assert!(!t.ensure_schema());
    let r = t.insert("erin".to_string());
    assert_eq!(r, Ok(1));
    assert!(t.ensure_schema());
    assert_eq!(t.row_count(), 1);
    assert_eq!(t.select_all()[0].name, "erin");
}

#[test]
fn duplicate_insert_keeps_one_row_and_reports_one_failure() {
    let mut t = Table::new();
    t.ensure_schema();
    assert_eq!(t.insert("alice".to_string()), Ok(1));
    assert_eq!(t.insert("alice".to_string()), Err(DbError::DuplicateName));
    assert_eq!(t.row_count(), 1);
    let rows = t.select_all();
    assert_eq!(rows.len(), 1);
    assert_eq!(rows[0].id, 1);
    assert_eq!(rows[0].name, "alice");
}

#[test]
fn delete_all_on_empty_table_reports_zero() {
    let mut t = Table::new();
    t.ensure_schema();
    assert_eq!(t.delete_all(), 0);
    assert_eq!(t.row_count(), 0);
}

#[test]
fn insert_assigns_increasing_ids() {
    let mut t = Table::new();
    t.ensure_schema();
    assert_eq!(t.insert("a".to_string()), Ok(1));
    assert_eq!(t.insert("b".to_string()), Ok(2));
    t.delete_all();
    assert_eq!(t.insert("c".to_string()), Ok(3));
}

#[test]
fn end_to_end_hundred_unique_names_four_workers() {
    let mut names: Vec<String> = Vec::new();
    while names.len() < 100 {
        let n = generate_name();
        if !names.contains(&n) {
            names.push(n);
        }
    }
    let users: Vec<User> = names.iter().map(|n| User::new(n.clone())).collect();
    let parts = partition(&users, 4);
    let mut t = Table::new();
    t.ensure_schema();
    let mut attempted = 0;
    for part in &parts {
        let report = batch_insertion(&mut t, part);
        attempted += report.attempted;
        assert_eq!(report.duplicates, 0);
    }
    assert_eq!(attempted, 100);
    let rows = t.select_all();
    assert_eq!(rows.len(), 100);
    for n in &names {
        assert_eq!(rows.iter().filter(|r| &r.name == n).count(), 1);
    }
}

#[test]
fn end_to_end_duplicate_pair_loses_one_row() {
    let mut names: Vec<String> = (0..10).map(|i| format!("name{}", i)).collect();
    names[7] = names[3].clone();
    let users: Vec<User> = names.iter().map(|n| User::new(n.clone())).collect();
    let mut t = Table::new();
    t.ensure_schema();
    let report = batch_insertion(&mut t, &users);
    assert_eq!(report.attempted, 10);
    assert_eq!(report.inserted, 9);
    assert_eq!(report.duplicates, 1);
    assert_eq!(t.row_count(), names.len() - 1);
}

#[test]
fn end_to_end_delete_reports_count_then_select_is_empty() {
    let mut t = Table::new();
    t.ensure_schema();
    let users = users_from(&["a", "b", "c", "d", "e"]);
    batch_insertion(&mut t, &users);
    assert_eq!(t.row_count(), 5);
    assert_eq!(t.delete_all(), 5);
    assert!(t.select_all().is_empty());
    assert_eq!(t.delete_all(), 0);
}

#[test]
fn dispatch_succeeds_when_every_worker_joins() {
    let joins = vec![true, true, true, true];
    assert_eq!(dispatch_outcome(&joins), Ok(()));
    assert_eq!(dispatch_outcome(&Vec::new()), Ok(()));
}

#[test]
fn dispatch_surfaces_first_task_fault() {
    let joins = vec![true, false, true, false];
    assert_eq!(dispatch_outcome(&joins), Err(1));
}

#[test]
fn worker_swallows_every_duplicate_and_finishes() {
    let users = users_from(&["same", "same", "same", "same"]);
    let mut t = Table::new();
    t.ensure_schema();
    let report = batch_insertion(&mut t, &users);
    assert_eq!(report.attempted, 4);
    assert_eq!(report.inserted, 1);
    assert_eq!(report.duplicates, 3);
    assert_eq!(t.row_count(), 1);
}
