use project_store::codec::{parse_projects, serialize_projects, serialize_projects_pretty};
use project_store::project::{find_project_by_name, update_or_add_project, Project, Status};

fn rec(name: &str, status: Status, focus: u8) -> Project {
    Project { name: name.to_string(), status, focus }
}

#[test]
fn find_missing_is_none() {
    let v = vec![rec("one", Status::Active, 100)];
    assert!(find_project_by_name(&v, "two").is_none());
    let empty: Vec<Project> = Vec::new();
    assert!(find_project_by_name(&empty, "one").is_none());
}

#[test]
fn find_present_returns_record() {
    let v = vec![rec("one", Status::Active, 100), rec("two", Status::Archived, 75)];
    let p = find_project_by_name(&v, "two").unwrap();
    assert_eq!(p.name, "two");
    assert_eq!(p.status, Status::Archived);
    assert_eq!(p.focus, 75);
}

#[test]
fn find_is_case_sensitive() {
    let v = vec![rec("one", Status::Active, 100)];
    assert!(find_project_by_name(&v, "One").is_none());
}

#[test]
fn find_first_of_duplicates() {
    // A hand-built collection may hold the same name twice; the first
    // match, by storage order, wins.
    let v = vec![rec("dup", Status::Active, 1), rec("dup", Status::Inactive, 2)];
    let p = find_project_by_name(&v, "dup").unwrap();
    assert_eq!(p.status, Status::Active);
    assert_eq!(p.focus, 1);
}

#[test]
fn upsert_replaces_existing() {
    let mut v = vec![rec("one", Status::Active, 100), rec("two", Status::Archived, 75)];
    update_or_add_project(&mut v, rec("two", Status::Active, 33));
    assert_eq!(v.len(), 2);
    assert_eq!(v[0].name, "one");
    assert_eq!(v[0].focus, 100);
    assert_eq!(v[1].name, "two");
    assert_eq!(v[1].status, Status::Active);
    assert_eq!(v[1].focus, 33);
}

#[test]
fn upsert_appends_new() {
    let mut v = vec![rec("one", Status::Active, 100)];
    update_or_add_project(&mut v, rec("three", Status::Inactive, 10));
    assert_eq!(v.len(), 2);
    assert_eq!(v[0].name, "one");
    assert_eq!(v[1].name, "three");
    assert_eq!(v[1].status, Status::Inactive);
    assert_eq!(v[1].focus, 10);
}

#[test]
fn upsert_twice_is_once() {
    let mut once = vec![rec("one", Status::Active, 100)];
    let mut twice = vec![rec("one", Status::Active, 100)];
    update_or_add_project(&mut once, rec("two", Status::Archived, 75));
    update_or_add_project(&mut twice, rec("two", Status::Archived, 75));
    update_or_add_project(&mut twice, rec("two", Status::Archived, 75));
    assert_eq!(once.len(), twice.len());
    for i in 0..once.len() {
        assert_eq!(once[i].name, twice[i].name);
        assert_eq!(once[i].status, twice[i].status);
        assert_eq!(once[i].focus, twice[i].focus);
    }
}

#[test]
fn upsert_replaces_first_of_duplicates() {
    let mut v = vec![rec("dup", Status::Active, 1), rec("dup", Status::Inactive, 2)];
    update_or_add_project(&mut v, rec("dup", Status::Archived, 3));
    assert_eq!(v.len(), 2);
    assert_eq!(v[0].status, Status::Archived);
    assert_eq!(v[0].focus, 3);
    assert_eq!(v[1].status, Status::Inactive);
    assert_eq!(v[1].focus, 2);
}

#[test]
fn write_find_update_scenario() {
    // Write two records, look one up in memory, read the text back,
    // upsert, write pretty, read again.
    let projects = vec![rec("one", Status::Active, 100), rec("two", Status::Archived, 75)];
    let stored = serialize_projects(&projects);

    let found = find_project_by_name(&projects, "two").unwrap();
    assert_eq!(found.status, Status::Archived);
    assert_eq!(found.focus, 75);

    let mut loaded = parse_projects(&stored).unwrap();
    assert_eq!(loaded.len(), 2);
    assert_eq!(loaded[0].name, "one");
    assert_eq!(loaded[1].name, "two");

    update_or_add_project(&mut loaded, rec("two", Status::Active, 33));
    let stored_pretty = serialize_projects_pretty(&loaded);

    let final_projects = parse_projects(&stored_pretty).unwrap();
    assert_eq!(final_projects.len(), 2);
    assert_eq!(final_projects[0].name, "one");
    assert_eq!(final_projects[0].status, Status::Active);
    assert_eq!(final_projects[0].focus, 100);
    assert_eq!(final_projects[1].name, "two");
    assert_eq!(final_projects[1].status, Status::Active);
    assert_eq!(final_projects[1].focus, 33);
}
