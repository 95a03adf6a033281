use vpm_core::project::{project_name_from_path, sort_projects_by_modified, DateTime, ObjectId, Project, ProjectType};

#[test]
fn new_project_defaults() {
    let p = Project::new(
        "/home/dev/MyWorld".to_string(),
        Some("2022.3.6f1".to_string()),
        ProjectType(7),
    );
    assert_eq!(p.path(), "/home/dev/MyWorld");
    assert_eq!(p.unity_version(), Some("2022.3.6f1"));
    assert_eq!(p.project_type(), ProjectType(7));
    assert!(!p.favorite());
    assert_eq!(
        p.created_at().as_millis_since_epoch(),
        p.last_modified().as_millis_since_epoch()
    );
}

#[test]
fn setters_update_their_field_only() {
    let mut p = Project::new("/a".to_string(), None, ProjectType(0));
    let id = p.id();
    let created = p.created_at();
    p.set_path("/b".to_string());
    assert_eq!(p.path(), "/b");
    p.set_project_type(ProjectType(8));
    assert_eq!(p.project_type(), ProjectType(8));
    p.set_unity_version(Some("2019.4.31f1".to_string()));
    assert_eq!(p.unity_version(), Some("2019.4.31f1"));
    p.set_favorite(true);
    assert!(p.favorite());
    let stamp = DateTime::from_millis(123_456_789);
    p.set_last_modified(stamp);
    assert_eq!(p.last_modified().as_millis_since_epoch(), 123_456_789);
    assert_eq!(p.id(), id);
    assert_eq!(
        p.created_at().as_millis_since_epoch(),
        created.as_millis_since_epoch()
    );
}

#[test]
fn datetime_and_object_id() {
    let d = DateTime::from_millis(42);
    assert_eq!(d.as_millis_since_epoch(), 42);
    assert!(DateTime::now().as_millis_since_epoch() >= 0);
    let a = ObjectId::from_raw(7);
    let b = ObjectId::from_raw(7);
    assert_eq!(a, b);
}

#[test]
fn project_type_labels() {
    assert_eq!(ProjectType(0).label(), "Unknown");
    assert_eq!(ProjectType(7).label(), "Worlds");
    assert_eq!(ProjectType(8).label(), "Avatars");
    assert_eq!(ProjectType(9).label(), "VPM Starter");
    assert_eq!(ProjectType(77).label(), "Unexpected(77)");
    assert_eq!(ProjectType(1000).label(), "Unexpected(1000)");
}

#[test]
fn display_name_is_last_segment() {
    assert_eq!(project_name_from_path("/home/dev/MyWorld"), "MyWorld");
    assert_eq!(project_name_from_path("C:\\Users\\dev\\MyWorld"), "MyWorld");
    assert_eq!(project_name_from_path("plain"), "plain");
    assert_eq!(project_name_from_path("mixed\\a/b"), "b");
    assert_eq!(project_name_from_path("trailing/"), "");
}

#[test]
fn listing_orders_most_recent_first() {
    let stamps = [50i64, 10, 90, 50, 70];
    let mut projects: Vec<Project> = stamps
        .iter()
        .enumerate()
        .map(|(i, &ms)| {
            let mut p = Project::new(format!("/p{i}"), None, ProjectType(0));
            p.set_last_modified(DateTime::from_millis(ms));
            p
        })
        .collect();
    sort_projects_by_modified(&mut projects);
    let ordered: Vec<i64> = projects
        .iter()
        .map(|p| p.last_modified().as_millis_since_epoch())
        .collect();
    assert_eq!(ordered, vec![90, 70, 50, 50, 10]);
    let mut paths: Vec<&str> = projects.iter().map(|p| p.path()).collect();
    paths.sort();
    assert_eq!(paths, vec!["/p0", "/p1", "/p2", "/p3", "/p4"]);
}
