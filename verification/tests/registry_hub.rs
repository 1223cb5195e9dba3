use coedit::hub::Hub;
use coedit::ids::{ClientId, FileId, ProjectId};
use coedit::listeners::Registry;
use coedit::s2c::Server2Client;

fn client(n: u64) -> ClientId {
    ClientId { client_id: n }
}

#[test]
fn subscribe_is_idempotent_per_subscriber() {
    let mut r = Registry::new();
    assert!(r.subscribe(client(1)));
    assert!(!r.subscribe(client(1)));
    assert!(r.subscribe(client(2)));
    assert!(r.contains(client(1)));
    assert!(r.contains(client(2)));
    assert_eq!(r.ids.len(), 2);
}

#[test]
fn unsubscribe_removes_only_the_named_subscriber() {
    let mut r = Registry::new();
    r.subscribe(client(1));
    r.subscribe(client(2));
    r.unsubscribe(client(1));
    assert!(!r.contains(client(1)));
    assert!(r.contains(client(2)));
    // unknown ids are a no-op
    r.unsubscribe(client(9));
    assert!(r.contains(client(2)));
}

#[test]
fn recipients_skip_the_originator_and_the_dead() {
    let mut r = Registry::new();
    r.subscribe(client(1));
    r.subscribe(client(2));
    r.subscribe(client(3));
    r.subscribe(client(4));
    let dead = vec![client(3)];
    let targets = r.recipients(Some(client(1)), &dead);
    assert!(!targets.contains(&client(1)));
    assert!(!targets.contains(&client(3)));
    assert!(targets.contains(&client(2)));
    assert!(targets.contains(&client(4)));
    assert_eq!(targets.len(), 2);
}

#[test]
fn recipients_without_exception_reach_everyone_alive() {
    let mut r = Registry::new();
    r.subscribe(client(1));
    r.subscribe(client(2));
    let targets = r.recipients(None, &Vec::new());
    assert_eq!(targets.len(), 2);
}

#[test]
fn prune_drops_dead_subscribers_after_the_iteration() {
    let mut r = Registry::new();
    r.subscribe(client(1));
    r.subscribe(client(2));
    r.subscribe(client(3));
    let dead = vec![client(1), client(3)];
    r.prune(&dead);
    assert!(!r.contains(client(1)));
    assert!(r.contains(client(2)));
    assert!(!r.contains(client(3)));
}

#[test]
fn hub_assigns_monotonic_project_ids() {
    let mut hub = Hub::new();
    let a = hub.create_project("alpha".to_string());
    let b = hub.create_project("beta".to_string());
    assert_eq!(a, ProjectId { project_id: 0 });
    assert_eq!(b, ProjectId { project_id: 1 });
    assert!(hub.get_project(a).is_some());
    assert!(hub.get_project(b).is_some());
    assert!(hub.get_project(ProjectId { project_id: 2 }).is_none());
    assert_eq!(hub.get_project(b).unwrap().project.name, "beta");
}

#[test]
fn hub_new_project_carries_seed_files() {
    let mut hub = Hub::new();
    let id = hub.create_project("p".to_string());
    let actor = hub.get_project(id).unwrap();
    assert_eq!(actor.project.files.len(), 3);
    assert_eq!(actor.project.files[0].name, "index.md");
    assert_eq!(actor.project.files[1].name, "abstract.md");
    assert_eq!(actor.project.files[2].name, "conlusion.md");
    assert_eq!(actor.project.files[0].src, "# Index");
}

#[test]
fn hub_load_project_restores_files_in_order() {
    let mut hub = Hub::new();
    let parts = vec![
        ("intro".to_string(), "# Intro".to_string()),
        ("body".to_string(), "# Body".to_string()),
    ];
    let id = hub.load_project("restored".to_string(), parts);
    let actor = hub.get_project(id).unwrap();
    assert_eq!(actor.project.files.len(), 2);
    assert_eq!(actor.project.files[0].name, "intro");
    assert_eq!(actor.project.files[0].src, "# Intro");
    assert_eq!(actor.project.files[1].name, "body");
    assert_eq!(
        actor.project.order,
        vec![FileId { file_id: 0 }, FileId { file_id: 1 }]
    );
}

#[test]
fn hub_connect_hands_back_the_project_list() {
    let mut hub = Hub::new();
    hub.create_project("alpha".to_string());
    hub.create_project("beta".to_string());
    let msg = hub.connect(client(1));
    match msg {
        Server2Client::Projects { list } => {
            assert_eq!(list.len(), 2);
            assert_eq!(list[0].name, "alpha");
            assert_eq!(list[1].name, "beta");
            assert_eq!(list[1].id, ProjectId { project_id: 1 });
        }
        _ => panic!("expected the project list"),
    }
    assert!(hub.connections.contains(client(1)));
    hub.disconnect(client(1));
    assert!(!hub.connections.contains(client(1)));
}

#[test]
fn hub_issues_monotonic_editor_ids() {
    let mut hub = Hub::new();
    let a = hub.new_editor();
    let b = hub.new_editor();
    assert_eq!(a.editor_id, 0);
    assert_eq!(b.editor_id, 1);
    assert_ne!(a, b);
}

#[test]
fn project_config_lists_file_names_in_display_order() {
    let mut hub = Hub::new();
    let id = hub.create_project("p".to_string());
    let actor = hub.get_project_mut(id).unwrap();
    actor
        .project
        .reorder_file(FileId { file_id: 2 }, 0);
    let config = actor.project.generate_config();
    assert_eq!(config.name, "p");
    assert_eq!(
        config.order,
        vec!["conlusion.md".to_string(), "index.md".to_string(), "abstract.md".to_string()]
    );
    let info = actor.project.generate_info();
    assert_eq!(info.files.len(), 3);
    assert_eq!(info.files[0], FileId { file_id: 2 });
}
