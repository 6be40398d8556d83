use ssh_book::{Dataset, Error, Group, Record, Server, Violation};

fn group(id: &str, name: &str) -> Group {
    Group { id: id.to_string(), name: name.to_string() }
}

fn server(id: &str, name: &str, group_id: &str) -> Server {
    Server {
        id: id.to_string(),
        name: name.to_string(),
        username: "root".to_string(),
        host: format!("{}.example.org", name),
        port: 22,
        auth_type: "password".to_string(),
        auth_info: String::new(),
        group_id: group_id.to_string(),
    }
}

fn two_groups_three_servers() -> Dataset {
    Dataset {
        groups: vec![group("G1", "first"), group("G2", "second")],
        servers: vec![server("S1", "a", "G1"), server("S2", "b", "G1"), server("S3", "c", "G2")],
    }
}

#[test]
fn new_store_is_empty() {
    let data = Dataset::new();
    assert!(data.groups.is_empty());
    assert!(data.servers.is_empty());
    assert!(data.get_groups().is_empty());
    assert!(data.get_servers().is_empty());
    assert_eq!(data.validate(), Ok(()));
}

#[test]
fn listing_keeps_insertion_order() {
    let data = two_groups_three_servers();
    assert_eq!(data.get_groups(), vec![group("G1", "first"), group("G2", "second")]);
    assert_eq!(
        data.get_servers(),
        vec![server("S1", "a", "G1"), server("S2", "b", "G1"), server("S3", "c", "G2")]
    );
}

#[test]
fn positions_are_first_matches() {
    let data = Dataset {
        groups: vec![group("a", "1"), group("b", "2"), group("a", "3")],
        servers: vec![server("x", "1", "a"), server("y", "2", "a"), server("y", "3", "b")],
    };
    assert_eq!(data.group_position(&"a".to_string()), Some(0));
    assert_eq!(data.group_position(&"b".to_string()), Some(1));
    assert_eq!(data.group_position(&"c".to_string()), None);
    assert_eq!(data.server_position(&"y".to_string()), Some(1));
    assert_eq!(data.server_position(&"a".to_string()), None);
}

#[test]
fn add_group_files_a_new_group_last() {
    let mut data = two_groups_three_servers();
    let created = data.add_group("third".to_string()).unwrap();
    assert_eq!(created.name, "third");
    assert_eq!(data.groups.len(), 3);
    assert_eq!(data.groups[2], created);
    assert_eq!(data.groups[0], group("G1", "first"));
    assert_eq!(data.groups[1], group("G2", "second"));
    assert_eq!(data.servers.len(), 3);
    assert_eq!(data.validate(), Ok(()));
}

#[test]
fn generated_ids_are_random_uuids() {
    let mut data = Dataset::new();
    let first = data.add_group("x".to_string()).unwrap();
    let second = data.add_group("x".to_string()).unwrap();
    assert_ne!(first.id, second.id);
    for id in [&first.id, &second.id] {
        assert_eq!(id.len(), 36);
        let parsed = uuid::Uuid::parse_str(id).unwrap();
        assert_eq!(parsed.get_version_num(), 4);
        assert_eq!(&parsed.to_string(), id);
        for (i, c) in id.chars().enumerate() {
            if i == 8 || i == 13 || i == 18 || i == 23 {
                assert_eq!(c, '-');
            } else {
                assert!(c.is_ascii_digit() || ('a'..='f').contains(&c));
            }
        }
        assert_eq!(id.as_bytes()[14], b'4');
        assert!(b"89ab".contains(&id.as_bytes()[19]));
    }
}

#[test]
fn add_server_assigns_its_own_id() {
    let mut data = two_groups_three_servers();
    let created = data.add_server(server("S1", "d", "G2")).unwrap();
    assert_ne!(created.id, "S1");
    assert!(uuid::Uuid::parse_str(&created.id).is_ok());
    let mut expected = server("S1", "d", "G2");
    expected.id = created.id.clone();
    assert_eq!(created, expected);
    assert_eq!(data.servers.len(), 4);
    assert_eq!(data.servers[3], created);
    assert_eq!(data.servers[0], server("S1", "a", "G1"));
    assert_eq!(data.groups.len(), 2);
    assert_eq!(data.validate(), Ok(()));
}

#[test]
fn add_server_with_unknown_group_is_refused() {
    let mut data = two_groups_three_servers();
    let outcome = data.add_server(server("", "d", "G9"));
    assert_eq!(outcome, Err(Error::Validation(Violation::UnknownGroup("G9".to_string()))));
    assert_eq!(data, two_groups_three_servers());
}

#[test]
fn add_server_to_empty_store_is_refused() {
    let mut data = Dataset::new();
    let outcome = data.add_server(server("", "d", "G1"));
    assert_eq!(outcome, Err(Error::Validation(Violation::UnknownGroup("G1".to_string()))));
    assert_eq!(data, Dataset::new());
}

#[test]
fn insert_group_refuses_a_taken_id() {
    let mut data = two_groups_three_servers();
    assert_eq!(
        data.insert_group(group("G2", "again")),
        Err(Error::Validation(Violation::DuplicateGroupId("G2".to_string())))
    );
    assert_eq!(data, two_groups_three_servers());
    assert_eq!(data.insert_group(group("G3", "third")), Ok(()));
    assert_eq!(data.groups.len(), 3);
    assert_eq!(data.groups[2], group("G3", "third"));
}

#[test]
fn insert_server_checks_group_before_id() {
    let mut data = two_groups_three_servers();
    assert_eq!(
        data.insert_server(server("S1", "d", "G9")),
        Err(Error::Validation(Violation::UnknownGroup("G9".to_string())))
    );
    assert_eq!(
        data.insert_server(server("S1", "d", "G2")),
        Err(Error::Validation(Violation::DuplicateServerId("S1".to_string())))
    );
    assert_eq!(data, two_groups_three_servers());
    assert_eq!(data.insert_server(server("S4", "d", "G2")), Ok(()));
    assert_eq!(data.servers.len(), 4);
    assert_eq!(data.servers[3], server("S4", "d", "G2"));
}

#[test]
fn delete_group_cascades_to_its_servers() {
    let mut data = two_groups_three_servers();
    assert_eq!(data.delete_group("G1".to_string()), Ok(()));
    assert_eq!(data.groups, vec![group("G2", "second")]);
    assert_eq!(data.servers, vec![server("S3", "c", "G2")]);
    assert_eq!(data.validate(), Ok(()));
}

#[test]
fn delete_group_without_servers_keeps_all_servers() {
    let mut data = two_groups_three_servers();
    data.insert_group(group("G3", "empty")).unwrap();
    assert_eq!(data.delete_group("G3".to_string()), Ok(()));
    assert_eq!(data, two_groups_three_servers());
}

#[test]
fn delete_last_group_empties_the_store() {
    let mut data = Dataset {
        groups: vec![group("G1", "only")],
        servers: vec![server("S1", "a", "G1"), server("S2", "b", "G1")],
    };
    assert_eq!(data.delete_group("G1".to_string()), Ok(()));
    assert_eq!(data, Dataset::new());
}

#[test]
fn delete_server_removes_one_server() {
    let mut data = two_groups_three_servers();
    assert_eq!(data.delete_server("S2".to_string()), Ok(()));
    assert_eq!(data.groups, vec![group("G1", "first"), group("G2", "second")]);
    assert_eq!(data.servers, vec![server("S1", "a", "G1"), server("S3", "c", "G2")]);
}

#[test]
fn unknown_ids_are_not_found() {
    let mut data = two_groups_three_servers();
    assert_eq!(data.update_group(group("G9", "x")), Err(Error::NotFound(Record::Group)));
    assert_eq!(data, two_groups_three_servers());
    assert_eq!(data.update_server(server("S9", "x", "G1")), Err(Error::NotFound(Record::Server)));
    assert_eq!(data, two_groups_three_servers());
    assert_eq!(data.delete_group("S1".to_string()), Err(Error::NotFound(Record::Group)));
    assert_eq!(data, two_groups_three_servers());
    assert_eq!(data.delete_server("G1".to_string()), Err(Error::NotFound(Record::Server)));
    assert_eq!(data, two_groups_three_servers());
}

#[test]
fn unknown_ids_are_not_found_in_an_empty_store() {
    let mut data = Dataset::new();
    assert_eq!(data.update_group(group("G1", "x")), Err(Error::NotFound(Record::Group)));
    assert_eq!(data.update_server(server("S1", "x", "G1")), Err(Error::NotFound(Record::Server)));
    assert_eq!(data.delete_group("G1".to_string()), Err(Error::NotFound(Record::Group)));
    assert_eq!(data.delete_server("S1".to_string()), Err(Error::NotFound(Record::Server)));
    assert_eq!(data, Dataset::new());
}

#[test]
fn update_group_keeps_the_id_and_replaces_the_name() {
    let mut data = Dataset::new();
    let created = data.add_group("x".to_string()).unwrap();
    let renamed = Group { id: created.id.clone(), name: "y".to_string() };
    assert_eq!(data.update_group(renamed), Ok(()));
    assert_eq!(data.groups.len(), 1);
    assert_eq!(data.groups[0].id, created.id);
    assert_eq!(data.groups[0].name, "y");
    assert!(data.servers.is_empty());
}

#[test]
fn update_group_touches_one_place() {
    let mut data = two_groups_three_servers();
    assert_eq!(data.update_group(group("G2", "renamed")), Ok(()));
    assert_eq!(data.groups, vec![group("G1", "first"), group("G2", "renamed")]);
    assert_eq!(data.servers, two_groups_three_servers().servers);
}

#[test]
fn update_server_replaces_the_record_in_place() {
    let mut data = two_groups_three_servers();
    let mut moved = server("S2", "moved", "G2");
    moved.port = 2222;
    moved.auth_type = "key".to_string();
    moved.auth_info = "/home/me/.ssh/id".to_string();
    assert_eq!(data.update_server(moved.clone()), Ok(()));
    assert_eq!(data.servers, vec![server("S1", "a", "G1"), moved, server("S3", "c", "G2")]);
    assert_eq!(data.groups, two_groups_three_servers().groups);
    assert_eq!(data.validate(), Ok(()));
}

#[test]
fn update_server_with_unknown_group_is_refused() {
    let mut data = two_groups_three_servers();
    assert_eq!(
        data.update_server(server("S2", "b", "G9")),
        Err(Error::Validation(Violation::UnknownGroup("G9".to_string())))
    );
    assert_eq!(data, two_groups_three_servers());
}

#[test]
fn two_creates_in_a_row_both_survive() {
    let mut data = two_groups_three_servers();
    let one = data.add_server(server("", "d", "G1")).unwrap();
    let two = data.add_server(server("", "e", "G2")).unwrap();
    assert_ne!(one.id, two.id);
    assert_eq!(data.servers.len(), 5);
    assert_eq!(data.servers[3], one);
    assert_eq!(data.servers[4], two);
    assert_eq!(data.servers[..3], two_groups_three_servers().servers[..]);
}

#[test]
fn validate_accepts_a_consistent_store() {
    assert_eq!(two_groups_three_servers().validate(), Ok(()));
}

#[test]
fn validate_names_the_first_broken_rule() {
    let mut data = two_groups_three_servers();
    data.servers.push(server("S4", "d", "G9"));
    data.servers.push(server("S5", "e", "G8"));
    assert_eq!(
        data.validate(),
        Err(Error::Validation(Violation::UnknownGroup("G9".to_string())))
    );
    data.servers.push(server("S3", "f", "G1"));
    data.servers.push(server("S1", "g", "G1"));
    assert_eq!(
        data.validate(),
        Err(Error::Validation(Violation::DuplicateServerId("S3".to_string())))
    );
    data.groups.push(group("G2", "again"));
    data.groups.push(group("G1", "again"));
    assert_eq!(
        data.validate(),
        Err(Error::Validation(Violation::DuplicateGroupId("G2".to_string())))
    );
}

#[test]
fn import_replaces_the_store() {
    let mut data = Dataset { groups: vec![group("old", "old")], servers: vec![] };
    assert_eq!(data.import_data(two_groups_three_servers()), Ok(()));
    assert_eq!(data, two_groups_three_servers());
    assert_eq!(data.import_data(Dataset::new()), Ok(()));
    assert_eq!(data, Dataset::new());
}

#[test]
fn import_refuses_an_inconsistent_store() {
    let mut data = two_groups_three_servers();
    let dangling = Dataset { groups: vec![], servers: vec![server("S1", "a", "G1")] };
    assert_eq!(
        data.import_data(dangling),
        Err(Error::Validation(Violation::UnknownGroup("G1".to_string())))
    );
    assert_eq!(data, two_groups_three_servers());
    let repeated = Dataset { groups: vec![group("G", "a"), group("G", "b")], servers: vec![] };
    assert_eq!(
        data.import_data(repeated),
        Err(Error::Validation(Violation::DuplicateGroupId("G".to_string())))
    );
    assert_eq!(data, two_groups_three_servers());
}

#[test]
fn a_copy_of_the_store_is_equal_and_separate() {
    let data = two_groups_three_servers();
    let mut copy = data.clone();
    assert_eq!(copy, data);
    copy.delete_group("G1".to_string()).unwrap();
    assert_eq!(data, two_groups_three_servers());
    assert_ne!(copy, data);
}

#[test]
fn deleted_group_id_is_free_again() {
    let mut data = two_groups_three_servers();
    data.delete_group("G1".to_string()).unwrap();
    assert_eq!(data.group_position(&"G1".to_string()), None);
    assert!(data.servers.iter().all(|s| s.group_id != "G1"));
    assert_eq!(data.insert_group(group("G1", "back")), Ok(()));
    assert_eq!(data.validate(), Ok(()));
}

#[test]
fn copies_are_equal() {
    let g = group("G1", "first");
    assert_eq!(g.clone(), g);
    let mut s = server("S1", "a", "G1");
    s.port = 65535;
    s.auth_info = "key".to_string();
    assert_eq!(s.clone(), s);
}
