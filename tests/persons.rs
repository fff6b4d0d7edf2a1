use slalom::persons::{
    authenticate, check_credentials, delete_ids, delete_persons, get_persons, CredentialError,
    DbConnection, DbPrivilege, Filter, InsertingPerson, Person, ToDelete,
};

fn ids_of(list: Option<&str>) -> Option<Vec<u32>> {
    ToDelete { id_list: list.map(|l| l.to_string()) }.ids()
}

fn store_with(names: &[&str]) -> DbConnection {
    let mut db = DbConnection::new();
    for n in names {
        db.insert_person(InsertingPerson { name: n.to_string() });
    }
    db
}

#[test]
fn new_store_has_two_users_and_no_persons() {
    let db = DbConnection::new();
    assert!(db.persons.is_empty());
    assert_eq!(db.users.len(), 2);
    assert_eq!(db.users[0].username, "joe");
    assert_eq!(db.users[0].password, "xjoe");
    assert_eq!(db.users[0].privileges, vec![DbPrivilege::CanRead]);
    assert_eq!(db.users[1].username, "susan");
    assert_eq!(db.users[1].privileges, vec![DbPrivilege::CanRead, DbPrivilege::CanWrite]);
}

#[test]
fn insert_gives_increasing_ids() {
    let mut db = DbConnection::new();
    assert_eq!(db.insert_person(InsertingPerson { name: "alice".to_string() }), 1);
    assert_eq!(db.insert_person(InsertingPerson { name: "bob".to_string() }), 2);
    assert!(db.delete_by_id(1));
    assert_eq!(db.insert_person(InsertingPerson { name: "carol".to_string() }), 3);
    let ids: Vec<u32> = db.persons.iter().map(|p| p.id).collect();
    assert_eq!(ids, vec![2, 3]);
}

#[test]
fn get_person_by_id_finds_or_not() {
    let db = store_with(&["alice", "bob"]);
    let p = db.get_person_by_id(2).unwrap();
    assert_eq!(p.id, 2);
    assert_eq!(p.name, "bob");
    assert!(db.get_person_by_id(3).is_none());
}

#[test]
fn delete_by_id_removes_only_a_present_person() {
    let mut db = store_with(&["alice", "bob", "carol"]);
    assert!(db.delete_by_id(2));
    assert!(!db.delete_by_id(2));
    let names: Vec<String> = db.persons.iter().map(|p| p.name.clone()).collect();
    assert_eq!(names, vec!["alice".to_string(), "carol".to_string()]);
}

#[test]
fn update_person_replaces_by_id() {
    let mut db = store_with(&["alice", "bob"]);
    assert!(db.update_person(Person { id: 1, name: "alicia".to_string() }));
    assert!(!db.update_person(Person { id: 9, name: "nobody".to_string() }));
    assert_eq!(db.persons[0].name, "alicia");
    assert_eq!(db.persons[1].name, "bob");
    assert_eq!(db.persons.len(), 2);
}

#[test]
fn partial_name_search_keeps_order() {
    let db = store_with(&["alice", "bob", "aaa", "aaaaa"]);
    let ids: Vec<u32> = db.get_persons_by_partial_name("aa").iter().map(|p| p.id).collect();
    assert_eq!(ids, vec![3, 4]);
    let ids: Vec<u32> = db.get_persons_by_partial_name("").iter().map(|p| p.id).collect();
    assert_eq!(ids, vec![1, 2, 3, 4]);
    assert!(db.get_persons_by_partial_name("zed").is_empty());
}

#[test]
fn user_lookup_by_name() {
    let db = DbConnection::new();
    let u = db.get_user_by_username("susan").unwrap();
    assert_eq!(u.password, "xsusan");
    assert_eq!(u.privileges.len(), 2);
    assert!(db.get_user_by_username("sue").is_none());
}

#[test]
fn credentials_accepted_with_privilege() {
    let db = DbConnection::new();
    assert_eq!(
        check_credentials(&db, "susan", Some("xsusan"), DbPrivilege::CanWrite),
        Ok(vec![DbPrivilege::CanRead, DbPrivilege::CanWrite])
    );
    assert_eq!(
        check_credentials(&db, "joe", Some("xjoe"), DbPrivilege::CanRead),
        Ok(vec![DbPrivilege::CanRead])
    );
}

#[test]
fn credentials_refused_for_each_reason() {
    let db = DbConnection::new();
    assert_eq!(
        check_credentials(&db, "ann", Some("x"), DbPrivilege::CanRead),
        Err(CredentialError::UserNotFound)
    );
    assert_eq!(
        check_credentials(&db, "joe", None, DbPrivilege::CanRead),
        Err(CredentialError::InvalidPassword)
    );
    assert_eq!(
        check_credentials(&db, "joe", Some("xjo"), DbPrivilege::CanRead),
        Err(CredentialError::InvalidPassword)
    );
    assert_eq!(
        check_credentials(&db, "joe", Some("xjoe"), DbPrivilege::CanWrite),
        Err(CredentialError::InsufficientPrivileges)
    );
}

#[test]
fn filter_name_part_defaults_to_empty() {
    assert_eq!(Filter { partial_name: Some("al".to_string()) }.name_part(), "al");
    assert_eq!(Filter { partial_name: None }.name_part(), "");
}

#[test]
fn delete_ids_counts_removed() {
    let mut db = store_with(&["a", "b", "c", "d"]);
    assert_eq!(delete_ids(&mut db, &vec![2, 9, 4, 2]), 2);
    let ids: Vec<u32> = db.persons.iter().map(|p| p.id).collect();
    assert_eq!(ids, vec![1, 3]);
    let q = ToDelete { id_list: None };
    assert!(q.id_list.is_none());
}


#[test]
fn id_list_parsing() {
    assert_eq!(ids_of(None), Some(vec![]));
    assert_eq!(ids_of(Some("")), Some(vec![]));
    assert_eq!(ids_of(Some("1,2,")), Some(vec![1, 2]));
    assert_eq!(ids_of(Some("7")), Some(vec![7]));
    assert_eq!(ids_of(Some("+3,04")), Some(vec![3, 4]));
    assert_eq!(ids_of(Some("4294967295")), Some(vec![u32::MAX]));
    assert_eq!(ids_of(Some("4294967296")), None);
    assert_eq!(ids_of(Some(",")), None);
    assert_eq!(ids_of(Some("1,,2")), None);
    assert_eq!(ids_of(Some("1,x")), None);
    assert_eq!(ids_of(Some("+")), None);
    assert_eq!(ids_of(Some("-1")), None);
    assert_eq!(ids_of(Some("1, 2")), None);
}

#[test]
fn delete_persons_by_query() {
    let mut db = store_with(&["a", "b", "c"]);
    let bad = ToDelete { id_list: Some("1,z".to_string()) };
    assert_eq!(delete_persons(&mut db, &bad), None);
    assert_eq!(db.persons.len(), 3);
    let good = ToDelete { id_list: Some("3,1,8,".to_string()) };
    assert_eq!(delete_persons(&mut db, &good), Some(2));
    let ids: Vec<u32> = db.persons.iter().map(|p| p.id).collect();
    assert_eq!(ids, vec![2]);
    assert_eq!(delete_persons(&mut db, &ToDelete { id_list: None }), Some(0));
}

#[test]
fn get_persons_with_and_without_filter() {
    let db = store_with(&["alice", "bob", "aaa"]);
    let some: Vec<u32> = get_persons(&db, &Filter { partial_name: Some("b".to_string()) })
        .iter()
        .map(|p| p.id)
        .collect();
    assert_eq!(some, vec![2]);
    assert_eq!(get_persons(&db, &Filter { partial_name: None }).len(), 3);
}

#[test]
fn authenticate_user() {
    let db = DbConnection::new();
    let u = authenticate(&db, "joe", Some("xjoe")).unwrap();
    assert_eq!(u.username, "joe");
    assert_eq!(u.privileges, vec![DbPrivilege::CanRead]);
    assert_eq!(authenticate(&db, "joe", Some("x")).unwrap_err(), CredentialError::InvalidPassword);
    assert_eq!(authenticate(&db, "joe", None).unwrap_err(), CredentialError::InvalidPassword);
    assert_eq!(authenticate(&db, "max", Some("x")).unwrap_err(), CredentialError::UserNotFound);
}
