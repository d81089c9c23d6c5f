use password_manager::record::OwnerId;
use password_manager::store::CredentialStore;

fn alice() -> OwnerId {
    OwnerId::new(vec![1, 2, 3])
}

fn bob() -> OwnerId {
    OwnerId::new(vec![9])
}

#[test]
fn add_then_get_returns_new_record() {
    let mut st = CredentialStore::new();
    st.add(
        alice(),
        "example.com".to_owned(),
        "user".to_owned(),
        "secret".to_owned(),
    );
    let r = st.get(&alice(), &"example.com".to_owned()).unwrap();
    assert_eq!(r.site, "example.com");
    assert_eq!(r.username, "user");
    assert_eq!(r.password, "secret");
    assert!(!r.encrypted);
    assert_eq!(r.owner.bytes, vec![1, 2, 3]);
}

#[test]
fn get_on_empty_store_is_absent() {
    let st = CredentialStore::new();
    assert!(st.get(&alice(), &"example.com".to_owned()).is_none());
    assert!(st.list(&alice()).is_empty());
}

#[test]
fn default_store_is_empty() {
    let st = CredentialStore::default();
    assert!(st.list(&alice()).is_empty());
}

#[test]
fn list_returns_all_in_insertion_order() {
    let mut st = CredentialStore::new();
    st.add(alice(), "a.com".to_owned(), "u1".to_owned(), "p1".to_owned());
    st.add(alice(), "b.com".to_owned(), "u2".to_owned(), "p2".to_owned());
    st.add(alice(), "c.com".to_owned(), "u3".to_owned(), "p3".to_owned());
    let l = st.list(&alice());
    assert_eq!(l.len(), 3);
    assert_eq!(l[0].site, "a.com");
    assert_eq!(l[1].site, "b.com");
    assert_eq!(l[2].site, "c.com");
    assert_eq!(l[0].username, "u1");
    assert_eq!(l[1].username, "u2");
    assert_eq!(l[2].username, "u3");
}

#[test]
fn edit_updates_login_and_keeps_the_rest() {
    let mut st = CredentialStore::new();
    st.add(
        alice(),
        "example.com".to_owned(),
        "user".to_owned(),
        "old".to_owned(),
    );
    let ok = st.edit(
        &alice(),
        &"example.com".to_owned(),
        "user2".to_owned(),
        "new".to_owned(),
    );
    assert!(ok);
    let r = st.get(&alice(), &"example.com".to_owned()).unwrap();
    assert_eq!(r.username, "user2");
    assert_eq!(r.password, "new");
    assert_eq!(r.site, "example.com");
    assert_eq!(r.owner.bytes, vec![1, 2, 3]);
    assert!(!r.encrypted);
}

#[test]
fn edit_without_match_fails_and_changes_nothing() {
    let mut st = CredentialStore::new();
    st.add(
        alice(),
        "example.com".to_owned(),
        "user".to_owned(),
        "pw".to_owned(),
    );
    let ok = st.edit(
        &alice(),
        &"other.com".to_owned(),
        "x".to_owned(),
        "y".to_owned(),
    );
    assert!(!ok);
    let l = st.list(&alice());
    assert_eq!(l.len(), 1);
    assert_eq!(l[0].site, "example.com");
    assert_eq!(l[0].username, "user");
    assert_eq!(l[0].password, "pw");
}

#[test]
fn edit_changes_only_the_first_of_two_duplicates() {
    let mut st = CredentialStore::new();
    st.add(
        alice(),
        "example.com".to_owned(),
        "first".to_owned(),
        "p1".to_owned(),
    );
    st.add(
        alice(),
        "example.com".to_owned(),
        "second".to_owned(),
        "p2".to_owned(),
    );
    let ok = st.edit(
        &alice(),
        &"example.com".to_owned(),
        "edited".to_owned(),
        "p3".to_owned(),
    );
    assert!(ok);
    let l = st.list(&alice());
    assert_eq!(l.len(), 2);
    assert_eq!(l[0].username, "edited");
    assert_eq!(l[0].password, "p3");
    assert_eq!(l[1].username, "second");
    assert_eq!(l[1].password, "p2");
}

#[test]
fn delete_removes_both_duplicates() {
    let mut st = CredentialStore::new();
    st.add(
        alice(),
        "example.com".to_owned(),
        "u1".to_owned(),
        "p1".to_owned(),
    );
    st.add(
        alice(),
        "example.com".to_owned(),
        "u2".to_owned(),
        "p2".to_owned(),
    );
    let ok = st.delete(&alice(), &"example.com".to_owned());
    assert!(ok);
    assert!(st.list(&alice()).is_empty());
    assert!(st.get(&alice(), &"example.com".to_owned()).is_none());
}

#[test]
fn delete_without_match_fails_and_keeps_the_size() {
    let mut st = CredentialStore::new();
    st.add(
        alice(),
        "example.com".to_owned(),
        "u".to_owned(),
        "p".to_owned(),
    );
    let ok = st.delete(&alice(), &"other.com".to_owned());
    assert!(!ok);
    assert_eq!(st.list(&alice()).len(), 1);
}

#[test]
fn delete_spares_the_other_sites() {
    let mut st = CredentialStore::new();
    st.add(alice(), "a.com".to_owned(), "u1".to_owned(), "p1".to_owned());
    st.add(alice(), "b.com".to_owned(), "u2".to_owned(), "p2".to_owned());
    let ok = st.delete(&alice(), &"a.com".to_owned());
    assert!(ok);
    let l = st.list(&alice());
    assert_eq!(l.len(), 1);
    assert_eq!(l[0].site, "b.com");
}

#[test]
fn duplicate_site_scenario() {
    let mut st = CredentialStore::new();
    st.add(
        alice(),
        "example.com".to_owned(),
        "alice1".to_owned(),
        "pw1".to_owned(),
    );
    st.add(
        alice(),
        "example.com".to_owned(),
        "alice2".to_owned(),
        "pw2".to_owned(),
    );
    let first = st.get(&alice(), &"example.com".to_owned()).unwrap();
    assert_eq!(first.username, "alice1");
    assert_eq!(first.password, "pw1");
    let l = st.list(&alice());
    assert_eq!(l.len(), 2);
    assert_eq!(l[0].username, "alice1");
    assert_eq!(l[1].username, "alice2");
    let ok = st.delete(&alice(), &"example.com".to_owned());
    assert!(ok);
    assert!(st.list(&alice()).is_empty());
}

#[test]
fn cross_owner_isolation() {
    let mut st = CredentialStore::new();
    st.add(alice(), "s".to_owned(), "u".to_owned(), "p".to_owned());
    assert!(st.list(&bob()).is_empty());
    assert!(st.get(&bob(), &"s".to_owned()).is_none());
    assert!(!st.edit(&bob(), &"s".to_owned(), "x".to_owned(), "y".to_owned()));
    assert!(!st.delete(&bob(), &"s".to_owned()));
    assert_eq!(st.list(&alice()).len(), 1);
}

#[test]
fn empty_strings_are_stored_verbatim() {
    let mut st = CredentialStore::new();
    st.add(alice(), "".to_owned(), "".to_owned(), "".to_owned());
    let r = st.get(&alice(), &"".to_owned()).unwrap();
    assert_eq!(r.site, "");
    assert_eq!(r.username, "");
    assert_eq!(r.password, "");
    assert!(!r.encrypted);
}

#[test]
fn owners_compare_by_bytes() {
    let a = OwnerId::new(vec![1, 2, 3]);
    let b = OwnerId::new(vec![1, 2, 3]);
    let c = OwnerId::new(vec![1, 2]);
    assert!(password_manager::record::owner_eq(&a, &b));
    assert!(!password_manager::record::owner_eq(&a, &c));
    assert_eq!(a.clone().bytes, vec![1, 2, 3]);
}
