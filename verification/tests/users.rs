use social_store::errors::StoreError;
use social_store::models::RegisterUser;
use social_store::store::Store;

fn registration(login: &str, password: &str) -> RegisterUser {
    RegisterUser {
        first_name: format!("{}-first", login),
        last_name: format!("{}-last", login),
        about: Some(format!("about {}", login)),
        password: password.to_string(),
        login: login.to_string(),
    }
}

#[test]
fn register_then_exists_and_login() {
    let mut store = Store::new();
    assert_eq!(store.exist_user_by_login("alice"), Ok(false));
    store.insert_user(&registration("alice", "p1")).unwrap();
    assert_eq!(store.exist_user_by_login("alice"), Ok(true));
    let alice = store.get_user_by_login_and_pass("alice", "p1").unwrap();
    assert_eq!(alice.first_name, "alice-first");
    assert_eq!(alice.last_name, "alice-last");
    assert_eq!(alice.about, Some("about alice".to_string()));
    assert_eq!(alice.crop_avatar, None);
    assert_eq!(alice.full_avatar, None);
}

#[test]
fn login_with_wrong_secret_is_not_found() {
    let mut store = Store::new();
    store.insert_user(&registration("alice", "p1")).unwrap();
    assert_eq!(
        store.get_user_by_login_and_pass("alice", "p2"),
        Err(StoreError::NotFound)
    );
    assert_eq!(
        store.get_user_by_login_and_pass("bob", "p1"),
        Err(StoreError::NotFound)
    );
}

#[test]
fn duplicate_login_is_refused() {
    let mut store = Store::new();
    store.insert_user(&registration("alice", "p1")).unwrap();
    assert_eq!(
        store.insert_user(&registration("alice", "other")),
        Err(StoreError::ConstraintViolation)
    );
    // the first registration's row is untouched
    let alice = store.get_user_by_login_and_pass("alice", "p1").unwrap();
    assert_eq!(alice.first_name, "alice-first");
}

#[test]
fn lookup_by_id() {
    let mut store = Store::new();
    store.insert_user(&registration("alice", "p1")).unwrap();
    store.insert_user(&registration("bob", "p2")).unwrap();
    let bob = store.get_user_by_login_and_pass("bob", "p2").unwrap();
    let again = store.get_user_info_by_id(bob.id).unwrap();
    assert_eq!(again, bob);
    assert_eq!(store.get_user_info_by_id(9999), Err(StoreError::NotFound));
}

#[test]
fn avatars_are_empty_until_set() {
    let mut store = Store::new();
    store.insert_user(&registration("alice", "p1")).unwrap();
    assert_eq!(
        store.get_avatar_by_login("alice"),
        Ok((Vec::new(), Vec::new()))
    );
    assert_eq!(
        store.get_avatar_by_login("nobody"),
        Err(StoreError::NotFound)
    );
    let crop = vec![1u8, 2, 3];
    let full = vec![9u8, 8, 7, 6];
    store.set_avatar_by_login("alice", &crop, &full).unwrap();
    assert_eq!(store.get_avatar_by_login("alice"), Ok((crop.clone(), full.clone())));
    assert_eq!(
        store.set_avatar_by_login("nobody", &crop, &full),
        Err(StoreError::NotFound)
    );
    // the avatars come back through the profile too
    let alice = store.get_user_by_login_and_pass("alice", "p1").unwrap();
    assert_eq!(alice.crop_avatar, Some(crop));
    assert_eq!(alice.full_avatar, Some(full));
}
