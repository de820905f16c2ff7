use social_store::errors::StoreError;
use social_store::models::RegisterUser;
use social_store::store::Store;

fn add_user(store: &mut Store, login: &str) -> u64 {
    let reg = RegisterUser {
        first_name: login.to_string(),
        last_name: "x".to_string(),
        about: None,
        password: "pw".to_string(),
        login: login.to_string(),
    };
    store.insert_user(&reg).unwrap();
    store.get_user_by_login_and_pass(login, "pw").unwrap().id
}

#[test]
fn follow_then_unfollow_round_trip() {
    let mut store = Store::new();
    let author = add_user(&mut store, "author");
    let fan = add_user(&mut store, "fan");
    assert_eq!(store.is_user_followed_to_user(author, fan), Ok(false));
    assert_eq!(store.get_user_count_followers(author), Ok(0));

    store.set_following_user(author, fan).unwrap();
    assert_eq!(store.is_user_followed_to_user(author, fan), Ok(true));
    assert_eq!(store.get_user_count_followers(author), Ok(1));
    // the edge is directed
    assert_eq!(store.is_user_followed_to_user(fan, author), Ok(false));
    assert_eq!(store.get_user_count_followers(fan), Ok(0));

    store.remove_following_user(author, fan).unwrap();
    assert_eq!(store.is_user_followed_to_user(author, fan), Ok(false));
    assert_eq!(store.get_user_count_followers(author), Ok(0));
}

#[test]
fn duplicate_follow_is_refused() {
    let mut store = Store::new();
    let author = add_user(&mut store, "author");
    let fan = add_user(&mut store, "fan");
    store.set_following_user(author, fan).unwrap();
    assert_eq!(
        store.set_following_user(author, fan),
        Err(StoreError::ConstraintViolation)
    );
    assert_eq!(store.get_user_count_followers(author), Ok(1));
}

#[test]
fn follow_requires_present_users() {
    let mut store = Store::new();
    let author = add_user(&mut store, "author");
    assert_eq!(
        store.set_following_user(author, 424242),
        Err(StoreError::ConstraintViolation)
    );
    assert_eq!(
        store.set_following_user(424242, author),
        Err(StoreError::ConstraintViolation)
    );
}

#[test]
fn unfollow_absent_edge_is_a_no_op() {
    let mut store = Store::new();
    let author = add_user(&mut store, "author");
    let fan = add_user(&mut store, "fan");
    assert_eq!(store.remove_following_user(author, fan), Ok(()));
    assert_eq!(store.get_user_count_followers(author), Ok(0));
}

#[test]
fn popular_users_ranking() {
    let mut store = Store::new();
    let a = add_user(&mut store, "a");
    let b = add_user(&mut store, "b");
    let c = add_user(&mut store, "c");
    let d = add_user(&mut store, "d");
    // a gets two followers, b one, c one, d none
    store.set_following_user(a, b).unwrap();
    store.set_following_user(a, c).unwrap();
    store.set_following_user(b, a).unwrap();
    store.set_following_user(c, a).unwrap();

    let ranking = store.get_popular_users(d).unwrap();
    assert_eq!(ranking.len(), 3);
    assert_eq!(ranking[0].id, a);
    assert_eq!(ranking[0].followers, 2);
    // b and c tie on one follower each: ascending id breaks the tie
    assert_eq!(ranking[1].id, b.min(c));
    assert_eq!(ranking[1].followers, 1);
    assert_eq!(ranking[2].id, b.max(c));
    assert_eq!(ranking[2].followers, 1);
    assert_eq!(ranking[0].first_name, "a");
}

#[test]
fn popular_users_excludes_the_asking_user() {
    let mut store = Store::new();
    let a = add_user(&mut store, "a");
    let b = add_user(&mut store, "b");
    store.set_following_user(a, b).unwrap();
    store.set_following_user(b, a).unwrap();
    let ranking = store.get_popular_users(a).unwrap();
    assert_eq!(ranking.len(), 1);
    assert_eq!(ranking[0].id, b);
    // an unfollowed user never appears
    let c = add_user(&mut store, "c");
    let ranking = store.get_popular_users(a).unwrap();
    assert!(ranking.iter().all(|p| p.id != c));
}
