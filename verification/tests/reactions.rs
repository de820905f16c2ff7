use base64::Engine;
use social_store::errors::StoreError;
use social_store::models::{InsertArticle, InsertReaction, RegisterUser};
use social_store::store::Store;

fn add_user(store: &mut Store, login: &str) -> u64 {
    let reg = RegisterUser {
        first_name: login.to_string(),
        last_name: "x".to_string(),
        about: None,
        password: "pw".to_string(),
        login: login.to_string(),
    };
    store.insert_user(&reg).unwrap();
    store.get_user_by_login_and_pass(login, "pw").unwrap().id
}

fn publish(store: &mut Store, author: u64, title: &str) -> u64 {
    let image = base64::engine::general_purpose::STANDARD.encode(b"img");
    store
        .insert_article(&InsertArticle {
            author_id: author,
            image,
            title: title.to_string(),
            description: "d".to_string(),
        })
        .unwrap();
    store
        .get_articles()
        .unwrap()
        .iter()
        .find(|a| a.title == title)
        .unwrap()
        .id
}

fn reaction(user: u64, article: u64, kind: &str) -> InsertReaction {
    InsertReaction {
        user_id: user,
        article_id: article,
        reaction: kind.to_string(),
    }
}

#[test]
fn like_lifecycle() {
    let mut store = Store::new();
    store.create_tables().unwrap();
    let a = add_user(&mut store, "a");
    let b = add_user(&mut store, "b");
    let id = publish(&mut store, a, "T");
    assert_eq!(store.exists_reaction_for_article(&reaction(b, id, "like")), Ok(false));
    assert_eq!(store.get_reaction_for_article_by_user(b, id), Ok(None));

    store.insert_reaction_for_article(&reaction(b, id, "like")).unwrap();
    assert_eq!(store.exists_reaction_for_article(&reaction(b, id, "like")), Ok(true));
    assert_eq!(
        store.get_reaction_for_article_by_user(b, id),
        Ok(Some("like".to_string()))
    );
    assert_eq!(store.get_reactions_from_article(id), Ok((1, 0)));

    store.remove_reaction_for_article(&reaction(b, id, "like")).unwrap();
    assert_eq!(store.get_reaction_for_article_by_user(b, id), Ok(None));
    assert_eq!(store.get_reactions_from_article(id), Ok((0, 0)));
}

#[test]
fn counts_tally_each_kind_separately() {
    let mut store = Store::new();
    store.create_tables().unwrap();
    let a = add_user(&mut store, "a");
    let b = add_user(&mut store, "b");
    let c = add_user(&mut store, "c");
    let id = publish(&mut store, a, "T");
    store.insert_reaction_for_article(&reaction(a, id, "like")).unwrap();
    store.insert_reaction_for_article(&reaction(b, id, "like")).unwrap();
    store.insert_reaction_for_article(&reaction(c, id, "dislike")).unwrap();
    assert_eq!(store.get_reactions_from_article(id), Ok((2, 1)));
    // the enriched listing carries the same tallies
    let article = store.get_article_info(id).unwrap();
    assert_eq!(article.likes, 2);
    assert_eq!(article.dislikes, 1);
}

#[test]
fn one_reaction_per_pair() {
    let mut store = Store::new();
    store.create_tables().unwrap();
    let a = add_user(&mut store, "a");
    let b = add_user(&mut store, "b");
    let id = publish(&mut store, a, "T");
    store.insert_reaction_for_article(&reaction(b, id, "like")).unwrap();
    assert_eq!(
        store.insert_reaction_for_article(&reaction(b, id, "dislike")),
        Err(StoreError::ConstraintViolation)
    );
    // changing a reaction is remove-then-insert
    store.remove_reaction_for_article(&reaction(b, id, "like")).unwrap();
    store.insert_reaction_for_article(&reaction(b, id, "dislike")).unwrap();
    assert_eq!(
        store.get_reaction_for_article_by_user(b, id),
        Ok(Some("dislike".to_string()))
    );
    assert_eq!(store.get_reactions_from_article(id), Ok((0, 1)));
}

#[test]
fn unknown_kind_is_refused() {
    let mut store = Store::new();
    store.create_tables().unwrap();
    let a = add_user(&mut store, "a");
    let id = publish(&mut store, a, "T");
    assert_eq!(
        store.insert_reaction_for_article(&reaction(a, id, "meh")),
        Err(StoreError::ConstraintViolation)
    );
}

#[test]
fn kinds_resolve_only_after_the_bootstrap() {
    let mut store = Store::new();
    let a = add_user(&mut store, "a");
    let id = publish(&mut store, a, "T");
    // without the seeded kind rows the name cannot resolve
    assert_eq!(
        store.insert_reaction_for_article(&reaction(a, id, "like")),
        Err(StoreError::ConstraintViolation)
    );
    store.create_tables().unwrap();
    // the bootstrap is idempotent: a second run changes nothing
    store.create_tables().unwrap();
    store.insert_reaction_for_article(&reaction(a, id, "like")).unwrap();
    assert_eq!(store.get_reactions_from_article(id), Ok((1, 0)));
}

#[test]
fn removing_an_absent_reaction_is_a_no_op() {
    let mut store = Store::new();
    store.create_tables().unwrap();
    let a = add_user(&mut store, "a");
    let id = publish(&mut store, a, "T");
    assert_eq!(store.remove_reaction_for_article(&reaction(a, id, "like")), Ok(()));
    assert_eq!(store.get_reactions_from_article(id), Ok((0, 0)));
}

#[test]
fn reaction_needs_present_rows() {
    let mut store = Store::new();
    store.create_tables().unwrap();
    let a = add_user(&mut store, "a");
    let id = publish(&mut store, a, "T");
    assert_eq!(
        store.insert_reaction_for_article(&reaction(999, id, "like")),
        Err(StoreError::ConstraintViolation)
    );
    assert_eq!(
        store.insert_reaction_for_article(&reaction(a, 999, "like")),
        Err(StoreError::ConstraintViolation)
    );
}

#[test]
fn full_scenario() {
    // insert alice; exists and login checks; an article by alice; a like
    // from bob; tallies before and after withdrawing it
    let mut store = Store::new();
    store.create_tables().unwrap();
    store
        .insert_user(&RegisterUser {
            first_name: "Alice".to_string(),
            last_name: "A".to_string(),
            about: None,
            password: "p1".to_string(),
            login: "alice".to_string(),
        })
        .unwrap();
    assert_eq!(store.exist_user_by_login("alice"), Ok(true));
    let alice = store.get_user_by_login_and_pass("alice", "p1").unwrap();
    assert_eq!(alice.first_name, "Alice");

    let image = base64::engine::general_purpose::STANDARD.encode(b"cover");
    store
        .insert_article(&InsertArticle {
            author_id: alice.id,
            image,
            title: "Hello".to_string(),
            description: "first post".to_string(),
        })
        .unwrap();
    let of_alice = store.get_articles_from_user(alice.id).unwrap();
    assert_eq!(of_alice.len(), 1);
    let article = &of_alice[0];
    assert_eq!(article.title, "Hello");
    assert_eq!(article.likes, 0);
    assert_eq!(article.dislikes, 0);

    let bob = {
        store
            .insert_user(&RegisterUser {
                first_name: "Bob".to_string(),
                last_name: "B".to_string(),
                about: None,
                password: "p2".to_string(),
                login: "bob".to_string(),
            })
            .unwrap();
        store.get_user_by_login_and_pass("bob", "p2").unwrap().id
    };
    store
        .insert_reaction_for_article(&reaction(bob, article.id, "like"))
        .unwrap();
    assert_eq!(store.get_reactions_from_article(article.id), Ok((1, 0)));
    store
        .remove_reaction_for_article(&reaction(bob, article.id, "like"))
        .unwrap();
    assert_eq!(store.get_reactions_from_article(article.id), Ok((0, 0)));
}
