use base64::Engine;
use social_store::errors::StoreError;
use social_store::models::{InsertArticle, InsertComment, InsertReaction, RegisterUser};
use social_store::store::Store;

fn add_user(store: &mut Store, login: &str) -> u64 {
    let reg = RegisterUser {
        first_name: login.to_string(),
        last_name: "x".to_string(),
        about: None,
        password: "pw".to_string(),
        login: login.to_string(),
    };
    store.insert_user(&reg).unwrap();
    store.get_user_by_login_and_pass(login, "pw").unwrap().id
}

fn encode(bytes: &[u8]) -> String {
    base64::engine::general_purpose::STANDARD.encode(bytes)
}

fn publish(store: &mut Store, author: u64, title: &str, description: &str, bytes: &[u8]) -> u64 {
    store
        .insert_article(&InsertArticle {
            author_id: author,
            image: encode(bytes),
            title: title.to_string(),
            description: description.to_string(),
        })
        .unwrap();
    let articles = store.get_articles().unwrap();
    articles
        .iter()
        .find(|a| a.title == title)
        .expect("published article is listed")
        .id
}

#[test]
fn image_round_trip() {
    let mut store = Store::new();
    let author = add_user(&mut store, "author");
    let bytes: Vec<u8> = vec![0, 1, 2, 127, 128, 255, 42];
    let id = publish(&mut store, author, "Pic", "a picture", &bytes);
    let fetched = store.get_article_info(id).unwrap();
    assert_eq!(fetched.image, bytes);
    let decoded = base64::engine::general_purpose::STANDARD
        .decode(encode(&bytes))
        .unwrap();
    assert_eq!(fetched.image, decoded);
}

#[test]
fn malformed_image_never_reaches_the_store() {
    let mut store = Store::new();
    let author = add_user(&mut store, "author");
    let bad = InsertArticle {
        author_id: author,
        image: "###not base64###".to_string(),
        title: "Bad".to_string(),
        description: "d".to_string(),
    };
    assert_eq!(store.insert_article(&bad), Err(StoreError::MalformedInput));
    assert_eq!(store.get_articles().unwrap().len(), 0);
}

#[test]
fn article_needs_a_present_author() {
    let mut store = Store::new();
    let req = InsertArticle {
        author_id: 77,
        image: encode(b"img"),
        title: "T".to_string(),
        description: "d".to_string(),
    };
    assert_eq!(store.insert_article(&req), Err(StoreError::ConstraintViolation));
}

#[test]
fn listing_enriches_with_author_and_crop() {
    let mut store = Store::new();
    let author = add_user(&mut store, "writer");
    let long: String = "ab".repeat(100);
    let id = publish(&mut store, author, "Long", &long, b"x");
    let article = store.get_article_info(id).unwrap();
    assert_eq!(article.author.id, author);
    assert_eq!(article.author.first_name, "writer");
    assert_eq!(article.full_description, long);
    let mut expected: String = long.chars().take(150).collect();
    expected.push_str("...");
    assert_eq!(article.crop_description, expected);
    assert_eq!(article.likes, 0);
    assert_eq!(article.dislikes, 0);
}

#[test]
fn short_descriptions_still_get_the_ellipsis() {
    let mut store = Store::new();
    let author = add_user(&mut store, "writer");
    let id = publish(&mut store, author, "Short", "tiny", b"x");
    let article = store.get_article_info(id).unwrap();
    assert_eq!(article.crop_description, "tiny...");
}

#[test]
fn listing_by_author_filters() {
    let mut store = Store::new();
    let a = add_user(&mut store, "a");
    let b = add_user(&mut store, "b");
    publish(&mut store, a, "A1", "d", b"1");
    publish(&mut store, b, "B1", "d", b"2");
    publish(&mut store, a, "A2", "d", b"3");
    let of_a = store.get_articles_from_user(a).unwrap();
    assert_eq!(of_a.len(), 2);
    assert_eq!(of_a[0].title, "A1");
    assert_eq!(of_a[1].title, "A2");
    let of_b = store.get_articles_from_user(b).unwrap();
    assert_eq!(of_b.len(), 1);
    assert_eq!(of_b[0].title, "B1");
    assert_eq!(store.get_articles().unwrap().len(), 3);
}

#[test]
fn authorship_check() {
    let mut store = Store::new();
    let a = add_user(&mut store, "a");
    let b = add_user(&mut store, "b");
    let id = publish(&mut store, a, "Mine", "d", b"1");
    assert_eq!(store.is_user_author_article(a, id), Ok(true));
    assert_eq!(store.is_user_author_article(b, id), Ok(false));
    assert_eq!(store.is_user_author_article(a, 999), Ok(false));
}

#[test]
fn cascade_delete_removes_comments_and_reactions() {
    let mut store = Store::new();
    store.create_tables().unwrap();
    let a = add_user(&mut store, "a");
    let b = add_user(&mut store, "b");
    let id = publish(&mut store, a, "Doomed", "d", b"1");
    let other = publish(&mut store, a, "Kept", "d", b"2");
    store
        .insert_comment_to_article(&InsertComment {
            user_id: b,
            article_id: id,
            message: "hi".to_string(),
        })
        .unwrap();
    store
        .insert_comment_to_article(&InsertComment {
            user_id: b,
            article_id: other,
            message: "stays".to_string(),
        })
        .unwrap();
    store
        .insert_reaction_for_article(&InsertReaction {
            user_id: b,
            article_id: id,
            reaction: "like".to_string(),
        })
        .unwrap();

    store.remove_article(id).unwrap();
    assert_eq!(store.get_article_info(id), Err(StoreError::NotFound));
    assert_eq!(store.get_comments_from_article(id).unwrap().len(), 0);
    assert_eq!(store.get_reactions_from_article(id), Ok((0, 0)));
    // the unrelated article and its comment survive
    assert!(store.get_article_info(other).is_ok());
    assert_eq!(store.get_comments_from_article(other).unwrap().len(), 1);
    // deleting again is a no-op, not an error
    assert_eq!(store.remove_article(id), Ok(()));
}

#[test]
fn removal_by_author_runs_the_three_checks() {
    let mut store = Store::new();
    let a = add_user(&mut store, "a");
    let b = add_user(&mut store, "b");
    let id = publish(&mut store, a, "Mine", "d", b"1");
    assert_eq!(
        store.remove_article_by_author(a, 999),
        Err(StoreError::NotFound)
    );
    assert_eq!(
        store.remove_article_by_author(b, id),
        Err(StoreError::ConstraintViolation)
    );
    assert!(store.get_article_info(id).is_ok());
    assert_eq!(store.remove_article_by_author(a, id), Ok(()));
    assert_eq!(store.get_article_info(id), Err(StoreError::NotFound));
}

#[test]
fn comments_list_in_publish_order_with_authors() {
    let mut store = Store::new();
    let a = add_user(&mut store, "a");
    let b = add_user(&mut store, "b");
    let id = publish(&mut store, a, "T", "d", b"1");
    for (who, msg) in [(a, "first"), (b, "second"), (a, "third")] {
        store
            .insert_comment_to_article(&InsertComment {
                user_id: who,
                article_id: id,
                message: msg.to_string(),
            })
            .unwrap();
    }
    let comments = store.get_comments_from_article(id).unwrap();
    assert_eq!(comments.len(), 3);
    assert_eq!(comments[0].message, "first");
    assert_eq!(comments[1].message, "second");
    assert_eq!(comments[2].message, "third");
    assert!(comments[0].publish_date < comments[1].publish_date);
    assert!(comments[1].publish_date < comments[2].publish_date);
    assert_eq!(comments[1].author.first_name, "b");
}

#[test]
fn comment_needs_present_user_and_article() {
    let mut store = Store::new();
    let a = add_user(&mut store, "a");
    let id = publish(&mut store, a, "T", "d", b"1");
    assert_eq!(
        store.insert_comment_to_article(&InsertComment {
            user_id: 999,
            article_id: id,
            message: "m".to_string(),
        }),
        Err(StoreError::ConstraintViolation)
    );
    assert_eq!(
        store.insert_comment_to_article(&InsertComment {
            user_id: a,
            article_id: 999,
            message: "m".to_string(),
        }),
        Err(StoreError::ConstraintViolation)
    );
}
