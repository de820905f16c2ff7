//! The laws of the store: what sequences of operations are proved to do.
//!
//! Each lemma speaks of the spec-level transitions that the repository
//! methods' contracts tie their results to, so together they cover the
//! behaviour of the executable operations.

use vstd::prelude::*;

use crate::models::{registered_from, CommentRow, ReactionRow, RegisterUser};
use crate::store::{
    count_edges, dislike_name, lemma_count_edges_push, lemma_count_edges_remove,
    lemma_count_reactions_push, lemma_count_reactions_remove, lemma_filter_elements,
    lemma_kind_names_differ, like_name, StoreView,
};

verus! {

/// Two states with the same kind table resolve a present kind name to the
/// same id.
proof fn lemma_kind_lookup_same(a: StoreView, b: StoreView, name: Seq<char>)
    requires
        a.kinds == b.kinds,
        a.kinds_wf(),
        a.has_kind(name),
    ensures
        b.has_kind(name),
        b.kind_id_of(name) == a.kind_id_of(name),
{
    let wa = choose|i: int| 0 <= i < a.kinds.len() && (#[trigger] a.kinds[i]).description@ == name;
    assert(b.kinds[wa].description@ == name);
    assert(b.has_kind(name));
    let wb = choose|i: int| 0 <= i < b.kinds.len() && (#[trigger] b.kinds[i]).description@ == name;
    assert(a.kinds[wb].description@ == name);
    assert(wa == wb) by {
        if wa < wb {
            assert(a.kinds[wa].description@ != a.kinds[wb].description@);
        } else if wa > wb {
            assert(a.kinds[wb].description@ != a.kinds[wa].description@);
        }
    };
}

/// Registering a fresh login makes it present, and looking the new user
/// up by the registered credentials finds exactly the registered
/// attributes.
pub proof fn lemma_register_then_lookup(s: StoreView, u: RegisterUser)
    requires
        s.wf(),
        !s.has_login(u.login@),
        s.can_stamp(),
    ensures
        s.insert_user_t(u).has_login(u.login@),
        s.insert_user_t(u).has_cred(u.login@, u.password@),
        registered_from(s.insert_user_t(u).cred_user(u.login@, u.password@), u),
{
    let t = s.insert_user_t(u);
    let n = s.users.len() as int;
    assert((#[trigger] t.users[n]).login@ == u.login@);
    assert(t.has_login(u.login@));
    assert(t.has_cred(u.login@, u.password@));
    let w = t.cred_index(u.login@, u.password@);
    assert(0 <= w < t.users.len() && t.users[w].login@ == u.login@);
    assert(w == n) by {
        if w < n {
            assert(t.users[w] == s.users[w]);
            assert(s.has_login(u.login@));
        }
    };
    assert(registered_from(t.users[n], u));
}

/// Following raises the author's follower count by exactly one and makes
/// the edge visible; unfollowing the same pair removes exactly that edge
/// and restores the count.
pub proof fn lemma_follow_unfollow(s: StoreView, author: u64, follower: u64)
    requires
        s.wf(),
        s.has_user(author),
        s.has_user(follower),
        !s.is_following(author, follower),
        s.can_stamp(),
    ensures
        s.follow_t(author, follower).is_following(author, follower),
        s.follow_t(author, follower).follower_count(author) == s.follower_count(author) + 1,
        s.follow_t(author, follower).unfollow_t(author, follower).follows == s.follows,
        !s.follow_t(author, follower).unfollow_t(author, follower).is_following(author, follower),
        s.follow_t(author, follower).unfollow_t(author, follower).follower_count(author)
            == s.follower_count(author),
{
    let t = s.follow_t(author, follower);
    let n = s.follows.len() as int;
    assert((#[trigger] t.follows[n]).author_id == author && t.follows[n].follower_id == follower);
    assert(t.is_following(author, follower));
    lemma_count_edges_push(s.follows, t.follows[n], author);
    let w = t.edge_index(author, follower);
    assert(0 <= w < t.follows.len() && t.follows[w].author_id == author
        && t.follows[w].follower_id == follower);
    assert(w == n) by {
        if w < n {
            assert(t.follows[w] == s.follows[w]);
            assert(s.is_following(author, follower));
        }
    };
    let r = t.unfollow_t(author, follower);
    assert(r.follows =~= s.follows);
    assert(!r.is_following(author, follower)) by {
        if r.is_following(author, follower) {
            let k = choose|k: int|
                0 <= k < r.follows.len() && (#[trigger] r.follows[k]).author_id == author
                    && r.follows[k].follower_id == follower;
            assert((#[trigger] s.follows[k]).author_id == author && s.follows[k].follower_id
                == follower);
            assert(s.is_following(author, follower));
        }
    };
    assert(r.follower_count(author) == count_edges(s.follows, author));
}

/// Unfollowing, from any state, removes the pair's edge: afterwards the
/// pair is not following, and the author's follower count is lower by one
/// exactly when the edge was there.
pub proof fn lemma_unfollow(s: StoreView, author: u64, follower: u64)
    requires
        s.wf(),
    ensures
        !s.unfollow_t(author, follower).is_following(author, follower),
        s.unfollow_t(author, follower).follower_count(author) == s.follower_count(author) - (
        if s.is_following(author, follower) {
            1int
        } else {
            0int
        }),
{
    let t = s.unfollow_t(author, follower);
    if s.is_following(author, follower) {
        let w = s.edge_index(author, follower);
        assert(0 <= w < s.follows.len() && s.follows[w].author_id == author
            && s.follows[w].follower_id == follower);
        lemma_count_edges_remove(s.follows, w, author);
        assert(!t.is_following(author, follower)) by {
            if t.is_following(author, follower) {
                let k = choose|k: int|
                    0 <= k < t.follows.len() && (#[trigger] t.follows[k]).author_id == author
                        && t.follows[k].follower_id == follower;
                let k0 = if k < w {
                    k
                } else {
                    k + 1
                };
                assert(t.follows[k] == s.follows[k0]);
                assert(k0 != w);
                if k0 < w {
                    assert(!(s.follows[k0].author_id == s.follows[w].author_id
                        && s.follows[k0].follower_id == s.follows[w].follower_id));
                } else {
                    assert(!(s.follows[w].author_id == s.follows[k0].author_id
                        && s.follows[w].follower_id == s.follows[k0].follower_id));
                }
            }
        };
    } else {
        assert(!t.is_following(author, follower)) by {
            if t.is_following(author, follower) {
                let k = choose|k: int|
                    0 <= k < t.follows.len() && (#[trigger] t.follows[k]).author_id == author
                        && t.follows[k].follower_id == follower;
                assert((#[trigger] s.follows[k]).author_id == author && s.follows[k].follower_id
                    == follower);
            }
        };
    }
}

/// Withdrawing a reaction, from any state, removes the pair's row:
/// afterwards the pair has no reaction, and the article's like and dislike
/// tallies are lower by one exactly when the withdrawn reaction was of
/// that kind.
pub proof fn lemma_withdraw_reaction(s: StoreView, user: u64, article: u64)
    requires
        s.wf(),
    ensures
        !s.drop_reaction_t(user, article).has_reaction(user, article),
        s.drop_reaction_t(user, article).likes_of(article) == s.likes_of(article) - (
        if s.reaction_of(user, article) == Option::Some(like_name())
            && s.reacts[s.reaction_index(user, article)].article_id == article {
            1int
        } else {
            0int
        }),
        s.drop_reaction_t(user, article).dislikes_of(article) == s.dislikes_of(article) - (
        if s.reaction_of(user, article) == Option::Some(dislike_name())
            && s.reacts[s.reaction_index(user, article)].article_id == article {
            1int
        } else {
            0int
        }),
{
    let t = s.drop_reaction_t(user, article);
    if s.has_reaction(user, article) {
        let w = s.reaction_index(user, article);
        assert(0 <= w < s.reacts.len() && s.reacts[w].user_id == user && s.reacts[w].article_id
            == article);
        let row = s.reacts[w];
        assert(!t.has_reaction(user, article)) by {
            if t.has_reaction(user, article) {
                let k = choose|k: int|
                    0 <= k < t.reacts.len() && (#[trigger] t.reacts[k]).user_id == user
                        && t.reacts[k].article_id == article;
                let k0 = if k < w {
                    k
                } else {
                    k + 1
                };
                assert(t.reacts[k] == s.reacts[k0]);
                assert(k0 != w);
                if k0 < w {
                    assert(!(s.reacts[k0].user_id == s.reacts[w].user_id && s.reacts[k0].article_id
                        == s.reacts[w].article_id));
                } else {
                    assert(!(s.reacts[w].user_id == s.reacts[k0].user_id && s.reacts[w].article_id
                        == s.reacts[k0].article_id));
                }
            }
        };
        lemma_same_tallies_after_drop(s, t, row, w, article);
    } else {
        assert(!t.has_reaction(user, article)) by {
            if t.has_reaction(user, article) {
                let k = choose|k: int|
                    0 <= k < t.reacts.len() && (#[trigger] t.reacts[k]).user_id == user
                        && t.reacts[k].article_id == article;
                assert((#[trigger] s.reacts[k]).user_id == user && s.reacts[k].article_id
                    == article);
            }
        };
    }
}

/// Removing one reaction row changes the like and dislike tallies of its
/// article by one exactly for the row's own kind.
proof fn lemma_same_tallies_after_drop(
    s: StoreView,
    t: StoreView,
    row: ReactionRow,
    w: int,
    article: u64,
)
    requires
        s.wf(),
        0 <= w < s.reacts.len(),
        row == s.reacts[w],
        t.kinds == s.kinds,
        t.reacts == s.reacts.remove(w),
    ensures
        t.likes_of(article) == s.likes_of(article) - (
        if s.has_kind(like_name()) && row.kind_id == s.kind_id_of(like_name()) && row.article_id
            == article {
            1int
        } else {
            0int
        }),
        t.dislikes_of(article) == s.dislikes_of(article) - (
        if s.has_kind(dislike_name()) && row.kind_id == s.kind_id_of(dislike_name())
            && row.article_id == article {
            1int
        } else {
            0int
        }),
        s.has_reaction(row.user_id, row.article_id) && s.reaction_of(row.user_id, row.article_id)
            == Option::Some(s.kind_by_id(row.kind_id).description@),
{
    assert((#[trigger] s.reacts[w]).user_id == row.user_id);
    assert(s.has_reaction(row.user_id, row.article_id));
    let w2 = s.reaction_index(row.user_id, row.article_id);
    assert(0 <= w2 < s.reacts.len() && s.reacts[w2].user_id == row.user_id
        && s.reacts[w2].article_id == row.article_id);
    assert(w2 == w) by {
        if w2 < w {
            assert(!(s.reacts[w2].user_id == s.reacts[w].user_id && s.reacts[w2].article_id
                == s.reacts[w].article_id));
        } else if w2 > w {
            assert(!(s.reacts[w].user_id == s.reacts[w2].user_id && s.reacts[w].article_id
                == s.reacts[w2].article_id));
        }
    };
    if s.has_kind(like_name()) {
        lemma_kind_lookup_same(s, t, like_name());
        lemma_count_reactions_remove(s.reacts, w, article, s.kind_id_of(like_name()));
    }
    if s.has_kind(dislike_name()) {
        lemma_kind_lookup_same(s, t, dislike_name());
        lemma_count_reactions_remove(s.reacts, w, article, s.kind_id_of(dislike_name()));
    }
}

/// Reacting with a like makes the like visible as the pair's reaction and
/// raises the like tally by one, leaving the dislike tally alone;
/// withdrawing the reaction hides it again and restores both tallies.
pub proof fn lemma_reaction_lifecycle(s: StoreView, user: u64, article: u64)
    requires
        s.wf(),
        s.has_user(user),
        s.has_article(article),
        s.seeded(),
        !s.has_reaction(user, article),
        s.can_stamp(),
    ensures
        ({
            let t = s.react_t(user, article, s.kind_id_of(like_name()));
            &&& t.reaction_of(user, article) == Option::Some(like_name())
            &&& t.likes_of(article) == s.likes_of(article) + 1
            &&& t.dislikes_of(article) == s.dislikes_of(article)
            &&& t.drop_reaction_t(user, article).reaction_of(user, article) is None
            &&& t.drop_reaction_t(user, article).likes_of(article) == s.likes_of(article)
            &&& t.drop_reaction_t(user, article).dislikes_of(article) == s.dislikes_of(article)
        }),
{
    let kl = s.kind_id_of(like_name());
    let t = s.react_t(user, article, kl);
    let n = s.reacts.len() as int;
    assert((#[trigger] t.reacts[n]).user_id == user && t.reacts[n].article_id == article);
    assert(t.has_reaction(user, article));
    let w = t.reaction_index(user, article);
    assert(0 <= w < t.reacts.len() && t.reacts[w].user_id == user && t.reacts[w].article_id
        == article);
    assert(w == n) by {
        if w < n {
            assert(t.reacts[w] == s.reacts[w]);
            assert(s.has_reaction(user, article));
        }
    };
    // the like kind row, seen from s and from t
    let wl = choose|i: int|
        0 <= i < s.kinds.len() && (#[trigger] s.kinds[i]).description@ == like_name();
    assert(s.kinds[wl].id == kl);
    lemma_kind_lookup_same(s, t, like_name());
    lemma_kind_lookup_same(s, t, dislike_name());
    // the row the reaction points at is the like row
    assert(t.reaction_of(user, article) == Option::Some(like_name())) by {
        assert((#[trigger] t.kinds[wl]).id == kl);
        assert(t.has_kind_id(kl));
        let wk = choose|i: int| 0 <= i < t.kinds.len() && (#[trigger] t.kinds[i]).id == kl;
        assert(s.kinds[wk].id == s.kinds[wl].id);
        assert(wk == wl) by {
            if wk < wl {
                assert(s.kinds[wk].id != s.kinds[wl].id);
            } else if wk > wl {
                assert(s.kinds[wl].id != s.kinds[wk].id);
            }
        };
    };
    // the two kind ids differ
    let kd = s.kind_id_of(dislike_name());
    assert(kl != kd) by {
        lemma_kind_names_differ();
        let wd = choose|i: int|
            0 <= i < s.kinds.len() && (#[trigger] s.kinds[i]).description@ == dislike_name();
        assert(s.kinds[wd].id == kd);
        assert(wl != wd);
        if wl < wd {
            assert(s.kinds[wl].id != s.kinds[wd].id);
        } else {
            assert(s.kinds[wd].id != s.kinds[wl].id);
        }
    };
    lemma_count_reactions_push(s.reacts, t.reacts[n], article, kl);
    lemma_count_reactions_push(s.reacts, t.reacts[n], article, kd);
    assert(t.likes_of(article) == s.likes_of(article) + 1);
    assert(t.dislikes_of(article) == s.dislikes_of(article));
    // withdrawing the reaction restores the reaction table exactly
    let r = t.drop_reaction_t(user, article);
    assert(r.reacts =~= s.reacts);
    assert(!r.has_reaction(user, article)) by {
        if r.has_reaction(user, article) {
            let k = choose|k: int|
                0 <= k < r.reacts.len() && (#[trigger] r.reacts[k]).user_id == user
                    && r.reacts[k].article_id == article;
            assert((#[trigger] s.reacts[k]).user_id == user && s.reacts[k].article_id == article);
            assert(s.has_reaction(user, article));
        }
    };
    assert(r.reaction_of(user, article) is None);
    lemma_kind_lookup_same(s, r, like_name());
    lemma_kind_lookup_same(s, r, dislike_name());
    assert(r.likes_of(article) == s.likes_of(article));
    assert(r.dislikes_of(article) == s.dislikes_of(article));
}

/// Deleting an article deletes it together with every comment and every
/// reaction that belonged to it: nothing of the article survives the
/// cascade.
pub proof fn lemma_cascade_delete(s: StoreView, article: u64)
    requires
        s.wf(),
    ensures
        !s.drop_article_t(article).has_article(article),
        forall|i: int|
            0 <= i < s.drop_article_t(article).comments.len() ==> (#[trigger] s.drop_article_t(
                article,
            ).comments[i]).article_id != article,
        forall|i: int|
            0 <= i < s.drop_article_t(article).reacts.len() ==> (#[trigger] s.drop_article_t(
                article,
            ).reacts[i]).article_id != article,
{
    let t = s.drop_article_t(article);
    assert(!t.has_article(article)) by {
        if t.has_article(article) {
            let k = choose|k: int|
                0 <= k < t.articles.len() && (#[trigger] t.articles[k]).id == article;
            if s.has_article(article) {
                let i = s.article_index(article);
                assert(s.articles[i].id == article);
                let k0 = if k < i {
                    k
                } else {
                    k + 1
                };
                assert(t.articles[k] == s.articles[k0]);
                assert(k0 != i);
                if k0 < i {
                    assert(s.articles[k0].id != s.articles[i].id);
                } else {
                    assert(s.articles[i].id != s.articles[k0].id);
                }
            } else {
                assert((#[trigger] s.articles[k]).id == article);
                assert(s.has_article(article));
            }
        }
    };
    lemma_filter_elements(s.comments, |c: CommentRow| c.article_id != article);
    lemma_filter_elements(s.reacts, |x: ReactionRow| x.article_id != article);
}

/// A freshly inserted article is found under the stamp it was assigned,
/// carrying exactly the decoded image bytes it was inserted with.
pub proof fn lemma_image_round_trip(
    s: StoreView,
    author_id: u64,
    image: Vec<u8>,
    title: String,
    description: String,
)
    requires
        s.wf(),
        s.can_stamp(),
    ensures
        ({
            let t = s.insert_article_t(author_id, image, title, description);
            &&& t.has_article(s.next_stamp)
            &&& t.article_by_id(s.next_stamp).image@ == image@
            &&& t.article_by_id(s.next_stamp).author_id == author_id
        }),
{
    let t = s.insert_article_t(author_id, image, title, description);
    let n = s.articles.len() as int;
    assert((#[trigger] t.articles[n]).id == s.next_stamp);
    assert(t.has_article(s.next_stamp));
    let w = t.article_index(s.next_stamp);
    assert(0 <= w < t.articles.len() && t.articles[w].id == s.next_stamp);
    assert(w == n) by {
        if w < n {
            assert(t.articles[w] == s.articles[w]);
            assert(s.articles[w].id < s.next_stamp);
        }
    };
}

} // verus!
