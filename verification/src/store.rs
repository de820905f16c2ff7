//! The relational state and the repository operations over it.
//!
//! `Store` keeps the six tables of the schema — users, articles, comments,
//! follow edges, reaction kinds and reactions — as rows of plain values,
//! together with one monotonic counter that assigns every inserted row its
//! id and its timestamp.  The well-formedness invariant [`StoreView::wf`]
//! states what the schema alone would not: ids and logins are unique, at
//! most one follow edge exists per ordered pair, at most one reaction per
//! (user, article) pair, and every foreign key points at a present row.
//! Check-then-act pairs (look up, then insert) are collapsed into single
//! operations that refuse the duplicate as a constraint violation, so the
//! uniqueness invariants hold without any cooperation from callers.

use vstd::pervasive::unreached;
use vstd::prelude::*;

use crate::codec::{b64_of, decode_base64, is_b64};
use crate::errors::StoreError;
use crate::models::{
    clone_bytes, clone_comment_row, clone_opt_bytes, clone_opt_string, crop_description, crop_of,
    popular_profile_of, profile_of, user_profile, Article, ArticleRow, Comment, CommentRow,
    FollowRow, FullUser, InsertArticle, InsertComment, InsertReaction, KindRow, PopularUser,
    ReactionRow, RegisterUser, User,
};

verus! {

/// The name of the approving reaction kind.
pub open spec fn like_name() -> Seq<char> {
    "like"@
}

/// The name of the disapproving reaction kind.
pub open spec fn dislike_name() -> Seq<char> {
    "dislike"@
}

/// The mathematical model of a [`Store`]: the six tables and the stamp
/// counter.
#[verifier::ext_equal]
pub ghost struct StoreView {
    pub users: Seq<FullUser>,
    pub articles: Seq<ArticleRow>,
    pub comments: Seq<CommentRow>,
    pub follows: Seq<FollowRow>,
    pub kinds: Seq<KindRow>,
    pub reacts: Seq<ReactionRow>,
    pub next_stamp: u64,
}

/// How many edges of `s` point at the author `author`.
pub open spec fn count_edges(s: Seq<FollowRow>, author: u64) -> nat
    decreases s.len(),
{
    if s.len() == 0 {
        0
    } else {
        count_edges(s.drop_last(), author) + if s.last().author_id == author {
            1nat
        } else {
            0nat
        }
    }
}

/// How many reactions of `s` concern the article `article` and carry the
/// kind `kind`.
pub open spec fn count_reactions(s: Seq<ReactionRow>, article: u64, kind: u64) -> nat
    decreases s.len(),
{
    if s.len() == 0 {
        0
    } else {
        count_reactions(s.drop_last(), article, kind) + if s.last().article_id == article
            && s.last().kind_id == kind {
            1nat
        } else {
            0nat
        }
    }
}

impl StoreView {
    /// Some user row carries the id `id`.
    pub open spec fn has_user(self, id: u64) -> bool {
        exists|i: int| 0 <= i < self.users.len() && (#[trigger] self.users[i]).id == id
    }

    /// The index of the user row with id `id`.
    pub open spec fn user_index(self, id: u64) -> int {
        choose|i: int| 0 <= i < self.users.len() && (#[trigger] self.users[i]).id == id
    }

    /// The user row with id `id`.
    pub open spec fn user_by_id(self, id: u64) -> FullUser {
        self.users[self.user_index(id)]
    }

    /// Some user row carries the login `login`.
    pub open spec fn has_login(self, login: Seq<char>) -> bool {
        exists|i: int| 0 <= i < self.users.len() && (#[trigger] self.users[i]).login@ == login
    }

    /// The index of the user row with login `login`.
    pub open spec fn login_index(self, login: Seq<char>) -> int {
        choose|i: int| 0 <= i < self.users.len() && (#[trigger] self.users[i]).login@ == login
    }

    /// The user row with login `login`.
    pub open spec fn user_by_login(self, login: Seq<char>) -> FullUser {
        self.users[self.login_index(login)]
    }

    /// Some user row carries both the login and the secret.
    pub open spec fn has_cred(self, login: Seq<char>, password: Seq<char>) -> bool {
        exists|i: int|
            0 <= i < self.users.len() && (#[trigger] self.users[i]).login@ == login
                && self.users[i].password@ == password
    }

    /// The index of the user row matching both the login and the secret.
    pub open spec fn cred_index(self, login: Seq<char>, password: Seq<char>) -> int {
        choose|i: int|
            0 <= i < self.users.len() && (#[trigger] self.users[i]).login@ == login
                && self.users[i].password@ == password
    }

    /// The user row matching both the login and the secret.
    pub open spec fn cred_user(self, login: Seq<char>, password: Seq<char>) -> FullUser {
        self.users[self.cred_index(login, password)]
    }

    /// `follower` follows `author`.
    pub open spec fn is_following(self, author: u64, follower: u64) -> bool {
        exists|i: int|
            0 <= i < self.follows.len() && (#[trigger] self.follows[i]).author_id == author
                && self.follows[i].follower_id == follower
    }

    /// The index of the edge from `follower` to `author`.
    pub open spec fn edge_index(self, author: u64, follower: u64) -> int {
        choose|i: int|
            0 <= i < self.follows.len() && (#[trigger] self.follows[i]).author_id == author
                && self.follows[i].follower_id == follower
    }

    /// The number of followers of `author`: the number of edges that point
    /// at it.
    pub open spec fn follower_count(self, author: u64) -> nat {
        count_edges(self.follows, author)
    }

    /// Some article row carries the id `id`.
    pub open spec fn has_article(self, id: u64) -> bool {
        exists|i: int| 0 <= i < self.articles.len() && (#[trigger] self.articles[i]).id == id
    }

    /// The index of the article row with id `id`.
    pub open spec fn article_index(self, id: u64) -> int {
        choose|i: int| 0 <= i < self.articles.len() && (#[trigger] self.articles[i]).id == id
    }

    /// The article row with id `id`.
    pub open spec fn article_by_id(self, id: u64) -> ArticleRow {
        self.articles[self.article_index(id)]
    }

    /// The article with id `article` exists and was authored by `user`.
    pub open spec fn authored(self, user: u64, article: u64) -> bool {
        self.has_article(article) && self.article_by_id(article).author_id == user
    }

    /// Some kind row carries the name `name`.
    pub open spec fn has_kind(self, name: Seq<char>) -> bool {
        exists|i: int| 0 <= i < self.kinds.len() && (#[trigger] self.kinds[i]).description@ == name
    }

    /// The id of the kind row named `name`.
    pub open spec fn kind_id_of(self, name: Seq<char>) -> u64 {
        self.kinds[choose|i: int|
            0 <= i < self.kinds.len() && (#[trigger] self.kinds[i]).description@ == name].id
    }

    /// Some kind row carries the id `id`.
    pub open spec fn has_kind_id(self, id: u64) -> bool {
        exists|i: int| 0 <= i < self.kinds.len() && (#[trigger] self.kinds[i]).id == id
    }

    /// The kind row with id `id`.
    pub open spec fn kind_by_id(self, id: u64) -> KindRow {
        self.kinds[choose|i: int|
            0 <= i < self.kinds.len() && (#[trigger] self.kinds[i]).id == id]
    }

    /// Both seeded reaction kinds are present.
    pub open spec fn seeded(self) -> bool {
        self.has_kind(like_name()) && self.has_kind(dislike_name())
    }

    /// `user` has reacted to `article`.
    pub open spec fn has_reaction(self, user: u64, article: u64) -> bool {
        exists|i: int|
            0 <= i < self.reacts.len() && (#[trigger] self.reacts[i]).user_id == user
                && self.reacts[i].article_id == article
    }

    /// The index of the reaction of `user` to `article`.
    pub open spec fn reaction_index(self, user: u64, article: u64) -> int {
        choose|i: int|
            0 <= i < self.reacts.len() && (#[trigger] self.reacts[i]).user_id == user
                && self.reacts[i].article_id == article
    }

    /// The name of the reaction of `user` to `article`, if any.
    pub open spec fn reaction_of(self, user: u64, article: u64) -> Option<Seq<char>> {
        if self.has_reaction(user, article) {
            Option::Some(
                self.kind_by_id(self.reacts[self.reaction_index(user, article)].kind_id)
                    .description@,
            )
        } else {
            Option::None
        }
    }

    /// The like tally of `article`.
    pub open spec fn likes_of(self, article: u64) -> nat {
        if self.has_kind(like_name()) {
            count_reactions(self.reacts, article, self.kind_id_of(like_name()))
        } else {
            0
        }
    }

    /// The dislike tally of `article`.
    pub open spec fn dislikes_of(self, article: u64) -> nat {
        if self.has_kind(dislike_name()) {
            count_reactions(self.reacts, article, self.kind_id_of(dislike_name()))
        } else {
            0
        }
    }

    /// The stamp counter can assign one more id.
    pub open spec fn can_stamp(self) -> bool {
        self.next_stamp < u64::MAX
    }

    /// Well-formedness of the user table: unique ids, unique logins,
    /// stamps below the counter.
    pub open spec fn users_wf(self) -> bool {
        &&& forall|i: int, j: int|
            0 <= i < j < self.users.len() ==> (#[trigger] self.users[i]).id != (
            #[trigger] self.users[j]).id && self.users[i].login@ != self.users[j].login@
        &&& forall|i: int|
            0 <= i < self.users.len() ==> (#[trigger] self.users[i]).id < self.next_stamp
                && self.users[i].date_registration < self.next_stamp
    }

    /// Well-formedness of the article table: unique ids, stamps below the
    /// counter, authors present.
    pub open spec fn articles_wf(self) -> bool {
        &&& forall|i: int, j: int|
            0 <= i < j < self.articles.len() ==> (#[trigger] self.articles[i]).id != (
            #[trigger] self.articles[j]).id
        &&& forall|i: int|
            0 <= i < self.articles.len() ==> (#[trigger] self.articles[i]).id < self.next_stamp
                && self.articles[i].publish_date < self.next_stamp && self.has_user(
                self.articles[i].author_id,
            )
    }

    /// Well-formedness of the comment table: unique ids, stamps below the
    /// counter, publish dates strictly increasing along the table, both
    /// foreign keys present.
    pub open spec fn comments_wf(self) -> bool {
        &&& forall|i: int, j: int|
            0 <= i < j < self.comments.len() ==> (#[trigger] self.comments[i]).publish_date < (
            #[trigger] self.comments[j]).publish_date
        &&& forall|i: int|
            0 <= i < self.comments.len() ==> (#[trigger] self.comments[i]).id < self.next_stamp
                && self.comments[i].publish_date < self.next_stamp && self.has_user(
                self.comments[i].user_id,
            ) && self.has_article(self.comments[i].article_id)
    }

    /// Well-formedness of the follow table: at most one edge per ordered
    /// pair, stamps below the counter, both endpoints present.
    pub open spec fn follows_wf(self) -> bool {
        &&& forall|i: int, j: int|
            0 <= i < j < self.follows.len() ==> !((#[trigger] self.follows[i]).author_id == (
            #[trigger] self.follows[j]).author_id && self.follows[i].follower_id
                == self.follows[j].follower_id)
        &&& forall|i: int|
            0 <= i < self.follows.len() ==> (#[trigger] self.follows[i]).id < self.next_stamp
                && self.has_user(self.follows[i].author_id) && self.has_user(
                self.follows[i].follower_id,
            )
    }

    /// Well-formedness of the kind table: unique ids, unique names, stamps
    /// below the counter.
    pub open spec fn kinds_wf(self) -> bool {
        &&& forall|i: int, j: int|
            0 <= i < j < self.kinds.len() ==> (#[trigger] self.kinds[i]).id != (
            #[trigger] self.kinds[j]).id && self.kinds[i].description@ != self.kinds[j].description@
        &&& forall|i: int|
            0 <= i < self.kinds.len() ==> (#[trigger] self.kinds[i]).id < self.next_stamp
    }

    /// Well-formedness of the reaction table: at most one reaction per
    /// (user, article) pair, stamps below the counter, all three foreign
    /// keys present.
    pub open spec fn reacts_wf(self) -> bool {
        &&& forall|i: int, j: int|
            0 <= i < j < self.reacts.len() ==> !((#[trigger] self.reacts[i]).user_id == (
            #[trigger] self.reacts[j]).user_id && self.reacts[i].article_id
                == self.reacts[j].article_id)
        &&& forall|i: int|
            0 <= i < self.reacts.len() ==> (#[trigger] self.reacts[i]).id < self.next_stamp
                && self.has_user(self.reacts[i].user_id) && self.has_article(
                self.reacts[i].article_id,
            ) && self.has_kind_id(self.reacts[i].kind_id)
    }

    /// The store invariant: every table is well-formed.
    pub open spec fn wf(self) -> bool {
        &&& self.users_wf()
        &&& self.articles_wf()
        &&& self.comments_wf()
        &&& self.follows_wf()
        &&& self.kinds_wf()
        &&& self.reacts_wf()
    }

    /// The state after registering `u`: one user row appended, carrying
    /// the registration's attributes, the fresh stamp as id and date, and
    /// no avatars yet.
    pub open spec fn insert_user_t(self, u: RegisterUser) -> StoreView {
        StoreView {
            users: self.users.push(
                FullUser {
                    id: self.next_stamp,
                    first_name: u.first_name,
                    last_name: u.last_name,
                    about: u.about,
                    password: u.password,
                    login: u.login,
                    crop_avatar: Option::None,
                    full_avatar: Option::None,
                    date_registration: self.next_stamp,
                },
            ),
            next_stamp: (self.next_stamp + 1) as u64,
            ..self
        }
    }

    /// The state after the user with login `login` replaced both avatars:
    /// that one row updated, everything else unchanged.
    pub open spec fn set_avatar_t(self, login: Seq<char>, crop: Vec<u8>, full: Vec<u8>) -> StoreView {
        let i = self.login_index(login);
        StoreView {
            users: self.users.update(
                i,
                FullUser {
                    crop_avatar: Option::Some(crop),
                    full_avatar: Option::Some(full),
                    ..self.users[i]
                },
            ),
            ..self
        }
    }

    /// The state after `follower` started following `author`: one edge
    /// appended, stamped with the fresh counter value.
    pub open spec fn follow_t(self, author: u64, follower: u64) -> StoreView {
        StoreView {
            follows: self.follows.push(
                FollowRow {
                    id: self.next_stamp,
                    author_id: author,
                    follower_id: follower,
                    follow_date: self.next_stamp,
                },
            ),
            next_stamp: (self.next_stamp + 1) as u64,
            ..self
        }
    }

    /// The state after `follower` stopped following `author`: the edge for
    /// that pair removed if it was there, a no-op otherwise.
    pub open spec fn unfollow_t(self, author: u64, follower: u64) -> StoreView {
        StoreView {
            follows: if self.is_following(author, follower) {
                self.follows.remove(self.edge_index(author, follower))
            } else {
                self.follows
            },
            ..self
        }
    }

    /// The state after `user` reacted to `article` with the kind `kind`:
    /// one reaction row appended, stamped with the fresh counter value.
    pub open spec fn react_t(self, user: u64, article: u64, kind: u64) -> StoreView {
        StoreView {
            reacts: self.reacts.push(
                ReactionRow {
                    id: self.next_stamp,
                    user_id: user,
                    article_id: article,
                    kind_id: kind,
                    date: self.next_stamp,
                },
            ),
            next_stamp: (self.next_stamp + 1) as u64,
            ..self
        }
    }

    /// The state after the reaction of `user` to `article` was withdrawn:
    /// the row for that pair removed whatever its kind, a no-op when there
    /// was none.
    pub open spec fn drop_reaction_t(self, user: u64, article: u64) -> StoreView {
        StoreView {
            reacts: if self.has_reaction(user, article) {
                self.reacts.remove(self.reaction_index(user, article))
            } else {
                self.reacts
            },
            ..self
        }
    }

    /// The state after `author` published an article with the already
    /// decoded image `image`: one article row appended, stamped with the
    /// fresh counter value.
    pub open spec fn insert_article_t(
        self,
        author: u64,
        image: Vec<u8>,
        title: String,
        description: String,
    ) -> StoreView {
        StoreView {
            articles: self.articles.push(
                ArticleRow {
                    id: self.next_stamp,
                    author_id: author,
                    image,
                    title,
                    description,
                    publish_date: self.next_stamp,
                },
            ),
            next_stamp: (self.next_stamp + 1) as u64,
            ..self
        }
    }

    /// The state after the article `article` was deleted: its row removed
    /// if present, and every comment and reaction of that article removed
    /// with it (the cascade of the owning relation).
    pub open spec fn drop_article_t(self, article: u64) -> StoreView {
        StoreView {
            articles: if self.has_article(article) {
                self.articles.remove(self.article_index(article))
            } else {
                self.articles
            },
            comments: self.comments.filter(|c: CommentRow| c.article_id != article),
            reacts: self.reacts.filter(|x: ReactionRow| x.article_id != article),
            ..self
        }
    }

    /// The state after `comment` was appended, stamped with the fresh
    /// counter value.
    pub open spec fn insert_comment_t(self, comment: InsertComment) -> StoreView {
        StoreView {
            comments: self.comments.push(
                CommentRow {
                    id: self.next_stamp,
                    user_id: comment.user_id,
                    article_id: comment.article_id,
                    message: comment.message,
                    publish_date: self.next_stamp,
                },
            ),
            next_stamp: (self.next_stamp + 1) as u64,
            ..self
        }
    }

    /// `p` is a well-formed entry of the popularity listing that excludes
    /// `exclude`: it stands for a present user other than the excluded
    /// one, carries that user's profile attributes, and its follower count
    /// is the user's true tally, which is positive (only followed users
    /// are listed).
    pub open spec fn popular_entry(self, exclude: u64, p: PopularUser) -> bool {
        &&& p.id != exclude
        &&& self.has_user(p.id)
        &&& popular_profile_of(self.user_by_id(p.id), p)
        &&& p.followers == self.follower_count(p.id)
        &&& p.followers > 0
    }

    /// `a` is the article row `row` as handed to callers: joined with its
    /// author's profile, the description cropped for listing, and the
    /// reaction tallies computed at read time.
    pub open spec fn enriched_article(self, row: ArticleRow, a: Article) -> bool {
        &&& a.id == row.id
        &&& profile_of(self.user_by_id(row.author_id), a.author)
        &&& a.image@ == row.image@
        &&& a.title@ == row.title@
        &&& a.full_description@ == row.description@
        &&& a.crop_description@ == crop_of(row.description@)
        &&& a.publish_date == row.publish_date
        &&& a.likes == self.likes_of(row.id)
        &&& a.dislikes == self.dislikes_of(row.id)
    }

    /// `c` is the comment row `row` joined with its author's profile.
    pub open spec fn enriched_comment(self, row: CommentRow, c: Comment) -> bool {
        &&& c.id == row.id
        &&& profile_of(self.user_by_id(row.user_id), c.author)
        &&& c.message@ == row.message@
        &&& c.publish_date == row.publish_date
    }
}

/// Some entry of the listing `s` carries the id `id`.
pub open spec fn listed(s: Seq<PopularUser>, id: u64) -> bool {
    exists|k: int| 0 <= k < s.len() && (#[trigger] s[k]).id == id
}

/// Some of the first `n` user rows of `users` carries the id `id`.
pub open spec fn id_in_prefix(users: Seq<FullUser>, n: int, id: u64) -> bool {
    exists|j: int| 0 <= j < n && (#[trigger] users[j]).id == id
}

/// The ranking order of the popularity listing: descending by follower
/// count, ties broken by ascending id.
pub open spec fn ranked_before(a: PopularUser, b: PopularUser) -> bool {
    a.followers > b.followers || (a.followers == b.followers && a.id < b.id)
}

/// The ranking order is total over entries with distinct ids.
pub proof fn lemma_ranked_total(a: PopularUser, b: PopularUser)
    requires
        a.id != b.id,
    ensures
        ranked_before(a, b) || ranked_before(b, a),
{
}

/// The ranking order is transitive.
pub proof fn lemma_ranked_trans(a: PopularUser, b: PopularUser, c: PopularUser)
    requires
        ranked_before(a, b),
        ranked_before(b, c),
    ensures
        ranked_before(a, c),
{
}

/// Unfolds `filter` over a trailing push.
pub proof fn lemma_filter_push<A>(s: Seq<A>, p: spec_fn(A) -> bool, x: A)
    ensures
        (s.push(x)).filter(p) == if p(x) {
            s.filter(p).push(x)
        } else {
            s.filter(p)
        },
{
    reveal(Seq::filter);
    assert(s.push(x).drop_last() =~= s);
    assert(s.push(x).last() == x);
}

/// Every element that `filter` keeps satisfies the predicate and occurs in
/// the unfiltered sequence.
pub proof fn lemma_filter_elements<A>(s: Seq<A>, p: spec_fn(A) -> bool)
    ensures
        forall|k: int|
            0 <= k < s.filter(p).len() ==> p(#[trigger] s.filter(p)[k]) && s.contains(
                s.filter(p)[k],
            ),
    decreases s.len(),
{
    reveal(Seq::filter);
    if s.len() > 0 {
        let t = s.drop_last();
        lemma_filter_elements(t, p);
        assert forall|k: int| 0 <= k < s.filter(p).len() implies p(#[trigger] s.filter(p)[k])
            && s.contains(s.filter(p)[k]) by {
            if k < t.filter(p).len() {
                assert(s.filter(p)[k] == t.filter(p)[k]);
                assert(t.contains(t.filter(p)[k]));
                let w = choose|w: int| 0 <= w < t.len() && t[w] == t.filter(p)[k];
                assert(s[w] == s.filter(p)[k]);
            } else {
                assert(s.filter(p)[k] == s.last());
                assert(s[s.len() - 1] == s.last());
            }
        }
    }
}

/// `filter` keeps any strict pairwise ordering of the sequence.
pub proof fn lemma_filter_pairwise<A>(s: Seq<A>, p: spec_fn(A) -> bool, r: spec_fn(A, A) -> bool)
    requires
        forall|i: int, j: int| 0 <= i < j < s.len() ==> r(#[trigger] s[i], #[trigger] s[j]),
    ensures
        forall|i: int, j: int|
            0 <= i < j < s.filter(p).len() ==> r(
                #[trigger] s.filter(p)[i],
                #[trigger] s.filter(p)[j],
            ),
    decreases s.len(),
{
    reveal(Seq::filter);
    if s.len() > 0 {
        let t = s.drop_last();
        lemma_filter_pairwise(t, p, r);
        lemma_filter_elements(t, p);
        assert forall|i: int, j: int| 0 <= i < j < s.filter(p).len() implies r(
            #[trigger] s.filter(p)[i],
            #[trigger] s.filter(p)[j],
        ) by {
            if j < t.filter(p).len() {
                assert(s.filter(p)[i] == t.filter(p)[i]);
                assert(s.filter(p)[j] == t.filter(p)[j]);
            } else {
                assert(s.filter(p)[j] == s.last());
                assert(s.filter(p)[i] == t.filter(p)[i]);
                assert(t.contains(t.filter(p)[i]));
                let w = choose|w: int| 0 <= w < t.len() && t[w] == t.filter(p)[i];
                assert(r(s[w], s[s.len() - 1]));
            }
        }
    }
}

/// `post` is `pre` with the schema bootstrap applied: every table except
/// the kinds untouched, both reaction kinds present afterwards, missing
/// kinds appended behind the existing rows with fresh stamps, and a state
/// already seeded left exactly as it was.
pub open spec fn seeded_from(pre: StoreView, post: StoreView) -> bool {
    &&& post.users == pre.users
    &&& post.articles == pre.articles
    &&& post.comments == pre.comments
    &&& post.follows == pre.follows
    &&& post.reacts == pre.reacts
    &&& post.seeded()
    &&& pre.seeded() ==> post == pre
    &&& pre.kinds.len() <= post.kinds.len() <= pre.kinds.len() + 2
    &&& forall|i: int| 0 <= i < pre.kinds.len() ==> #[trigger] post.kinds[i] == pre.kinds[i]
    &&& forall|i: int|
        pre.kinds.len() <= i < post.kinds.len() ==> ((#[trigger] post.kinds[i]).description@
            == like_name() || post.kinds[i].description@ == dislike_name())
    &&& post.next_stamp == pre.next_stamp + post.kinds.len() - pre.kinds.len()
}

/// The two seeded kind names differ.
pub proof fn lemma_kind_names_differ()
    ensures
        like_name() != dislike_name(),
{
    reveal_strlit("like");
    reveal_strlit("dislike");
    assert(like_name().len() == 4);
    assert(dislike_name().len() == 7);
}

/// Two states with the same user table agree on user lookups.
pub proof fn lemma_same_users(pre: StoreView, post: StoreView)
    requires
        post.users == pre.users,
    ensures
        forall|x: u64|
            #![trigger post.has_user(x)]
            #![trigger pre.has_user(x)]
            post.has_user(x) == pre.has_user(x),
{
    assert forall|x: u64|
        #![trigger post.has_user(x)]
        #![trigger pre.has_user(x)]
        post.has_user(x) == pre.has_user(x) by {
        if pre.has_user(x) {
            let k = pre.user_index(x);
            assert(post.users[k].id == x);
        }
        if post.has_user(x) {
            let k = post.user_index(x);
            assert(pre.users[k].id == x);
        }
    }
}

/// Two states with the same article table agree on article lookups.
pub proof fn lemma_same_articles(pre: StoreView, post: StoreView)
    requires
        post.articles == pre.articles,
    ensures
        forall|x: u64|
            #![trigger post.has_article(x)]
            #![trigger pre.has_article(x)]
            post.has_article(x) == pre.has_article(x),
{
    assert forall|x: u64|
        #![trigger post.has_article(x)]
        #![trigger pre.has_article(x)]
        post.has_article(x) == pre.has_article(x) by {
        if pre.has_article(x) {
            let k = pre.article_index(x);
            assert(post.articles[k].id == x);
        }
        if post.has_article(x) {
            let k = post.article_index(x);
            assert(pre.articles[k].id == x);
        }
    }
}

/// Two states with the same kind table agree on kind lookups.
pub proof fn lemma_same_kinds(pre: StoreView, post: StoreView)
    requires
        post.kinds == pre.kinds,
    ensures
        forall|x: u64|
            #![trigger post.has_kind_id(x)]
            #![trigger pre.has_kind_id(x)]
            post.has_kind_id(x) == pre.has_kind_id(x),
        forall|n: Seq<char>|
            #![trigger post.has_kind(n)]
            #![trigger pre.has_kind(n)]
            post.has_kind(n) == pre.has_kind(n),
{
    assert forall|x: u64|
        #![trigger post.has_kind_id(x)]
        #![trigger pre.has_kind_id(x)]
        post.has_kind_id(x) == pre.has_kind_id(x) by {
        if pre.has_kind_id(x) {
            let k = choose|i: int| 0 <= i < pre.kinds.len() && (#[trigger] pre.kinds[i]).id == x;
            assert(post.kinds[k].id == x);
        }
        if post.has_kind_id(x) {
            let k = choose|i: int| 0 <= i < post.kinds.len() && (#[trigger] post.kinds[i]).id == x;
            assert(pre.kinds[k].id == x);
        }
    }
    assert forall|n: Seq<char>|
        #![trigger post.has_kind(n)]
        #![trigger pre.has_kind(n)]
        post.has_kind(n) == pre.has_kind(n) by {
        if pre.has_kind(n) {
            let k = choose|i: int|
                0 <= i < pre.kinds.len() && (#[trigger] pre.kinds[i]).description@ == n;
            assert(post.kinds[k].description@ == n);
        }
        if post.has_kind(n) {
            let k = choose|i: int|
                0 <= i < post.kinds.len() && (#[trigger] post.kinds[i]).description@ == n;
            assert(pre.kinds[k].description@ == n);
        }
    }
}

/// A state whose user table is unchanged and whose counter has not gone
/// back keeps a well-formed user table.
pub proof fn lemma_users_wf_frame(pre: StoreView, post: StoreView)
    requires
        pre.users_wf(),
        post.users == pre.users,
        post.next_stamp >= pre.next_stamp,
    ensures
        post.users_wf(),
{
    assert forall|i: int, j: int| 0 <= i < j < post.users.len() implies (
    #[trigger] post.users[i]).id != (#[trigger] post.users[j]).id && post.users[i].login@
        != post.users[j].login@ by {
        assert(post.users[i] == pre.users[i]);
        assert(post.users[j] == pre.users[j]);
    }
    assert forall|i: int| 0 <= i < post.users.len() implies (#[trigger] post.users[i]).id
        < post.next_stamp && post.users[i].date_registration < post.next_stamp by {
        assert(post.users[i] == pre.users[i]);
    }
}

/// A state whose article and user tables are unchanged and whose counter
/// has not gone back keeps a well-formed article table.
pub proof fn lemma_articles_wf_frame(pre: StoreView, post: StoreView)
    requires
        pre.articles_wf(),
        post.articles == pre.articles,
        post.users == pre.users,
        post.next_stamp >= pre.next_stamp,
    ensures
        post.articles_wf(),
{
    lemma_same_users(pre, post);
    assert forall|i: int, j: int| 0 <= i < j < post.articles.len() implies (
    #[trigger] post.articles[i]).id != (#[trigger] post.articles[j]).id by {
        assert(post.articles[i] == pre.articles[i]);
        assert(post.articles[j] == pre.articles[j]);
    }
    assert forall|i: int| 0 <= i < post.articles.len() implies (#[trigger] post.articles[i]).id
        < post.next_stamp && post.articles[i].publish_date < post.next_stamp && post.has_user(
        post.articles[i].author_id,
    ) by {
        assert(post.articles[i] == pre.articles[i]);
    }
}

/// A state whose comment, article and user tables are unchanged and whose
/// counter has not gone back keeps a well-formed comment table.

/// A state whose follow and user tables are unchanged and whose counter
/// has not gone back keeps a well-formed follow table.
pub proof fn lemma_follows_wf_frame(pre: StoreView, post: StoreView)
    requires
        pre.follows_wf(),
        post.follows == pre.follows,
        post.users == pre.users,
        post.next_stamp >= pre.next_stamp,
    ensures
        post.follows_wf(),
{
    lemma_same_users(pre, post);
    assert forall|i: int, j: int| 0 <= i < j < post.follows.len() implies !((
    #[trigger] post.follows[i]).author_id == (#[trigger] post.follows[j]).author_id
        && post.follows[i].follower_id == post.follows[j].follower_id) by {
        assert(post.follows[i] == pre.follows[i]);
        assert(post.follows[j] == pre.follows[j]);
    }
    assert forall|i: int| 0 <= i < post.follows.len() implies (#[trigger] post.follows[i]).id
        < post.next_stamp && post.has_user(post.follows[i].author_id) && post.has_user(
        post.follows[i].follower_id,
    ) by {
        assert(post.follows[i] == pre.follows[i]);
    }
}

/// A state whose kind table is unchanged and whose counter has not gone
/// back keeps a well-formed kind table.
pub proof fn lemma_kinds_wf_frame(pre: StoreView, post: StoreView)
    requires
        pre.kinds_wf(),
        post.kinds == pre.kinds,
        post.next_stamp >= pre.next_stamp,
    ensures
        post.kinds_wf(),
{
    assert forall|i: int, j: int| 0 <= i < j < post.kinds.len() implies (
    #[trigger] post.kinds[i]).id != (#[trigger] post.kinds[j]).id && post.kinds[i].description@
        != post.kinds[j].description@ by {
        assert(post.kinds[i] == pre.kinds[i]);
        assert(post.kinds[j] == pre.kinds[j]);
    }
    assert forall|i: int| 0 <= i < post.kinds.len() implies (#[trigger] post.kinds[i]).id
        < post.next_stamp by {
        assert(post.kinds[i] == pre.kinds[i]);
    }
}

/// A state whose reaction table and every table it refers to are unchanged
/// and whose counter has not gone back keeps a well-formed reaction table.

/// Appending one edge raises the tally of exactly the author it points at.
pub proof fn lemma_count_edges_push(s: Seq<FollowRow>, x: FollowRow, author: u64)
    ensures
        count_edges(s.push(x), author) == count_edges(s, author) + if x.author_id == author {
            1nat
        } else {
            0nat
        },
{
    assert(s.push(x).drop_last() =~= s);
    assert(s.push(x).last() == x);
}

/// Edge tallies add up over concatenation.
pub proof fn lemma_count_edges_concat(a: Seq<FollowRow>, b: Seq<FollowRow>, author: u64)
    ensures
        count_edges(a + b, author) == count_edges(a, author) + count_edges(b, author),
    decreases b.len(),
{
    if b.len() == 0 {
        assert(a + b =~= a);
    } else {
        lemma_count_edges_concat(a, b.drop_last(), author);
        assert((a + b).drop_last() =~= a + b.drop_last());
        assert((a + b).last() == b.last());
    }
}

/// An edge tally never exceeds the number of edges.
/// Removing one edge lowers the tally of exactly the author it pointed at.
pub proof fn lemma_count_edges_remove(s: Seq<FollowRow>, i: int, author: u64)
    requires
        0 <= i < s.len(),
    ensures
        count_edges(s, author) == count_edges(s.remove(i), author) + if s[i].author_id == author {
            1nat
        } else {
            0nat
        },
{
    let pre = s.subrange(0, i);
    let mid = seq![s[i]];
    let suf = s.subrange(i + 1, s.len() as int);
    assert(s =~= (pre + mid) + suf);
    lemma_count_edges_concat(pre + mid, suf, author);
    lemma_count_edges_concat(pre, mid, author);
    assert(count_edges(mid, author) == if s[i].author_id == author {
        1nat
    } else {
        0nat
    }) by {
        assert(count_edges(Seq::<FollowRow>::empty(), author) == 0);
        assert(mid.drop_last() =~= Seq::<FollowRow>::empty());
        assert(mid.last() == s[i]);
    }
    lemma_count_edges_concat(pre, suf, author);
    assert(s.remove(i) == pre + suf);
}

/// Appending one reaction raises the tally of exactly its article and kind.
pub proof fn lemma_count_reactions_push(s: Seq<ReactionRow>, x: ReactionRow, article: u64, kind: u64)
    ensures
        count_reactions(s.push(x), article, kind) == count_reactions(s, article, kind)
            + if x.article_id == article && x.kind_id == kind {
            1nat
        } else {
            0nat
        },
{
    assert(s.push(x).drop_last() =~= s);
    assert(s.push(x).last() == x);
}

/// Reaction tallies add up over concatenation.
pub proof fn lemma_count_reactions_concat(
    a: Seq<ReactionRow>,
    b: Seq<ReactionRow>,
    article: u64,
    kind: u64,
)
    ensures
        count_reactions(a + b, article, kind) == count_reactions(a, article, kind)
            + count_reactions(b, article, kind),
    decreases b.len(),
{
    if b.len() == 0 {
        assert(a + b =~= a);
    } else {
        lemma_count_reactions_concat(a, b.drop_last(), article, kind);
        assert((a + b).drop_last() =~= a + b.drop_last());
        assert((a + b).last() == b.last());
    }
}

/// A reaction tally never exceeds the number of reactions.
/// Removing one reaction lowers the tally of exactly its article and kind.
pub proof fn lemma_count_reactions_remove(s: Seq<ReactionRow>, i: int, article: u64, kind: u64)
    requires
        0 <= i < s.len(),
    ensures
        count_reactions(s, article, kind) == count_reactions(s.remove(i), article, kind)
            + if s[i].article_id == article && s[i].kind_id == kind {
            1nat
        } else {
            0nat
        },
{
    let pre = s.subrange(0, i);
    let mid = seq![s[i]];
    let suf = s.subrange(i + 1, s.len() as int);
    assert(s =~= (pre + mid) + suf);
    lemma_count_reactions_concat(pre + mid, suf, article, kind);
    lemma_count_reactions_concat(pre, mid, article, kind);
    assert(count_reactions(mid, article, kind) == if s[i].article_id == article && s[i].kind_id
        == kind {
        1nat
    } else {
        0nat
    }) by {
        assert(count_reactions(Seq::<ReactionRow>::empty(), article, kind) == 0);
        assert(mid.drop_last() =~= Seq::<ReactionRow>::empty());
        assert(mid.last() == s[i]);
    }
    lemma_count_reactions_concat(pre, suf, article, kind);
    assert(s.remove(i) == pre + suf);
}

/// The relational store: the six tables and the stamp counter.
pub struct Store {
    users: Vec<FullUser>,
    articles: Vec<ArticleRow>,
    comments: Vec<CommentRow>,
    follows: Vec<FollowRow>,
    kinds: Vec<KindRow>,
    reacts: Vec<ReactionRow>,
    next_stamp: u64,
}

impl View for Store {
    type V = StoreView;

    closed spec fn view(&self) -> StoreView {
        StoreView {
            users: self.users@,
            articles: self.articles@,
            comments: self.comments@,
            follows: self.follows@,
            kinds: self.kinds@,
            reacts: self.reacts@,
            next_stamp: self.next_stamp,
        }
    }
}

impl Store {
    /// An empty store.  Stamps start at 1 so that 0 is never a valid id.
    pub fn new() -> (r: Store)
        ensures
            r@.wf(),
            r@.users.len() == 0,
            r@.articles.len() == 0,
            r@.comments.len() == 0,
            r@.follows.len() == 0,
            r@.kinds.len() == 0,
            r@.reacts.len() == 0,
            r@.next_stamp == 1,
    {
        Store {
            users: Vec::new(),
            articles: Vec::new(),
            comments: Vec::new(),
            follows: Vec::new(),
            kinds: Vec::new(),
            reacts: Vec::new(),
            next_stamp: 1,
        }
    }

    /// The index of the user row with login `login`, if any.
    fn find_user_by_login(&self, login: &str) -> (r: Option<usize>)
        ensures
            r is Some <==> self@.has_login(login@),
            r matches Some(i) ==> i < self.users.len() && self.users@[i as int].login@ == login@,
    {
        let needle = login.to_owned();
        let mut i: usize = 0;
        while i < self.users.len()
            invariant
                needle@ == login@,
                i <= self.users.len(),
                forall|j: int| 0 <= j < i ==> (#[trigger] self.users@[j]).login@ != login@,
            decreases self.users.len() - i,
        {
            if self.users[i].login == needle {
                return Some(i);
            }
            i = i + 1;
        }
        None
    }

    /// The index of the user row with id `id`, if any.
    fn find_user_by_id(&self, id: u64) -> (r: Option<usize>)
        ensures
            r is Some <==> self@.has_user(id),
            r matches Some(i) ==> i < self.users.len() && self.users@[i as int].id == id,
    {
        let mut i: usize = 0;
        while i < self.users.len()
            invariant
                i <= self.users.len(),
                forall|j: int| 0 <= j < i ==> (#[trigger] self.users@[j]).id != id,
            decreases self.users.len() - i,
        {
            if self.users[i].id == id {
                return Some(i);
            }
            i = i + 1;
        }
        None
    }

    /// Registers a new user.
    ///
    /// The login must not be taken: a duplicate is refused as a constraint
    /// violation, which collapses the look-then-insert race of a separate
    /// existence check into one atomic step.
    pub fn insert_user(&mut self, user: &RegisterUser) -> (r: Result<(), StoreError>)
        requires
            old(self)@.wf(),
        ensures
            final(self)@.wf(),
            r is Ok <==> !old(self)@.has_login(user.login@) && old(self)@.can_stamp(),
            r is Ok ==> final(self)@ == old(self)@.insert_user_t(*user),
            r is Err ==> final(self)@ == old(self)@,
            old(self)@.has_login(user.login@) ==> r == Err::<(), StoreError>(
                StoreError::ConstraintViolation,
            ),
            !old(self)@.has_login(user.login@) && !old(self)@.can_stamp() ==> r == Err::<
                (),
                StoreError,
            >(StoreError::ConnectivityFailure),
    {
        if self.find_user_by_login(user.login.as_str()).is_some() {
            return Err(StoreError::ConstraintViolation);
        }
        if self.next_stamp == u64::MAX {
            return Err(StoreError::ConnectivityFailure);
        }
        let stamp = self.next_stamp;
        let row = FullUser {
            id: stamp,
            first_name: user.first_name.clone(),
            last_name: user.last_name.clone(),
            about: clone_opt_string(&user.about),
            password: user.password.clone(),
            login: user.login.clone(),
            crop_avatar: None,
            full_avatar: None,
            date_registration: stamp,
        };
        self.users.push(row);
        self.next_stamp = stamp + 1;
        proof {
            let pre = old(self)@;
            let post = self@;
            assert(post =~= pre.insert_user_t(*user));
            lemma_same_articles(pre, post);
            lemma_same_kinds(pre, post);
            assert forall|i: int| 0 <= i < post.articles.len() implies post.has_user(
                (#[trigger] post.articles[i]).author_id,
            ) by {
                assert(pre.has_user(pre.articles[i].author_id));
                let w = pre.user_index(pre.articles[i].author_id);
                assert(post.users[w].id == pre.articles[i].author_id);
            }
            assert forall|i: int| 0 <= i < post.comments.len() implies post.has_user(
                (#[trigger] post.comments[i]).user_id,
            ) by {
                let w = pre.user_index(pre.comments[i].user_id);
                assert(post.users[w].id == pre.comments[i].user_id);
            }
            assert forall|i: int| 0 <= i < post.follows.len() implies post.has_user(
                (#[trigger] post.follows[i]).author_id,
            ) && post.has_user(post.follows[i].follower_id) by {
                let w1 = pre.user_index(pre.follows[i].author_id);
                assert(post.users[w1].id == pre.follows[i].author_id);
                let w2 = pre.user_index(pre.follows[i].follower_id);
                assert(post.users[w2].id == pre.follows[i].follower_id);
            }
            assert forall|i: int| 0 <= i < post.reacts.len() implies post.has_user(
                (#[trigger] post.reacts[i]).user_id,
            ) by {
                let w = pre.user_index(pre.reacts[i].user_id);
                assert(post.users[w].id == pre.reacts[i].user_id);
            }
            assert(post.users_wf());
            assert(post.articles_wf());
            assert(post.comments_wf());
            assert(post.follows_wf());
            assert(post.reacts_wf());
        }
        Ok(())
    }

    /// Whether a user with the given login is registered.  Absence is a
    /// normal answer, not an error.
    pub fn exist_user_by_login(&self, login: &str) -> (r: Result<bool, StoreError>)
        ensures
            r == Ok::<bool, StoreError>(self@.has_login(login@)),
    {
        Ok(self.find_user_by_login(login).is_some())
    }

    /// The profile of the user carrying both the login and the secret,
    /// compared exactly as stored.  `NotFound` when no row matches.
    pub fn get_user_by_login_and_pass(&self, login: &str, password: &str) -> (r: Result<
        User,
        StoreError,
    >)
        requires
            self@.wf(),
        ensures
            r is Ok <==> self@.has_cred(login@, password@),
            r matches Ok(u) ==> profile_of(self@.cred_user(login@, password@), u),
            r is Err ==> r == Err::<User, StoreError>(StoreError::NotFound),
    {
        let login_needle = login.to_owned();
        let password_needle = password.to_owned();
        let mut i: usize = 0;
        while i < self.users.len()
            invariant
                self@.wf(),
                login_needle@ == login@,
                password_needle@ == password@,
                i <= self.users.len(),
                forall|j: int|
                    0 <= j < i ==> !((#[trigger] self.users@[j]).login@ == login@
                        && self.users@[j].password@ == password@),
            decreases self.users.len() - i,
        {
            if self.users[i].login == login_needle && self.users[i].password == password_needle {
                proof {
                    let v = self@;
                    assert(v.has_cred(login@, password@));
                    let w = v.cred_index(login@, password@);
                    assert(0 <= w < v.users.len() && v.users[w].login@ == login@);
                    assert(v.users[w].login@ == v.users[i as int].login@);
                    assert(w == i as int) by {
                        if w < i as int {
                            assert(v.users[w].login@ != v.users[i as int].login@);
                        } else if w > i as int {
                            assert(v.users[i as int].login@ != v.users[w].login@);
                        }
                    };
                }
                return Ok(user_profile(&self.users[i]));
            }
            i = i + 1;
        }
        Err(StoreError::NotFound)
    }

    /// The profile of the user with id `id`.  `NotFound` when absent.
    pub fn get_user_info_by_id(&self, id: u64) -> (r: Result<User, StoreError>)
        requires
            self@.wf(),
        ensures
            r is Ok <==> self@.has_user(id),
            r matches Ok(u) ==> profile_of(self@.user_by_id(id), u),
            r is Err ==> r == Err::<User, StoreError>(StoreError::NotFound),
    {
        match self.find_user_by_id(id) {
            Some(i) => {
                let u = user_profile(&self.users[i]);
                proof {
                    let w = self@.user_index(id);
                    assert(self@.users[w].id == id);
                    assert(w == i as int);
                }
                Ok(u)
            },
            None => Err(StoreError::NotFound),
        }
    }

    /// Both avatars of the user with login `login`, each empty when the
    /// user has none.  `NotFound` only when no such user exists.
    pub fn get_avatar_by_login(&self, login: &str) -> (r: Result<(Vec<u8>, Vec<u8>), StoreError>)
        requires
            self@.wf(),
        ensures
            r is Ok <==> self@.has_login(login@),
            !self@.has_login(login@) ==> r == Err::<(Vec<u8>, Vec<u8>), StoreError>(
                StoreError::NotFound,
            ),
            r matches Ok(av) ==> ({
                let row = self@.user_by_login(login@);
                &&& av.0@ == match row.crop_avatar {
                    Option::Some(b) => b@,
                    Option::None => Seq::<u8>::empty(),
                }
                &&& av.1@ == match row.full_avatar {
                    Option::Some(b) => b@,
                    Option::None => Seq::<u8>::empty(),
                }
            }),
    {
        match self.find_user_by_login(login) {
            Some(i) => {
                proof {
                    let v = self@;
                    let w = v.login_index(login@);
                    assert(v.users[w].login@ == login@);
                    assert(w == i as int) by {
                        if w < i as int {
                            assert(v.users[w].login@ != v.users[i as int].login@);
                        } else if w > i as int {
                            assert(v.users[i as int].login@ != v.users[w].login@);
                        }
                    };
                }
                let crop = match &self.users[i].crop_avatar {
                    Some(b) => clone_bytes(b),
                    None => Vec::new(),
                };
                let full = match &self.users[i].full_avatar {
                    Some(b) => clone_bytes(b),
                    None => Vec::new(),
                };
                Ok((crop, full))
            },
            None => Err(StoreError::NotFound),
        }
    }

    /// Replaces both avatars of the user with login `login`.  `NotFound`
    /// when no such user exists; nothing else can fail.
    pub fn set_avatar_by_login(&mut self, login: &str, crop_avatar: &Vec<u8>, full_avatar: &Vec<
        u8,
    >) -> (r: Result<(), StoreError>)
        requires
            old(self)@.wf(),
        ensures
            final(self)@.wf(),
            r is Ok <==> old(self)@.has_login(login@),
            r is Err ==> r == Err::<(), StoreError>(StoreError::NotFound) && final(self)@ == old(
                self,
            )@,
            r is Ok ==> exists|c: Vec<u8>, f: Vec<u8>|
                c@ == crop_avatar@ && f@ == full_avatar@ && final(self)@ == old(
                    self,
                )@.set_avatar_t(login@, c, f),
    {
        match self.find_user_by_login(login) {
            None => Err(StoreError::NotFound),
            Some(i) => {
                let ghost pre = self@;
                let row = &self.users[i];
                let updated = FullUser {
                    id: row.id,
                    first_name: row.first_name.clone(),
                    last_name: row.last_name.clone(),
                    about: clone_opt_string(&row.about),
                    password: row.password.clone(),
                    login: row.login.clone(),
                    crop_avatar: Some(clone_bytes(crop_avatar)),
                    full_avatar: Some(clone_bytes(full_avatar)),
                    date_registration: row.date_registration,
                };
                let ghost c = updated.crop_avatar.unwrap();
                let ghost f = updated.full_avatar.unwrap();
                self.users.set(i, updated);
                proof {
                    let post = self@;
                    let w = pre.login_index(login@);
                    assert(pre.users[w].login@ == login@);
                    assert(w == i as int) by {
                        if w < i as int {
                            assert(pre.users[w].login@ != pre.users[i as int].login@);
                        } else if w > i as int {
                            assert(pre.users[i as int].login@ != pre.users[w].login@);
                        }
                    };
                    assert(post =~= pre.set_avatar_t(login@, c, f));
                    lemma_same_articles(pre, post);
                    lemma_same_kinds(pre, post);
                    assert forall|x: u64| pre.has_user(x) implies post.has_user(x) by {
                        let k = pre.user_index(x);
                        assert(post.users[k].id == x);
                    }
                    assert(post.users_wf()) by {
                        assert(forall|k: int|
                            0 <= k < post.users.len() ==> (#[trigger] post.users[k]).id
                                == pre.users[k].id && post.users[k].login@ == pre.users[k].login@
                                && post.users[k].date_registration
                                == pre.users[k].date_registration);
                    }
                }
                Ok(())
            },
        }
    }

    /// The index of the edge from `follower` to `author`, if any.
    fn find_edge(&self, author: u64, follower: u64) -> (r: Option<usize>)
        ensures
            r is Some <==> self@.is_following(author, follower),
            r matches Some(i) ==> i < self.follows.len() && self.follows@[i as int].author_id
                == author && self.follows@[i as int].follower_id == follower,
    {
        let mut i: usize = 0;
        while i < self.follows.len()
            invariant
                i <= self.follows.len(),
                forall|j: int|
                    0 <= j < i ==> !((#[trigger] self.follows@[j]).author_id == author
                        && self.follows@[j].follower_id == follower),
            decreases self.follows.len() - i,
        {
            if self.follows[i].author_id == author && self.follows[i].follower_id == follower {
                proof {
                    assert((#[trigger] self@.follows[i as int]).author_id == author
                        && self@.follows[i as int].follower_id == follower);
                }
                return Some(i);
            }
            i = i + 1;
        }
        None
    }

    /// Whether `follower_user_id` follows `author_user_id`.  Absence of
    /// the edge is the answer `false`, never an error.
    pub fn is_user_followed_to_user(&self, author_user_id: u64, follower_user_id: u64) -> (r:
        Result<bool, StoreError>)
        ensures
            r == Ok::<bool, StoreError>(self@.is_following(author_user_id, follower_user_id)),
    {
        Ok(self.find_edge(author_user_id, follower_user_id).is_some())
    }

    /// The number of followers of `user_id`: 0 when no edges point at it,
    /// never an error.
    pub fn get_user_count_followers(&self, user_id: u64) -> (r: Result<u64, StoreError>)
        ensures
            r matches Ok(c) && c == self@.follower_count(user_id),
    {
        let mut count: u64 = 0;
        let mut i: usize = 0;
        while i < self.follows.len()
            invariant
                i <= self.follows.len(),
                count == count_edges(self.follows@.subrange(0, i as int), user_id),
                count <= i,
            decreases self.follows.len() - i,
        {
            proof {
                assert(self.follows@.subrange(0, i as int + 1) =~= self.follows@.subrange(
                    0,
                    i as int,
                ).push(self.follows@[i as int]));
                lemma_count_edges_push(
                    self.follows@.subrange(0, i as int),
                    self.follows@[i as int],
                    user_id,
                );
            }
            if self.follows[i].author_id == user_id {
                count = count + 1;
            }
            i = i + 1;
        }
        proof {
            assert(self.follows@.subrange(0, self.follows@.len() as int) =~= self.follows@);
        }
        Ok(count)
    }

    /// Lets `follower_user_id` follow `author_user_id`.
    ///
    /// Both users must exist and the edge must not: a repeated follow for
    /// the same pair is refused as a constraint violation, which collapses
    /// the look-then-insert race of a separate `is_user_followed_to_user`
    /// check into one atomic step.
    pub fn set_following_user(&mut self, author_user_id: u64, follower_user_id: u64) -> (r: Result<
        (),
        StoreError,
    >)
        requires
            old(self)@.wf(),
        ensures
            final(self)@.wf(),
            r is Ok <==> old(self)@.has_user(author_user_id) && old(self)@.has_user(
                follower_user_id,
            ) && !old(self)@.is_following(author_user_id, follower_user_id) && old(
                self,
            )@.can_stamp(),
            r is Ok ==> final(self)@ == old(self)@.follow_t(author_user_id, follower_user_id),
            r is Err ==> final(self)@ == old(self)@,
            !old(self)@.has_user(author_user_id) || !old(self)@.has_user(follower_user_id) || old(
                self,
            )@.is_following(author_user_id, follower_user_id) ==> r == Err::<(), StoreError>(
                StoreError::ConstraintViolation,
            ),
            old(self)@.has_user(author_user_id) && old(self)@.has_user(follower_user_id) && !old(
                self,
            )@.is_following(author_user_id, follower_user_id) && !old(self)@.can_stamp() ==> r
                == Err::<(), StoreError>(StoreError::ConnectivityFailure),
    {
        if self.find_user_by_id(author_user_id).is_none() {
            return Err(StoreError::ConstraintViolation);
        }
        if self.find_user_by_id(follower_user_id).is_none() {
            return Err(StoreError::ConstraintViolation);
        }
        if self.find_edge(author_user_id, follower_user_id).is_some() {
            return Err(StoreError::ConstraintViolation);
        }
        if self.next_stamp == u64::MAX {
            return Err(StoreError::ConnectivityFailure);
        }
        let ghost pre = self@;
        let stamp = self.next_stamp;
        self.follows.push(
            FollowRow {
                id: stamp,
                author_id: author_user_id,
                follower_id: follower_user_id,
                follow_date: stamp,
            },
        );
        self.next_stamp = stamp + 1;
        proof {
            let post = self@;
            assert(post =~= pre.follow_t(author_user_id, follower_user_id));
            lemma_same_users(pre, post);
            lemma_same_articles(pre, post);
            lemma_same_kinds(pre, post);
            assert forall|i: int, j: int| 0 <= i < j < post.follows.len() implies !((
            #[trigger] post.follows[i]).author_id == (#[trigger] post.follows[j]).author_id
                && post.follows[i].follower_id == post.follows[j].follower_id) by {
                if j == post.follows.len() - 1 {
                    if post.follows[i].author_id == author_user_id && post.follows[i].follower_id
                        == follower_user_id {
                        assert(pre.is_following(author_user_id, follower_user_id));
                    }
                }
            }
        }
        Ok(())
    }

    /// Lets `follower_user_id` stop following `author_user_id`: a blind
    /// delete, a no-op when the edge did not exist.
    pub fn remove_following_user(&mut self, author_user_id: u64, follower_user_id: u64) -> (r:
        Result<(), StoreError>)
        requires
            old(self)@.wf(),
        ensures
            final(self)@.wf(),
            r is Ok,
            final(self)@ == old(self)@.unfollow_t(author_user_id, follower_user_id),
    {
        match self.find_edge(author_user_id, follower_user_id) {
            None => {
                proof {
                    assert(self@ =~= self@.unfollow_t(author_user_id, follower_user_id));
                }
                Ok(())
            },
            Some(i) => {
                let ghost pre = self@;
                self.follows.remove(i);
                proof {
                    let post = self@;
                    let w = pre.edge_index(author_user_id, follower_user_id);
                    assert(pre.is_following(author_user_id, follower_user_id));
                    assert(0 <= w < pre.follows.len() && pre.follows[w].author_id
                        == author_user_id && pre.follows[w].follower_id == follower_user_id);
                    assert(w == i as int) by {
                        if w < i as int {
                            assert(!(pre.follows[w].author_id == pre.follows[i as int].author_id
                                && pre.follows[w].follower_id == pre.follows[i as int].follower_id));
                        } else if w > i as int {
                            assert(!(pre.follows[i as int].author_id == pre.follows[w].author_id
                                && pre.follows[i as int].follower_id == pre.follows[w].follower_id));
                        }
                    };
                    assert(post =~= pre.unfollow_t(author_user_id, follower_user_id));
                    lemma_same_users(pre, post);
                    lemma_same_articles(pre, post);
                    lemma_same_kinds(pre, post);
                    assert(forall|k: int|
                        0 <= k < post.follows.len() ==> #[trigger] post.follows[k] == (if k
                            < i as int {
                            pre.follows[k]
                        } else {
                            pre.follows[k + 1]
                        }));
                    assert forall|k: int, l: int| 0 <= k < l < post.follows.len() implies !((
                    #[trigger] post.follows[k]).author_id == (#[trigger] post.follows[l]).author_id
                        && post.follows[k].follower_id == post.follows[l].follower_id) by {
                        let k0 = if k < i as int {
                            k
                        } else {
                            k + 1
                        };
                        let l0 = if l < i as int {
                            l
                        } else {
                            l + 1
                        };
                        assert(post.follows[k] == pre.follows[k0]);
                        assert(post.follows[l] == pre.follows[l0]);
                        assert(0 <= k0 < l0 < pre.follows.len());
                    }
                    assert forall|k: int| 0 <= k < post.follows.len() implies (
                    #[trigger] post.follows[k]).id < post.next_stamp && post.has_user(
                        post.follows[k].author_id,
                    ) && post.has_user(post.follows[k].follower_id) by {
                        let k0 = if k < i as int {
                            k
                        } else {
                            k + 1
                        };
                        assert(post.follows[k] == pre.follows[k0]);
                    }
                }
                Ok(())
            },
        }
    }

    /// The index of the article row with id `id`, if any.
    fn find_article_by_id(&self, id: u64) -> (r: Option<usize>)
        ensures
            r is Some <==> self@.has_article(id),
            r matches Some(i) ==> i < self.articles.len() && self.articles@[i as int].id == id,
    {
        let mut i: usize = 0;
        while i < self.articles.len()
            invariant
                i <= self.articles.len(),
                forall|j: int| 0 <= j < i ==> (#[trigger] self.articles@[j]).id != id,
            decreases self.articles.len() - i,
        {
            if self.articles[i].id == id {
                proof {
                    assert((#[trigger] self@.articles[i as int]).id == id);
                }
                return Some(i);
            }
            i = i + 1;
        }
        None
    }

    /// The index of the kind row named `name`, if any.
    fn find_kind_by_name(&self, name: &str) -> (r: Option<usize>)
        ensures
            r is Some <==> self@.has_kind(name@),
            r matches Some(i) ==> i < self.kinds.len() && self.kinds@[i as int].description@
                == name@,
    {
        let needle = name.to_owned();
        let mut i: usize = 0;
        while i < self.kinds.len()
            invariant
                needle@ == name@,
                i <= self.kinds.len(),
                forall|j: int| 0 <= j < i ==> (#[trigger] self.kinds@[j]).description@ != name@,
            decreases self.kinds.len() - i,
        {
            if self.kinds[i].description == needle {
                proof {
                    assert((#[trigger] self@.kinds[i as int]).description@ == name@);
                }
                return Some(i);
            }
            i = i + 1;
        }
        None
    }

    /// The index of the kind row with id `id`, if any.
    fn find_kind_by_id(&self, id: u64) -> (r: Option<usize>)
        ensures
            r is Some <==> self@.has_kind_id(id),
            r matches Some(i) ==> i < self.kinds.len() && self.kinds@[i as int].id == id,
    {
        let mut i: usize = 0;
        while i < self.kinds.len()
            invariant
                i <= self.kinds.len(),
                forall|j: int| 0 <= j < i ==> (#[trigger] self.kinds@[j]).id != id,
            decreases self.kinds.len() - i,
        {
            if self.kinds[i].id == id {
                proof {
                    assert((#[trigger] self@.kinds[i as int]).id == id);
                }
                return Some(i);
            }
            i = i + 1;
        }
        None
    }

    /// The index of the reaction of `user` to `article`, if any.
    fn find_reaction(&self, user: u64, article: u64) -> (r: Option<usize>)
        ensures
            r is Some <==> self@.has_reaction(user, article),
            r matches Some(i) ==> i < self.reacts.len() && self.reacts@[i as int].user_id == user
                && self.reacts@[i as int].article_id == article,
    {
        let mut i: usize = 0;
        while i < self.reacts.len()
            invariant
                i <= self.reacts.len(),
                forall|j: int|
                    0 <= j < i ==> !((#[trigger] self.reacts@[j]).user_id == user
                        && self.reacts@[j].article_id == article),
            decreases self.reacts.len() - i,
        {
            if self.reacts[i].user_id == user && self.reacts[i].article_id == article {
                proof {
                    assert((#[trigger] self@.reacts[i as int]).user_id == user
                        && self@.reacts[i as int].article_id == article);
                }
                return Some(i);
            }
            i = i + 1;
        }
        None
    }

    /// Appends one kind row named `name` with a fresh stamp.
    fn seed_kind(&mut self, name: &str)
        requires
            old(self)@.wf(),
            !old(self)@.has_kind(name@),
            old(self)@.can_stamp(),
        ensures
            final(self)@.wf(),
            final(self)@.users == old(self)@.users,
            final(self)@.articles == old(self)@.articles,
            final(self)@.comments == old(self)@.comments,
            final(self)@.follows == old(self)@.follows,
            final(self)@.reacts == old(self)@.reacts,
            final(self)@.kinds.len() == old(self)@.kinds.len() + 1,
            forall|i: int|
                0 <= i < old(self)@.kinds.len() ==> #[trigger] final(self)@.kinds[i] == old(
                    self,
                )@.kinds[i],
            final(self)@.kinds.last().description@ == name@,
            final(self)@.kinds.last().id == old(self)@.next_stamp,
            final(self)@.next_stamp == old(self)@.next_stamp + 1,
            final(self)@.has_kind(name@),
    {
        let stamp = self.next_stamp;
        self.kinds.push(KindRow { id: stamp, description: name.to_owned() });
        self.next_stamp = stamp + 1;
        proof {
            let pre = old(self)@;
            let post = self@;
            lemma_same_users(pre, post);
            lemma_same_articles(pre, post);
            assert(post.kinds.last().description@ == name@);
            assert(post.has_kind(name@)) by {
                assert((#[trigger] post.kinds[post.kinds.len() - 1]).description@ == name@);
            };
            assert(post.kinds_wf()) by {
                assert forall|i: int, j: int| 0 <= i < j < post.kinds.len() implies (
                #[trigger] post.kinds[i]).id != (#[trigger] post.kinds[j]).id
                    && post.kinds[i].description@ != post.kinds[j].description@ by {
                    if j == post.kinds.len() - 1 {
                        assert(post.kinds[i] == pre.kinds[i]);
                        if post.kinds[i].description@ == name@ {
                            assert(pre.has_kind(name@));
                        }
                    }
                }
            };
            assert forall|k: int| 0 <= k < post.reacts.len() implies (
            #[trigger] post.reacts[k]).id < post.next_stamp && post.has_user(
                post.reacts[k].user_id,
            ) && post.has_article(post.reacts[k].article_id) && post.has_kind_id(
                post.reacts[k].kind_id,
            ) by {
                assert(post.reacts[k] == pre.reacts[k]);
                assert(pre.has_kind_id(pre.reacts[k].kind_id));
                let w = choose|j: int|
                    0 <= j < pre.kinds.len() && (#[trigger] pre.kinds[j]).id
                        == pre.reacts[k].kind_id;
                assert(post.kinds[w].id == post.reacts[k].kind_id);
            }
            assert forall|i: int, j: int| 0 <= i < j < post.articles.len() implies (
            #[trigger] post.articles[i]).id != (#[trigger] post.articles[j]).id by {
                assert(post.articles[i] == pre.articles[i]);
                assert(post.articles[j] == pre.articles[j]);
            }
            assert forall|i: int| 0 <= i < post.articles.len() implies (
            #[trigger] post.articles[i]).id < post.next_stamp && post.articles[i].publish_date
                < post.next_stamp && post.has_user(post.articles[i].author_id) by {
                assert(post.articles[i] == pre.articles[i]);
            }
            assert forall|i: int, j: int| 0 <= i < j < post.comments.len() implies (
            #[trigger] post.comments[i]).publish_date < (
            #[trigger] post.comments[j]).publish_date by {
                assert(post.comments[i] == pre.comments[i]);
                assert(post.comments[j] == pre.comments[j]);
            }
            assert forall|i: int| 0 <= i < post.comments.len() implies (
            #[trigger] post.comments[i]).id < post.next_stamp && post.comments[i].publish_date
                < post.next_stamp && post.has_user(post.comments[i].user_id) && post.has_article(
                post.comments[i].article_id,
            ) by {
                assert(post.comments[i] == pre.comments[i]);
            }
            assert forall|i: int, j: int| 0 <= i < j < post.follows.len() implies !((
            #[trigger] post.follows[i]).author_id == (#[trigger] post.follows[j]).author_id
                && post.follows[i].follower_id == post.follows[j].follower_id) by {
                assert(post.follows[i] == pre.follows[i]);
                assert(post.follows[j] == pre.follows[j]);
            }
            assert forall|i: int| 0 <= i < post.follows.len() implies (
            #[trigger] post.follows[i]).id < post.next_stamp && post.has_user(
                post.follows[i].author_id,
            ) && post.has_user(post.follows[i].follower_id) by {
                assert(post.follows[i] == pre.follows[i]);
            }
            assert forall|i: int, j: int| 0 <= i < j < post.reacts.len() implies !((
            #[trigger] post.reacts[i]).user_id == (#[trigger] post.reacts[j]).user_id
                && post.reacts[i].article_id == post.reacts[j].article_id) by {
                assert(post.reacts[i] == pre.reacts[i]);
                assert(post.reacts[j] == pre.reacts[j]);
            }
            assert(post.users_wf());
            assert(post.articles_wf());
            assert(post.comments_wf());
            assert(post.follows_wf());
            assert(post.reacts_wf());
            assert(post.wf());
        }
    }

    /// Applies the idempotent schema bootstrap: seeds the two reaction
    /// kinds unless they are already present.  Repeated runs are no-ops.
    /// Must run before reactions are inserted, since kind names can only
    /// resolve against the seeded rows.
    pub fn create_tables(&mut self) -> (r: Result<(), StoreError>)
        requires
            old(self)@.wf(),
        ensures
            final(self)@.wf(),
            r is Ok <==> old(self)@.seeded() || old(self)@.next_stamp <= u64::MAX - 2,
            r is Err ==> final(self)@ == old(self)@ && r == Err::<(), StoreError>(
                StoreError::ConnectivityFailure,
            ),
            r is Ok ==> seeded_from(old(self)@, final(self)@),
    {
        let ghost pre = self@;
        let like_missing = self.find_kind_by_name("like").is_none();
        let dislike_missing = self.find_kind_by_name("dislike").is_none();
        if !like_missing && !dislike_missing {
            proof {
                assert(seeded_from(pre, self@));
            }
            return Ok(());
        }
        if self.next_stamp > u64::MAX - 2 {
            return Err(StoreError::ConnectivityFailure);
        }
        if like_missing {
            self.seed_kind("like");
        }
        let ghost mid = self@;
        proof {
            assert(mid.has_kind(like_name())) by {
                if !like_missing {
                    let k = choose|j: int|
                        0 <= j < pre.kinds.len() && (#[trigger] pre.kinds[j]).description@
                            == like_name();
                    assert(mid.kinds[k].description@ == like_name());
                }
            };
            if dislike_missing {
                assert(!mid.has_kind(dislike_name())) by {
                    lemma_kind_names_differ();
                    if mid.has_kind(dislike_name()) {
                        let k = choose|j: int|
                            0 <= j < mid.kinds.len() && (#[trigger] mid.kinds[j]).description@
                                == dislike_name();
                        if k < pre.kinds.len() {
                            assert(pre.kinds[k].description@ == dislike_name());
                            assert(pre.has_kind(dislike_name()));
                        } else {
                            assert(mid.kinds[k].description@ == like_name());
                        }
                    }
                };
            } else {
                assert(mid.has_kind(dislike_name())) by {
                    let k = choose|j: int|
                        0 <= j < pre.kinds.len() && (#[trigger] pre.kinds[j]).description@
                            == dislike_name();
                    assert(mid.kinds[k].description@ == dislike_name());
                };
            }
        }
        if dislike_missing {
            self.seed_kind("dislike");
        }
        proof {
            let post = self@;
            assert(post.has_kind(like_name())) by {
                let k = choose|j: int|
                    0 <= j < mid.kinds.len() && (#[trigger] mid.kinds[j]).description@
                        == like_name();
                assert(post.kinds[k].description@ == like_name());
            };
            assert(post.has_kind(dislike_name())) by {
                if !dislike_missing {
                    let k = choose|j: int|
                        0 <= j < mid.kinds.len() && (#[trigger] mid.kinds[j]).description@
                            == dislike_name();
                    assert(post.kinds[k].description@ == dislike_name());
                }
            };
            assert forall|i: int| 0 <= i < pre.kinds.len() implies #[trigger] post.kinds[i]
                == pre.kinds[i] by {
                assert(mid.kinds[i] == pre.kinds[i]);
            }
            assert forall|i: int| pre.kinds.len() <= i < post.kinds.len() implies ((
            #[trigger] post.kinds[i]).description@ == like_name() || post.kinds[i].description@
                == dislike_name()) by {
                if dislike_missing && i == post.kinds.len() - 1 {
                    assert(post.kinds[i].description@ == dislike_name());
                } else {
                    assert(post.kinds[i] == mid.kinds[i]);
                    assert(i == mid.kinds.len() - 1);
                    assert(mid.kinds[i].description@ == like_name());
                }
            }
            assert(seeded_from(pre, post));
        }
        Ok(())
    }

    /// Whether `user_id` has reacted to `article_id`.  Absence is the
    /// answer `false`, never an error.
    pub fn exists_reaction_for_article(&self, reaction: &InsertReaction) -> (r: Result<
        bool,
        StoreError,
    >)
        ensures
            r == Ok::<bool, StoreError>(self@.has_reaction(reaction.user_id, reaction.article_id)),
    {
        Ok(self.find_reaction(reaction.user_id, reaction.article_id).is_some())
    }

    /// Records a reaction, resolving the kind by its name against the
    /// seeded rows.
    ///
    /// The kind must resolve, both referenced rows must exist and the pair
    /// must not have reacted yet: a second reaction for the same pair is
    /// refused as a constraint violation, which collapses the
    /// look-then-insert race of a separate existence check into one atomic
    /// step.
    pub fn insert_reaction_for_article(&mut self, reaction: &InsertReaction) -> (r: Result<
        (),
        StoreError,
    >)
        requires
            old(self)@.wf(),
        ensures
            final(self)@.wf(),
            r is Ok <==> old(self)@.has_kind(reaction.reaction@) && old(self)@.has_user(
                reaction.user_id,
            ) && old(self)@.has_article(reaction.article_id) && !old(self)@.has_reaction(
                reaction.user_id,
                reaction.article_id,
            ) && old(self)@.can_stamp(),
            r is Ok ==> final(self)@ == old(self)@.react_t(
                reaction.user_id,
                reaction.article_id,
                old(self)@.kind_id_of(reaction.reaction@),
            ),
            r is Err ==> final(self)@ == old(self)@,
            !old(self)@.has_kind(reaction.reaction@) || !old(self)@.has_user(reaction.user_id)
                || !old(self)@.has_article(reaction.article_id) || old(self)@.has_reaction(
                reaction.user_id,
                reaction.article_id,
            ) ==> r == Err::<(), StoreError>(StoreError::ConstraintViolation),
            old(self)@.has_kind(reaction.reaction@) && old(self)@.has_user(reaction.user_id) && old(
                self,
            )@.has_article(reaction.article_id) && !old(self)@.has_reaction(
                reaction.user_id,
                reaction.article_id,
            ) && !old(self)@.can_stamp() ==> r == Err::<(), StoreError>(
                StoreError::ConnectivityFailure,
            ),
    {
        let kind_at = match self.find_kind_by_name(reaction.reaction.as_str()) {
            Some(k) => k,
            None => {
                return Err(StoreError::ConstraintViolation);
            },
        };
        if self.find_user_by_id(reaction.user_id).is_none() {
            return Err(StoreError::ConstraintViolation);
        }
        if self.find_article_by_id(reaction.article_id).is_none() {
            return Err(StoreError::ConstraintViolation);
        }
        if self.find_reaction(reaction.user_id, reaction.article_id).is_some() {
            return Err(StoreError::ConstraintViolation);
        }
        if self.next_stamp == u64::MAX {
            return Err(StoreError::ConnectivityFailure);
        }
        let ghost pre = self@;
        let kind_id = self.kinds[kind_at].id;
        let stamp = self.next_stamp;
        self.reacts.push(
            ReactionRow {
                id: stamp,
                user_id: reaction.user_id,
                article_id: reaction.article_id,
                kind_id,
                date: stamp,
            },
        );
        self.next_stamp = stamp + 1;
        proof {
            let post = self@;
            assert(kind_id == pre.kind_id_of(reaction.reaction@)) by {
                let w = choose|j: int|
                    0 <= j < pre.kinds.len() && (#[trigger] pre.kinds[j]).description@
                        == reaction.reaction@;
                assert(pre.has_kind(reaction.reaction@));
                assert(pre.kinds[w].description@ == pre.kinds[kind_at as int].description@);
                assert(w == kind_at as int) by {
                    if w < kind_at as int {
                        assert(pre.kinds[w].description@ != pre.kinds[kind_at as int].description@);
                    } else if w > kind_at as int {
                        assert(pre.kinds[kind_at as int].description@ != pre.kinds[w].description@);
                    }
                };
            };
            assert(post =~= pre.react_t(
                reaction.user_id,
                reaction.article_id,
                pre.kind_id_of(reaction.reaction@),
            ));
            lemma_same_users(pre, post);
            lemma_same_articles(pre, post);
            lemma_same_kinds(pre, post);
            assert(pre.has_kind_id(kind_id)) by {
                assert((#[trigger] pre.kinds[kind_at as int]).id == kind_id);
            };
            assert forall|i: int, j: int| 0 <= i < j < post.reacts.len() implies !((
            #[trigger] post.reacts[i]).user_id == (#[trigger] post.reacts[j]).user_id
                && post.reacts[i].article_id == post.reacts[j].article_id) by {
                if j == post.reacts.len() - 1 {
                    if post.reacts[i].user_id == reaction.user_id && post.reacts[i].article_id
                        == reaction.article_id {
                        assert(pre.has_reaction(reaction.user_id, reaction.article_id));
                    }
                }
            }
            assert(post.wf());
        }
        Ok(())
    }

    /// Withdraws the reaction of `user_id` to `article_id`, whatever its
    /// kind: a blind delete, a no-op when there was none.
    pub fn remove_reaction_for_article(&mut self, reaction: &InsertReaction) -> (r: Result<
        (),
        StoreError,
    >)
        requires
            old(self)@.wf(),
        ensures
            final(self)@.wf(),
            r is Ok,
            final(self)@ == old(self)@.drop_reaction_t(reaction.user_id, reaction.article_id),
    {
        let user = reaction.user_id;
        let article = reaction.article_id;
        match self.find_reaction(user, article) {
            None => {
                proof {
                    assert(self@ =~= self@.drop_reaction_t(user, article));
                }
                Ok(())
            },
            Some(i) => {
                let ghost pre = self@;
                self.reacts.remove(i);
                proof {
                    let post = self@;
                    let w = pre.reaction_index(user, article);
                    assert(pre.has_reaction(user, article));
                    assert(0 <= w < pre.reacts.len() && pre.reacts[w].user_id == user
                        && pre.reacts[w].article_id == article);
                    assert(w == i as int) by {
                        if w < i as int {
                            assert(!(pre.reacts[w].user_id == pre.reacts[i as int].user_id
                                && pre.reacts[w].article_id == pre.reacts[i as int].article_id));
                        } else if w > i as int {
                            assert(!(pre.reacts[i as int].user_id == pre.reacts[w].user_id
                                && pre.reacts[i as int].article_id == pre.reacts[w].article_id));
                        }
                    };
                    assert(post =~= pre.drop_reaction_t(user, article));
                    lemma_same_users(pre, post);
                    lemma_same_articles(pre, post);
                    lemma_same_kinds(pre, post);
                    assert(forall|k: int|
                        0 <= k < post.reacts.len() ==> #[trigger] post.reacts[k] == (if k < i as int {
                            pre.reacts[k]
                        } else {
                            pre.reacts[k + 1]
                        }));
                    assert forall|k: int, l: int| 0 <= k < l < post.reacts.len() implies !((
                    #[trigger] post.reacts[k]).user_id == (#[trigger] post.reacts[l]).user_id
                        && post.reacts[k].article_id == post.reacts[l].article_id) by {
                        let k0 = if k < i as int {
                            k
                        } else {
                            k + 1
                        };
                        let l0 = if l < i as int {
                            l
                        } else {
                            l + 1
                        };
                        assert(post.reacts[k] == pre.reacts[k0]);
                        assert(post.reacts[l] == pre.reacts[l0]);
                        assert(0 <= k0 < l0 < pre.reacts.len());
                    }
                    assert forall|k: int| 0 <= k < post.reacts.len() implies (
                    #[trigger] post.reacts[k]).id < post.next_stamp && post.has_user(
                        post.reacts[k].user_id,
                    ) && post.has_article(post.reacts[k].article_id) && post.has_kind_id(
                        post.reacts[k].kind_id,
                    ) by {
                        let k0 = if k < i as int {
                            k
                        } else {
                            k + 1
                        };
                        assert(post.reacts[k] == pre.reacts[k0]);
                    }
                    assert(post.wf());
                }
                Ok(())
            },
        }
    }

    /// The name of the reaction of `user_id` to `article_id`: absence is
    /// the answer `None`, never an error.
    pub fn get_reaction_for_article_by_user(&self, user_id: u64, article_id: u64) -> (r: Result<
        Option<String>,
        StoreError,
    >)
        requires
            self@.wf(),
        ensures
            r matches Ok(o) && (match o {
                Option::Some(name) => self@.reaction_of(user_id, article_id) == Option::Some(
                    name@,
                ),
                Option::None => self@.reaction_of(user_id, article_id) is None,
            }),
    {
        match self.find_reaction(user_id, article_id) {
            None => Ok(None),
            Some(i) => {
                let kind_id = self.reacts[i].kind_id;
                proof {
                    let v = self@;
                    let w = v.reaction_index(user_id, article_id);
                    assert(v.has_reaction(user_id, article_id));
                    assert(0 <= w < v.reacts.len() && v.reacts[w].user_id == user_id
                        && v.reacts[w].article_id == article_id);
                    assert(w == i as int) by {
                        if w < i as int {
                            assert(!(v.reacts[w].user_id == v.reacts[i as int].user_id
                                && v.reacts[w].article_id == v.reacts[i as int].article_id));
                        } else if w > i as int {
                            assert(!(v.reacts[i as int].user_id == v.reacts[w].user_id
                                && v.reacts[i as int].article_id == v.reacts[w].article_id));
                        }
                    };
                    assert(v.has_kind_id(kind_id)) by {
                        assert((#[trigger] v.reacts[i as int]).kind_id == kind_id);
                    };
                }
                match self.find_kind_by_id(kind_id) {
                    Some(k) => {
                        proof {
                            let v = self@;
                            let kw = choose|j: int|
                                0 <= j < v.kinds.len() && (#[trigger] v.kinds[j]).id == kind_id;
                            assert(v.kinds[kw].id == v.kinds[k as int].id);
                            assert(kw == k as int) by {
                                if kw < k as int {
                                    assert(v.kinds[kw].id != v.kinds[k as int].id);
                                } else if kw > k as int {
                                    assert(v.kinds[k as int].id != v.kinds[kw].id);
                                }
                            };
                        }
                        Ok(Some(self.kinds[k].description.clone()))
                    },
                    None => {
                        proof {
                            assert(false);
                        }
                        Ok(None)
                    },
                }
            },
        }
    }

    /// The like and dislike tallies of `article_id`, in that order.  An
    /// article nothing reacted to tallies (0, 0); absence is never an
    /// error.
    pub fn get_reactions_from_article(&self, article_id: u64) -> (r: Result<(u64, u64), StoreError>)
        requires
            self@.wf(),
        ensures
            r matches Ok(c) && c.0 == self@.likes_of(article_id) && c.1 == self@.dislikes_of(
                article_id,
            ),
    {
        let likes = self.count_reactions_of_kind(article_id, "like");
        let dislikes = self.count_reactions_of_kind(article_id, "dislike");
        Ok((likes, dislikes))
    }

    /// Tallies the reactions to `article_id` whose kind is named `name`:
    /// 0 when the kind is not seeded.
    fn count_reactions_of_kind(&self, article_id: u64, name: &str) -> (r: u64)
        requires
            self@.wf(),
        ensures
            self@.has_kind(name@) ==> r == count_reactions(
                self@.reacts,
                article_id,
                self@.kind_id_of(name@),
            ),
            !self@.has_kind(name@) ==> r == 0,
    {
        let kind_at = match self.find_kind_by_name(name) {
            Some(k) => k,
            None => {
                return 0;
            },
        };
        let kind_id = self.kinds[kind_at].id;
        proof {
            let v = self@;
            let w = choose|j: int|
                0 <= j < v.kinds.len() && (#[trigger] v.kinds[j]).description@ == name@;
            assert(v.kinds[w].description@ == v.kinds[kind_at as int].description@);
            assert(w == kind_at as int) by {
                if w < kind_at as int {
                    assert(v.kinds[w].description@ != v.kinds[kind_at as int].description@);
                } else if w > kind_at as int {
                    assert(v.kinds[kind_at as int].description@ != v.kinds[w].description@);
                }
            };
            assert(kind_id == v.kind_id_of(name@));
        }
        let mut count: u64 = 0;
        let mut i: usize = 0;
        while i < self.reacts.len()
            invariant
                i <= self.reacts.len(),
                count == count_reactions(self.reacts@.subrange(0, i as int), article_id, kind_id),
                count <= i,
            decreases self.reacts.len() - i,
        {
            proof {
                assert(self.reacts@.subrange(0, i as int + 1) =~= self.reacts@.subrange(
                    0,
                    i as int,
                ).push(self.reacts@[i as int]));
                lemma_count_reactions_push(
                    self.reacts@.subrange(0, i as int),
                    self.reacts@[i as int],
                    article_id,
                    kind_id,
                );
            }
            if self.reacts[i].article_id == article_id && self.reacts[i].kind_id == kind_id {
                count = count + 1;
            }
            i = i + 1;
        }
        proof {
            assert(self.reacts@.subrange(0, self.reacts@.len() as int) =~= self.reacts@);
        }
        count
    }

    /// Builds the enriched form of the article row at index `i`.
    fn enrich_article(&self, i: usize) -> (a: Article)
        requires
            self@.wf(),
            i < self@.articles.len(),
        ensures
            self@.enriched_article(self@.articles[i as int], a),
    {
        proof {
            assert(self@.has_user((#[trigger] self@.articles[i as int]).author_id));
        }
        let author_at = match self.find_user_by_id(self.articles[i].author_id) {
            Some(k) => k,
            None => unreached(),
        };
        let author = user_profile(&self.users[author_at]);
        proof {
            let v = self@;
            let w = v.user_index(v.articles[i as int].author_id);
            assert(v.users[w].id == v.users[author_at as int].id);
            assert(w == author_at as int) by {
                if w < author_at as int {
                    assert(v.users[w].id != v.users[author_at as int].id);
                } else if w > author_at as int {
                    assert(v.users[author_at as int].id != v.users[w].id);
                }
            };
        }
        let row = &self.articles[i];
        let likes = self.count_reactions_of_kind(row.id, "like");
        let dislikes = self.count_reactions_of_kind(row.id, "dislike");
        Article {
            id: row.id,
            author,
            image: clone_bytes(&row.image),
            title: row.title.clone(),
            crop_description: crop_description(row.description.as_str()),
            full_description: row.description.clone(),
            publish_date: row.publish_date,
            likes,
            dislikes,
        }
    }

    /// Publishes an article.  The image arrives as base64 text and is
    /// decoded to raw bytes before storage; a payload that does not decode
    /// is the caller's error and never reaches the store.  The author must
    /// exist.
    pub fn insert_article(&mut self, article: &InsertArticle) -> (r: Result<(), StoreError>)
        requires
            old(self)@.wf(),
        ensures
            final(self)@.wf(),
            r is Ok <==> is_b64(article.image@) && old(self)@.has_user(article.author_id) && old(
                self,
            )@.can_stamp(),
            r is Ok ==> exists|d: Vec<u8>|
                article.image@ == b64_of(d@) && final(self)@ == old(self)@.insert_article_t(
                    article.author_id,
                    d,
                    article.title,
                    article.description,
                ),
            r is Ok ==> forall|b: Seq<u8>|
                article.image@ == b64_of(b) ==> final(self)@.article_by_id(
                    old(self)@.next_stamp,
                ).image@ == b,
            r is Err ==> final(self)@ == old(self)@,
            !is_b64(article.image@) ==> r == Err::<(), StoreError>(StoreError::MalformedInput),
            is_b64(article.image@) && !old(self)@.has_user(article.author_id) ==> r == Err::<
                (),
                StoreError,
            >(StoreError::ConstraintViolation),
            is_b64(article.image@) && old(self)@.has_user(article.author_id) && !old(
                self,
            )@.can_stamp() ==> r == Err::<(), StoreError>(StoreError::ConnectivityFailure),
    {
        let image = match decode_base64(article.image.as_str()) {
            Some(d) => d,
            None => {
                proof {
                    assert(!is_b64(article.image@)) by {
                        if is_b64(article.image@) {
                            let b = choose|b: Seq<u8>| article.image@ == b64_of(b);
                            assert(article.image@ == b64_of(b));
                        }
                    };
                }
                return Err(StoreError::MalformedInput);
            },
        };
        proof {
            assert(is_b64(article.image@)) by {
                assert(article.image@ == b64_of(image@));
            };
        }
        if self.find_user_by_id(article.author_id).is_none() {
            return Err(StoreError::ConstraintViolation);
        }
        if self.next_stamp == u64::MAX {
            return Err(StoreError::ConnectivityFailure);
        }
        let ghost pre = self@;
        let ghost decoded = image;
        let stamp = self.next_stamp;
        self.articles.push(
            ArticleRow {
                id: stamp,
                author_id: article.author_id,
                image,
                title: article.title.clone(),
                description: article.description.clone(),
                publish_date: stamp,
            },
        );
        self.next_stamp = stamp + 1;
        proof {
            let post = self@;
            assert(post =~= pre.insert_article_t(
                article.author_id,
                decoded,
                article.title,
                article.description,
            ));
            lemma_same_users(pre, post);
            lemma_same_kinds(pre, post);
            lemma_users_wf_frame(pre, post);
            lemma_follows_wf_frame(pre, post);
            lemma_kinds_wf_frame(pre, post);
            assert forall|i: int, j: int| 0 <= i < j < post.articles.len() implies (
            #[trigger] post.articles[i]).id != (#[trigger] post.articles[j]).id by {
                if j < post.articles.len() - 1 {
                    assert(post.articles[i] == pre.articles[i]);
                    assert(post.articles[j] == pre.articles[j]);
                } else {
                    assert(post.articles[i] == pre.articles[i]);
                }
            }
            assert forall|i: int| 0 <= i < post.articles.len() implies (
            #[trigger] post.articles[i]).id < post.next_stamp && post.articles[i].publish_date
                < post.next_stamp && post.has_user(post.articles[i].author_id) by {
                if i < post.articles.len() - 1 {
                    assert(post.articles[i] == pre.articles[i]);
                }
            }
            assert forall|i: int| 0 <= i < post.comments.len() implies (
            #[trigger] post.comments[i]).id < post.next_stamp && post.comments[i].publish_date
                < post.next_stamp && post.has_user(post.comments[i].user_id) && post.has_article(
                post.comments[i].article_id,
            ) by {
                assert(post.comments[i] == pre.comments[i]);
                assert(pre.has_article(pre.comments[i].article_id));
                let w = pre.article_index(pre.comments[i].article_id);
                assert(post.articles[w].id == post.comments[i].article_id);
            }
            assert forall|i: int, j: int| 0 <= i < j < post.comments.len() implies (
            #[trigger] post.comments[i]).publish_date < (
            #[trigger] post.comments[j]).publish_date by {
                assert(post.comments[i] == pre.comments[i]);
                assert(post.comments[j] == pre.comments[j]);
            }
            assert forall|i: int, j: int| 0 <= i < j < post.reacts.len() implies !((
            #[trigger] post.reacts[i]).user_id == (#[trigger] post.reacts[j]).user_id
                && post.reacts[i].article_id == post.reacts[j].article_id) by {
                assert(post.reacts[i] == pre.reacts[i]);
                assert(post.reacts[j] == pre.reacts[j]);
            }
            assert forall|i: int| 0 <= i < post.reacts.len() implies (
            #[trigger] post.reacts[i]).id < post.next_stamp && post.has_user(
                post.reacts[i].user_id,
            ) && post.has_article(post.reacts[i].article_id) && post.has_kind_id(
                post.reacts[i].kind_id,
            ) by {
                assert(post.reacts[i] == pre.reacts[i]);
                assert(pre.has_article(pre.reacts[i].article_id));
                let w = pre.article_index(pre.reacts[i].article_id);
                assert(post.articles[w].id == post.reacts[i].article_id);
            }
            assert(post.wf());
            assert forall|b: Seq<u8>| article.image@ == b64_of(b) implies post.article_by_id(
                pre.next_stamp,
            ).image@ == b by {
                assert(decoded@ == b);
                assert((#[trigger] post.articles[post.articles.len() - 1]).id == pre.next_stamp);
                assert(post.has_article(pre.next_stamp));
                let w = post.article_index(pre.next_stamp);
                assert(post.articles[w].id == pre.next_stamp);
                assert(w == post.articles.len() - 1) by {
                    if w < post.articles.len() - 1 {
                        assert(post.articles[w] == pre.articles[w]);
                        assert(pre.articles[w].id < pre.next_stamp);
                    }
                };
            }
        }
        Ok(())
    }

    /// Every article, in insertion order, enriched with its author's
    /// profile and its reaction tallies.  Never an error.
    pub fn get_articles(&self) -> (r: Result<Vec<Article>, StoreError>)
        requires
            self@.wf(),
        ensures
            r matches Ok(v) && v@.len() == self@.articles.len() && forall|k: int|
                0 <= k < v@.len() ==> self@.enriched_article(self@.articles[k], #[trigger] v@[k]),
    {
        let mut out: Vec<Article> = Vec::new();
        let mut i: usize = 0;
        while i < self.articles.len()
            invariant
                self@.wf(),
                i <= self.articles.len(),
                out@.len() == i,
                forall|k: int|
                    0 <= k < i ==> self@.enriched_article(self@.articles[k], #[trigger] out@[k]),
            decreases self.articles.len() - i,
        {
            let a = self.enrich_article(i);
            out.push(a);
            i = i + 1;
        }
        Ok(out)
    }

    /// The articles of one author, in insertion order, enriched like
    /// [`Store::get_articles`].  Never an error; an unknown author simply
    /// has none.
    pub fn get_articles_from_user(&self, user_id: u64) -> (r: Result<Vec<Article>, StoreError>)
        requires
            self@.wf(),
        ensures
            r matches Ok(v) && ({
                let rows = self@.articles.filter(|row: ArticleRow| row.author_id == user_id);
                &&& v@.len() == rows.len()
                &&& forall|k: int|
                    0 <= k < rows.len() ==> self@.enriched_article(rows[k], #[trigger] v@[k])
            }),
    {
        let mut out: Vec<Article> = Vec::new();
        let mut i: usize = 0;
        while i < self.articles.len()
            invariant
                self@.wf(),
                i <= self.articles.len(),
                out@.len() == self@.articles.subrange(0, i as int).filter(
                    |row: ArticleRow| row.author_id == user_id,
                ).len(),
                forall|k: int|
                    0 <= k < out@.len() ==> self@.enriched_article(
                        self@.articles.subrange(0, i as int).filter(
                            |row: ArticleRow| row.author_id == user_id,
                        )[k],
                        #[trigger] out@[k],
                    ),
            decreases self.articles.len() - i,
        {
            proof {
                assert(self@.articles.subrange(0, i as int + 1) =~= self@.articles.subrange(
                    0,
                    i as int,
                ).push(self@.articles[i as int]));
                lemma_filter_push(
                    self@.articles.subrange(0, i as int),
                    |row: ArticleRow| row.author_id == user_id,
                    self@.articles[i as int],
                );
            }
            if self.articles[i].author_id == user_id {
                let a = self.enrich_article(i);
                out.push(a);
            }
            i = i + 1;
        }
        proof {
            assert(self@.articles.subrange(0, self@.articles.len() as int) =~= self@.articles);
        }
        Ok(out)
    }

    /// One article, enriched like [`Store::get_articles`].  `NotFound`
    /// when absent.
    pub fn get_article_info(&self, article_id: u64) -> (r: Result<Article, StoreError>)
        requires
            self@.wf(),
        ensures
            r is Ok <==> self@.has_article(article_id),
            r matches Ok(a) ==> self@.enriched_article(self@.article_by_id(article_id), a),
            r is Err ==> r == Err::<Article, StoreError>(StoreError::NotFound),
    {
        match self.find_article_by_id(article_id) {
            None => Err(StoreError::NotFound),
            Some(i) => {
                proof {
                    let v = self@;
                    let w = v.article_index(article_id);
                    assert(v.articles[w].id == v.articles[i as int].id);
                    assert(w == i as int) by {
                        if w < i as int {
                            assert(v.articles[w].id != v.articles[i as int].id);
                        } else if w > i as int {
                            assert(v.articles[i as int].id != v.articles[w].id);
                        }
                    };
                }
                Ok(self.enrich_article(i))
            },
        }
    }

    /// Whether the article exists and `user_id` authored it.  Absence of
    /// either is the answer `false`, never an error.
    pub fn is_user_author_article(&self, user_id: u64, article_id: u64) -> (r: Result<
        bool,
        StoreError,
    >)
        requires
            self@.wf(),
        ensures
            r == Ok::<bool, StoreError>(self@.authored(user_id, article_id)),
    {
        match self.find_article_by_id(article_id) {
            None => Ok(false),
            Some(i) => {
                proof {
                    let v = self@;
                    let w = v.article_index(article_id);
                    assert(v.articles[w].id == v.articles[i as int].id);
                    assert(w == i as int) by {
                        if w < i as int {
                            assert(v.articles[w].id != v.articles[i as int].id);
                        } else if w > i as int {
                            assert(v.articles[i as int].id != v.articles[w].id);
                        }
                    };
                }
                Ok(self.articles[i].author_id == user_id)
            },
        }
    }

    /// Drops every comment and reaction that belongs to `article_id`.
    fn drop_dependents(&mut self, article_id: u64)
        ensures
            final(self)@.users == old(self)@.users,
            final(self)@.articles == old(self)@.articles,
            final(self)@.follows == old(self)@.follows,
            final(self)@.kinds == old(self)@.kinds,
            final(self)@.next_stamp == old(self)@.next_stamp,
            final(self)@.comments == old(self)@.comments.filter(
                (|c: CommentRow| c.article_id != article_id),
            ),
            final(self)@.reacts == old(self)@.reacts.filter(
                (|x: ReactionRow| x.article_id != article_id),
            ),
    {
        let mut kept_comments: Vec<CommentRow> = Vec::new();
        let mut i: usize = 0;
        while i < self.comments.len()
            invariant
                i <= self.comments.len(),
                kept_comments@ == self.comments@.subrange(0, i as int).filter(
                    (|c: CommentRow| c.article_id != article_id),
                ),
            decreases self.comments.len() - i,
        {
            proof {
                assert(self.comments@.subrange(0, i as int + 1) =~= self.comments@.subrange(
                    0,
                    i as int,
                ).push(self.comments@[i as int]));
                lemma_filter_push(
                    self.comments@.subrange(0, i as int),
                    |c: CommentRow| c.article_id != article_id,
                    self.comments@[i as int],
                );
            }
            if self.comments[i].article_id != article_id {
                kept_comments.push(clone_comment_row(&self.comments[i]));
            }
            i = i + 1;
        }
        proof {
            assert(self.comments@.subrange(0, self.comments@.len() as int) =~= self.comments@);
        }
        self.comments = kept_comments;
        let mut kept_reacts: Vec<ReactionRow> = Vec::new();
        let mut j: usize = 0;
        while j < self.reacts.len()
            invariant
                j <= self.reacts.len(),
                kept_reacts@ == self.reacts@.subrange(0, j as int).filter(
                    (|x: ReactionRow| x.article_id != article_id),
                ),
            decreases self.reacts.len() - j,
        {
            proof {
                assert(self.reacts@.subrange(0, j as int + 1) =~= self.reacts@.subrange(
                    0,
                    j as int,
                ).push(self.reacts@[j as int]));
                lemma_filter_push(
                    self.reacts@.subrange(0, j as int),
                    |x: ReactionRow| x.article_id != article_id,
                    self.reacts@[j as int],
                );
            }
            if self.reacts[j].article_id != article_id {
                kept_reacts.push(self.reacts[j]);
            }
            j = j + 1;
        }
        proof {
            assert(self.reacts@.subrange(0, self.reacts@.len() as int) =~= self.reacts@);
        }
        self.reacts = kept_reacts;
    }

    /// Deletes an article: a blind delete, a no-op when the article did
    /// not exist.  Its comments and reactions cascade away with it.
    pub fn remove_article(&mut self, article_id: u64) -> (r: Result<(), StoreError>)
        requires
            old(self)@.wf(),
        ensures
            final(self)@.wf(),
            r is Ok,
            final(self)@ == old(self)@.drop_article_t(article_id),
    {
        let ghost pre = self@;
        self.drop_dependents(article_id);
        let found = self.find_article_by_id(article_id);
        if let Some(i) = found {
            self.articles.remove(i);
        }
        proof {
            let post = self@;
            if pre.has_article(article_id) {
                let i = found.unwrap() as int;
                let w = pre.article_index(article_id);
                assert(pre.articles[w].id == pre.articles[i].id);
                assert(w == i) by {
                    if w < i {
                        assert(pre.articles[w].id != pre.articles[i].id);
                    } else if w > i {
                        assert(pre.articles[i].id != pre.articles[w].id);
                    }
                };
                assert(post.articles == pre.articles.remove(i));
            } else {
                assert(post.articles == pre.articles);
            }
            assert(post =~= pre.drop_article_t(article_id));
            lemma_users_wf_frame(pre, post);
            lemma_kinds_wf_frame(pre, post);
            lemma_follows_wf_frame(pre, post);
            // the article table after the removal
            assert forall|k: int| 0 <= k < post.articles.len() implies exists|k0: int|
                0 <= k0 < pre.articles.len() && #[trigger] post.articles[k] == pre.articles[k0]
                    && (forall|l: int, l0: int|
                    0 <= l < k && 0 <= l0 <= k0 && post.articles[l] == pre.articles[l0]
                        ==> l0 < k0) by {
                if pre.has_article(article_id) {
                    let i = pre.article_index(article_id);
                    let k0 = if k < i {
                        k
                    } else {
                        k + 1
                    };
                    assert(post.articles[k] == pre.articles[k0]);
                } else {
                    assert(post.articles[k] == pre.articles[k]);
                }
            }
            assert(post.articles_wf()) by {
                if pre.has_article(article_id) {
                    let i = pre.article_index(article_id);
                    assert forall|k: int, l: int| 0 <= k < l < post.articles.len() implies (
                    #[trigger] post.articles[k]).id != (#[trigger] post.articles[l]).id by {
                        let k0 = if k < i {
                            k
                        } else {
                            k + 1
                        };
                        let l0 = if l < i {
                            l
                        } else {
                            l + 1
                        };
                        assert(post.articles[k] == pre.articles[k0]);
                        assert(post.articles[l] == pre.articles[l0]);
                        assert(0 <= k0 < l0 < pre.articles.len());
                    }
                    assert forall|k: int| 0 <= k < post.articles.len() implies (
                    #[trigger] post.articles[k]).id < post.next_stamp
                        && post.articles[k].publish_date < post.next_stamp && post.has_user(
                        post.articles[k].author_id,
                    ) by {
                        let k0 = if k < i {
                            k
                        } else {
                            k + 1
                        };
                        assert(post.articles[k] == pre.articles[k0]);
                        lemma_same_users(pre, post);
                    }
                } else {
                    lemma_articles_wf_frame(pre, post);
                }
            };
            assert(!post.has_article(article_id)) by {
                if post.has_article(article_id) {
                    let k = post.article_index(article_id);
                    assert(post.articles[k].id == article_id);
                    if pre.has_article(article_id) {
                        let i = pre.article_index(article_id);
                        let k0 = if k < i {
                            k
                        } else {
                            k + 1
                        };
                        assert(post.articles[k] == pre.articles[k0]);
                        assert(pre.articles[k0].id != pre.articles[i].id);
                    } else {
                        assert(pre.has_article(article_id));
                    }
                }
            };
            assert forall|x: u64| pre.has_article(x) && x != article_id implies post.has_article(
                x,
            ) by {
                let k = pre.article_index(x);
                if pre.has_article(article_id) {
                    let i = pre.article_index(article_id);
                    assert(pre.articles[i].id == article_id);
                    if k < i {
                        assert(post.articles[k] == pre.articles[k]);
                    } else {
                        assert(k != i);
                        assert(post.articles[k - 1] == pre.articles[k]);
                    }
                } else {
                    assert(post.articles[k] == pre.articles[k]);
                }
            }
            lemma_same_users(pre, post);
            lemma_same_kinds(pre, post);
            // the comment table: a filtered subsequence of a sorted table
            let pc = |c: CommentRow| c.article_id != article_id;
            lemma_filter_elements(pre.comments, pc);
            lemma_filter_pairwise(
                pre.comments,
                pc,
                |a: CommentRow, b: CommentRow| a.publish_date < b.publish_date,
            );
            assert forall|k: int| 0 <= k < post.comments.len() implies (
            #[trigger] post.comments[k]).id < post.next_stamp && post.comments[k].publish_date
                < post.next_stamp && post.has_user(post.comments[k].user_id) && post.has_article(
                post.comments[k].article_id,
            ) by {
                assert(pc(post.comments[k]) && pre.comments.contains(post.comments[k]));
                let w = choose|w: int|
                    0 <= w < pre.comments.len() && pre.comments[w] == post.comments[k];
                assert(pre.comments[w].id < pre.next_stamp);
                assert(pre.has_article(pre.comments[w].article_id));
                assert(post.comments[k].article_id != article_id);
            }
            assert(post.comments_wf());
            // the reaction table: a filtered subsequence
            let pr = |x: ReactionRow| x.article_id != article_id;
            lemma_filter_elements(pre.reacts, pr);
            assert forall|k: int, l: int| 0 <= k < l < post.reacts.len() implies !((
            #[trigger] post.reacts[k]).user_id == (#[trigger] post.reacts[l]).user_id
                && post.reacts[k].article_id == post.reacts[l].article_id) by {
                lemma_filter_pairwise(
                    pre.reacts,
                    pr,
                    |a: ReactionRow, b: ReactionRow|
                        !(a.user_id == b.user_id && a.article_id == b.article_id),
                );
            }
            assert forall|k: int| 0 <= k < post.reacts.len() implies (
            #[trigger] post.reacts[k]).id < post.next_stamp && post.has_user(
                post.reacts[k].user_id,
            ) && post.has_article(post.reacts[k].article_id) && post.has_kind_id(
                post.reacts[k].kind_id,
            ) by {
                assert(pr(post.reacts[k]) && pre.reacts.contains(post.reacts[k]));
                let w = choose|w: int| 0 <= w < pre.reacts.len() && pre.reacts[w] == post.reacts[k];
                assert(pre.reacts[w].id < pre.next_stamp);
                assert(pre.has_article(pre.reacts[w].article_id));
                assert(post.reacts[k].article_id != article_id);
            }
            assert(post.reacts_wf());
            assert(post.wf());
        }
        Ok(())
    }

    /// The three-step removal of an article on behalf of a requester:
    /// verify that the article exists, verify that the requester authored
    /// it, then delete it with its cascade.
    pub fn remove_article_by_author(&mut self, user_id: u64, article_id: u64) -> (r: Result<
        (),
        StoreError,
    >)
        requires
            old(self)@.wf(),
        ensures
            final(self)@.wf(),
            r is Ok <==> old(self)@.authored(user_id, article_id),
            r is Ok ==> final(self)@ == old(self)@.drop_article_t(article_id),
            r is Err ==> final(self)@ == old(self)@,
            !old(self)@.has_article(article_id) ==> r == Err::<(), StoreError>(
                StoreError::NotFound,
            ),
            old(self)@.has_article(article_id) && !old(self)@.authored(user_id, article_id) ==> r
                == Err::<(), StoreError>(StoreError::ConstraintViolation),
    {
        if self.find_article_by_id(article_id).is_none() {
            return Err(StoreError::NotFound);
        }
        let is_author = match self.is_user_author_article(user_id, article_id) {
            Ok(b) => b,
            Err(_) => unreached(),
        };
        if !is_author {
            return Err(StoreError::ConstraintViolation);
        }
        match self.remove_article(article_id) {
            Ok(()) => Ok(()),
            Err(_) => unreached(),
        }
    }

    /// Appends a comment to an article.  Both the commenting user and the
    /// article must exist.
    pub fn insert_comment_to_article(&mut self, comment: &InsertComment) -> (r: Result<
        (),
        StoreError,
    >)
        requires
            old(self)@.wf(),
        ensures
            final(self)@.wf(),
            r is Ok <==> old(self)@.has_user(comment.user_id) && old(self)@.has_article(
                comment.article_id,
            ) && old(self)@.can_stamp(),
            r is Ok ==> final(self)@ == old(self)@.insert_comment_t(*comment),
            r is Err ==> final(self)@ == old(self)@,
            !old(self)@.has_user(comment.user_id) || !old(self)@.has_article(comment.article_id)
                ==> r == Err::<(), StoreError>(StoreError::ConstraintViolation),
            old(self)@.has_user(comment.user_id) && old(self)@.has_article(comment.article_id)
                && !old(self)@.can_stamp() ==> r == Err::<(), StoreError>(
                StoreError::ConnectivityFailure,
            ),
    {
        if self.find_user_by_id(comment.user_id).is_none() {
            return Err(StoreError::ConstraintViolation);
        }
        if self.find_article_by_id(comment.article_id).is_none() {
            return Err(StoreError::ConstraintViolation);
        }
        if self.next_stamp == u64::MAX {
            return Err(StoreError::ConnectivityFailure);
        }
        let ghost pre = self@;
        let stamp = self.next_stamp;
        self.comments.push(
            CommentRow {
                id: stamp,
                user_id: comment.user_id,
                article_id: comment.article_id,
                message: comment.message.clone(),
                publish_date: stamp,
            },
        );
        self.next_stamp = stamp + 1;
        proof {
            let post = self@;
            assert(post =~= pre.insert_comment_t(*comment));
            lemma_same_users(pre, post);
            lemma_same_articles(pre, post);
            lemma_same_kinds(pre, post);
            lemma_users_wf_frame(pre, post);
            lemma_articles_wf_frame(pre, post);
            lemma_follows_wf_frame(pre, post);
            lemma_kinds_wf_frame(pre, post);
            assert forall|i: int, j: int| 0 <= i < j < post.comments.len() implies (
            #[trigger] post.comments[i]).publish_date < (
            #[trigger] post.comments[j]).publish_date by {
                assert(post.comments[i] == pre.comments[i]);
                if j < post.comments.len() - 1 {
                    assert(post.comments[j] == pre.comments[j]);
                }
            }
            assert forall|i: int| 0 <= i < post.comments.len() implies (
            #[trigger] post.comments[i]).id < post.next_stamp && post.comments[i].publish_date
                < post.next_stamp && post.has_user(post.comments[i].user_id) && post.has_article(
                post.comments[i].article_id,
            ) by {
                if i < post.comments.len() - 1 {
                    assert(post.comments[i] == pre.comments[i]);
                }
            }
            assert forall|i: int, j: int| 0 <= i < j < post.reacts.len() implies !((
            #[trigger] post.reacts[i]).user_id == (#[trigger] post.reacts[j]).user_id
                && post.reacts[i].article_id == post.reacts[j].article_id) by {
                assert(post.reacts[i] == pre.reacts[i]);
                assert(post.reacts[j] == pre.reacts[j]);
            }
            assert forall|i: int| 0 <= i < post.reacts.len() implies (
            #[trigger] post.reacts[i]).id < post.next_stamp && post.has_user(
                post.reacts[i].user_id,
            ) && post.has_article(post.reacts[i].article_id) && post.has_kind_id(
                post.reacts[i].kind_id,
            ) by {
                assert(post.reacts[i] == pre.reacts[i]);
            }
            assert(post.wf());
        }
        Ok(())
    }

    /// Builds the enriched form of the comment row at index `i`.
    fn build_comment(&self, i: usize) -> (c: Comment)
        requires
            self@.wf(),
            i < self@.comments.len(),
        ensures
            self@.enriched_comment(self@.comments[i as int], c),
    {
        proof {
            assert(self@.has_user((#[trigger] self@.comments[i as int]).user_id));
        }
        let author_at = match self.find_user_by_id(self.comments[i].user_id) {
            Some(k) => k,
            None => unreached(),
        };
        let author = user_profile(&self.users[author_at]);
        proof {
            let v = self@;
            let w = v.user_index(v.comments[i as int].user_id);
            assert(v.users[w].id == v.users[author_at as int].id);
            assert(w == author_at as int) by {
                if w < author_at as int {
                    assert(v.users[w].id != v.users[author_at as int].id);
                } else if w > author_at as int {
                    assert(v.users[author_at as int].id != v.users[w].id);
                }
            };
        }
        let row = &self.comments[i];
        Comment {
            id: row.id,
            author,
            message: row.message.clone(),
            publish_date: row.publish_date,
        }
    }

    /// The comments of one article with their authors' profiles, ordered
    /// by publish time ascending (which is their insertion order).  Never
    /// an error; an unknown article simply has none.
    pub fn get_comments_from_article(&self, article_id: u64) -> (r: Result<Vec<Comment>, StoreError>)
        requires
            self@.wf(),
        ensures
            r matches Ok(v) && ({
                let rows = self@.comments.filter((|c: CommentRow| c.article_id == article_id));
                &&& v@.len() == rows.len()
                &&& forall|k: int|
                    0 <= k < rows.len() ==> self@.enriched_comment(rows[k], #[trigger] v@[k])
                &&& forall|k: int, l: int|
                    0 <= k < l < v@.len() ==> (#[trigger] v@[k]).publish_date < (
                    #[trigger] v@[l]).publish_date
            }),
    {
        let mut out: Vec<Comment> = Vec::new();
        let mut i: usize = 0;
        while i < self.comments.len()
            invariant
                self@.wf(),
                i <= self.comments.len(),
                out@.len() == self@.comments.subrange(0, i as int).filter(
                    (|c: CommentRow| c.article_id == article_id),
                ).len(),
                forall|k: int|
                    0 <= k < out@.len() ==> self@.enriched_comment(
                        self@.comments.subrange(0, i as int).filter(
                            (|c: CommentRow| c.article_id == article_id),
                        )[k],
                        #[trigger] out@[k],
                    ),
            decreases self.comments.len() - i,
        {
            proof {
                assert(self@.comments.subrange(0, i as int + 1) =~= self@.comments.subrange(
                    0,
                    i as int,
                ).push(self@.comments[i as int]));
                lemma_filter_push(
                    self@.comments.subrange(0, i as int),
                    |c: CommentRow| c.article_id == article_id,
                    self@.comments[i as int],
                );
            }
            if self.comments[i].article_id == article_id {
                let c = self.build_comment(i);
                out.push(c);
            }
            i = i + 1;
        }
        proof {
            assert(self@.comments.subrange(0, self@.comments.len() as int) =~= self@.comments);
            let rows = self@.comments.filter((|c: CommentRow| c.article_id == article_id));
            lemma_filter_pairwise(
                self@.comments,
                |c: CommentRow| c.article_id == article_id,
                |a: CommentRow, b: CommentRow| a.publish_date < b.publish_date,
            );
            assert forall|k: int, l: int| 0 <= k < l < out@.len() implies (
            #[trigger] out@[k]).publish_date < (#[trigger] out@[l]).publish_date by {
                assert(self@.enriched_comment(rows[k], out@[k]));
                assert(self@.enriched_comment(rows[l], out@[l]));
                assert(rows[k].publish_date < rows[l].publish_date);
            }
        }
        Ok(out)
    }

    /// Compares two listing entries in the ranking order.
    fn ranks_before(a: &PopularUser, b: &PopularUser) -> (r: bool)
        ensures
            r == ranked_before(*a, *b),
    {
        a.followers > b.followers || (a.followers == b.followers && a.id < b.id)
    }

    /// Inserts `p` into the ranked listing `out` at its ordered place.
    #[verifier::rlimit(40)]
    fn insert_ranked(out: &mut Vec<PopularUser>, p: PopularUser)
        requires
            forall|k: int, l: int|
                0 <= k < l < old(out)@.len() ==> ranked_before(
                    #[trigger] old(out)@[k],
                    #[trigger] old(out)@[l],
                ),
            forall|k: int| 0 <= k < old(out)@.len() ==> (#[trigger] old(out)@[k]).id != p.id,
        ensures
            final(out)@.len() == old(out)@.len() + 1,
            forall|k: int, l: int|
                0 <= k < l < final(out)@.len() ==> ranked_before(
                    #[trigger] final(out)@[k],
                    #[trigger] final(out)@[l],
                ),
            forall|k: int|
                0 <= k < final(out)@.len() ==> ((#[trigger] final(out)@[k]) == p || old(
                    out,
                )@.contains(final(out)@[k])),
            forall|k0: int| 0 <= k0 < old(out)@.len() ==> final(out)@.contains(
                #[trigger] old(out)@[k0],
            ),
            final(out)@.contains(p),
    {
        let ghost prev = out@;
        let mut pos: usize = 0;
        while pos < out.len() && !Self::ranks_before(&p, &out[pos])
            invariant
                pos <= out.len(),
                out@ == prev,
                forall|m: int| 0 <= m < pos ==> !ranked_before(p, #[trigger] out@[m]),
            decreases out.len() - pos,
        {
            pos = pos + 1;
        }
        proof {
            assert forall|m: int| 0 <= m < pos implies ranked_before(#[trigger] prev[m], p) by {
                lemma_ranked_total(prev[m], p);
            }
            prev.insert_ensures(pos as int, p);
        }
        out.insert(pos, p);
        proof {
            let cur = out@;
            assert(cur == prev.insert(pos as int, p));
            assert(cur[pos as int] == p);
            assert(cur.contains(p));
            assert forall|k: int, l: int| 0 <= k < l < cur.len() implies ranked_before(
                #[trigger] cur[k],
                #[trigger] cur[l],
            ) by {
                if l < pos as int {
                    assert(cur[k] == prev[k] && cur[l] == prev[l]);
                } else if k > pos as int {
                    assert(cur[k] == prev[k - 1] && cur[l] == prev[l - 1]);
                } else if k < pos as int && l == pos as int {
                    assert(cur[k] == prev[k]);
                    assert(ranked_before(prev[k], p));
                } else if k == pos as int {
                    assert(cur[l] == prev[l - 1]);
                    assert(ranked_before(p, prev[pos as int]));
                    if l - 1 > pos as int {
                        assert(ranked_before(prev[pos as int], prev[l - 1]));
                        lemma_ranked_trans(p, prev[pos as int], prev[l - 1]);
                    }
                } else {
                    assert(cur[k] == prev[k]);
                    assert(cur[l] == prev[l - 1]);
                    assert(ranked_before(prev[k], p));
                    assert(ranked_before(p, prev[pos as int]));
                    if l - 1 > pos as int {
                        assert(ranked_before(prev[pos as int], prev[l - 1]));
                        lemma_ranked_trans(p, prev[pos as int], prev[l - 1]);
                    }
                    lemma_ranked_trans(prev[k], p, prev[l - 1]);
                }
            }
            assert forall|k: int| 0 <= k < cur.len() implies ((#[trigger] cur[k]) == p
                || prev.contains(cur[k])) by {
                if k < pos as int {
                    assert(cur[k] == prev[k]);
                    assert(prev.contains(cur[k]));
                } else if k > pos as int {
                    assert(cur[k] == prev[k - 1]);
                    assert(prev.contains(cur[k]));
                }
            }
            assert forall|k0: int| 0 <= k0 < prev.len() implies cur.contains(
                #[trigger] prev[k0],
            ) by {
                if k0 < pos as int {
                    assert(cur[k0] == prev[k0]);
                } else {
                    assert(cur[k0 + 1] == prev[k0]);
                }
            }
        }
    }

    /// Builds the listing entry for the user row at index `i`: the
    /// profile attributes together with the user's follower tally.
    fn build_popular(&self, i: usize) -> (p: PopularUser)
        requires
            self@.wf(),
            i < self@.users.len(),
        ensures
            p.id == self@.users[i as int].id,
            popular_profile_of(self@.user_by_id(p.id), p),
            self@.has_user(p.id),
            p.followers == self@.follower_count(p.id),
    {
        let row = &self.users[i];
        let c = match self.get_user_count_followers(row.id) {
            Ok(c) => c,
            Err(_) => unreached(),
        };
        let p = PopularUser {
            id: row.id,
            first_name: row.first_name.clone(),
            last_name: row.last_name.clone(),
            about: clone_opt_string(&row.about),
            crop_avatar: clone_opt_bytes(&row.crop_avatar),
            date_registration: row.date_registration,
            followers: c,
        };
        proof {
            let v = self@;
            assert((#[trigger] v.users[i as int]).id == p.id);
            let w = v.user_index(p.id);
            assert(v.users[w].id == v.users[i as int].id);
            assert(w == i as int) by {
                if w < i as int {
                    assert(v.users[w].id != v.users[i as int].id);
                } else if w > i as int {
                    assert(v.users[i as int].id != v.users[w].id);
                }
            };
        }
        p
    }

    /// The popularity ranking: every user other than `user_id` that has at
    /// least one follower, with profile and follower count, ordered
    /// descending by follower count and, among equal counts, ascending by
    /// id.  Never an error.
    #[verifier::rlimit(40)]
    pub fn get_popular_users(&self, user_id: u64) -> (r: Result<Vec<PopularUser>, StoreError>)
        requires
            self@.wf(),
        ensures
            r matches Ok(v) && ({
                &&& forall|k: int|
                    0 <= k < v@.len() ==> self@.popular_entry(user_id, #[trigger] v@[k])
                &&& forall|j: int|
                    0 <= j < self@.users.len() && (self@.users[j]).id != user_id
                        && #[trigger] self@.follower_count(self@.users[j].id) > 0 ==> listed(
                        v@,
                        self@.users[j].id,
                    )
                &&& forall|k: int, l: int|
                    0 <= k < l < v@.len() ==> ranked_before(#[trigger] v@[k], #[trigger] v@[l])
            }),
    {
        let mut out: Vec<PopularUser> = Vec::new();
        let mut i: usize = 0;
        while i < self.users.len()
            invariant
                self@.wf(),
                i <= self.users.len(),
                forall|k: int|
                    0 <= k < out@.len() ==> self@.popular_entry(user_id, #[trigger] out@[k]),
                forall|k: int|
                    0 <= k < out@.len() ==> id_in_prefix(
                        self@.users,
                        i as int,
                        (#[trigger] out@[k]).id,
                    ),
                forall|j: int|
                    0 <= j < i && (self@.users[j]).id != user_id
                        && #[trigger] self@.follower_count(self@.users[j].id) > 0 ==> listed(
                        out@,
                        self@.users[j].id,
                    ),
                forall|k: int, l: int|
                    0 <= k < l < out@.len() ==> ranked_before(
                        #[trigger] out@[k],
                        #[trigger] out@[l],
                    ),
            decreases self.users.len() - i,
        {
            let ghost prev = out@;
            let ghost v = self@;
            let keep = self.users[i].id != user_id;
            if keep {
                let p = self.build_popular(i);
                if p.followers > 0 {
                    proof {
                        assert(v.popular_entry(user_id, p));
                        assert forall|k: int| 0 <= k < prev.len() implies (#[trigger] prev[k]).id
                            != p.id by {
                            assert(id_in_prefix(v.users, i as int, prev[k].id));
                            let j = choose|j: int|
                                0 <= j < i && (#[trigger] v.users[j]).id == prev[k].id;
                            assert(v.users[j].id != v.users[i as int].id);
                        }
                    }
                    Self::insert_ranked(&mut out, p);
                    proof {
                        let cur = out@;
                        assert forall|k: int| 0 <= k < cur.len() implies v.popular_entry(
                            user_id,
                            #[trigger] cur[k],
                        ) by {
                            if cur[k] != p {
                                assert(prev.contains(cur[k]));
                                let k0 = choose|k0: int|
                                    0 <= k0 < prev.len() && #[trigger] prev[k0] == cur[k];
                                assert(v.popular_entry(user_id, prev[k0]));
                            }
                        }
                        assert forall|k: int| 0 <= k < cur.len() implies id_in_prefix(
                            v.users,
                            i + 1,
                            (#[trigger] cur[k]).id,
                        ) by {
                            if cur[k] == p {
                                assert((#[trigger] v.users[i as int]).id == cur[k].id);
                            } else {
                                assert(prev.contains(cur[k]));
                                let k0 = choose|k0: int|
                                    0 <= k0 < prev.len() && #[trigger] prev[k0] == cur[k];
                                assert(id_in_prefix(v.users, i as int, prev[k0].id));
                                let j = choose|j: int|
                                    0 <= j < i && (#[trigger] v.users[j]).id == prev[k0].id;
                                assert((#[trigger] v.users[j]).id == cur[k].id);
                            }
                        }
                        assert forall|j: int|
                            0 <= j < i + 1 && (v.users[j]).id != user_id
                                && #[trigger] v.follower_count(v.users[j].id) > 0 implies listed(
                            cur,
                            v.users[j].id,
                        ) by {
                            if j == i as int {
                                assert(cur.contains(p));
                                let k = choose|k: int| 0 <= k < cur.len() && #[trigger] cur[k] == p;
                                assert((#[trigger] cur[k]).id == v.users[j].id);
                            } else {
                                assert(listed(prev, v.users[j].id));
                                let k0 = choose|k0: int|
                                    0 <= k0 < prev.len() && (#[trigger] prev[k0]).id
                                        == v.users[j].id;
                                assert(cur.contains(prev[k0]));
                                let k = choose|k: int|
                                    0 <= k < cur.len() && #[trigger] cur[k] == prev[k0];
                                assert((#[trigger] cur[k]).id == v.users[j].id);
                            }
                        }
                    }
                } else {
                    proof {
                        assert forall|j: int|
                            0 <= j < i + 1 && (v.users[j]).id != user_id
                                && #[trigger] v.follower_count(v.users[j].id) > 0 implies listed(
                            out@,
                            v.users[j].id,
                        ) by {
                            assert(j != i as int);
                        }
                    }
                }
            } else {
                proof {
                    assert forall|j: int|
                        0 <= j < i + 1 && (v.users[j]).id != user_id
                            && #[trigger] v.follower_count(v.users[j].id) > 0 implies listed(
                        out@,
                        v.users[j].id,
                    ) by {
                        assert(j != i as int);
                    }
                }
            }
            i = i + 1;
        }
        Ok(out)
    }
}

} // verus!
