//! The records of the store layer.
//!
//! Identifiers and timestamps are store-assigned: one monotonic counter
//! stamps every inserted row, so ids are unique across the store and
//! insertion order agrees with timestamp order.  Blobs are raw bytes;
//! image payloads travel as base64 text and are decoded before storage.

use vstd::prelude::*;
use vstd::string::{StrSliceExecFns, StringExecFns};

verus! {

/// Number of characters kept in the read-time crop of a description.
pub const CROP_DESCRIPTION_CHARS: usize = 150;

/// A registration request: what a new user supplies about themselves.
#[derive(Clone, Debug, PartialEq, Eq)]
pub struct RegisterUser {
    pub first_name: String,
    pub last_name: String,
    pub about: Option<String>,
    pub password: String,
    pub login: String,
}

/// A user row as the store keeps it, credential included.
#[derive(Clone, Debug, PartialEq, Eq)]
pub struct FullUser {
    pub id: u64,
    pub first_name: String,
    pub last_name: String,
    pub about: Option<String>,
    pub password: String,
    pub login: String,
    pub crop_avatar: Option<Vec<u8>>,
    pub full_avatar: Option<Vec<u8>>,
    pub date_registration: u64,
}

/// A user profile as handed to callers: the row without its credential.
#[derive(Clone, Debug, PartialEq, Eq)]
pub struct User {
    pub id: u64,
    pub first_name: String,
    pub last_name: String,
    pub about: Option<String>,
    pub crop_avatar: Option<Vec<u8>>,
    pub full_avatar: Option<Vec<u8>>,
    pub date_registration: u64,
}

/// A read-only ranking aggregate: a profile plus its follower count.
/// Never persisted.
#[derive(Clone, Debug, PartialEq, Eq)]
pub struct PopularUser {
    pub id: u64,
    pub first_name: String,
    pub last_name: String,
    pub about: Option<String>,
    pub crop_avatar: Option<Vec<u8>>,
    pub date_registration: u64,
    pub followers: u64,
}

/// An article as handed to callers: enriched with its author's profile,
/// the read-time crop of its description and the reaction tallies.
#[derive(Clone, Debug, PartialEq, Eq)]
pub struct Article {
    pub id: u64,
    pub author: User,
    pub image: Vec<u8>,
    pub title: String,
    pub crop_description: String,
    pub full_description: String,
    pub publish_date: u64,
    pub likes: u64,
    pub dislikes: u64,
}

/// An article reduced to what its author supplied, image already decoded.
#[derive(Clone, Debug, PartialEq, Eq)]
pub struct CropArticle {
    pub author_id: u64,
    pub image: Vec<u8>,
    pub title: String,
    pub description: String,
}

/// An article insertion request; the image is base64 text.
#[derive(Clone, Debug, PartialEq, Eq)]
pub struct InsertArticle {
    pub author_id: u64,
    pub image: String,
    pub title: String,
    pub description: String,
}

/// A comment as handed to callers, with its author's profile.
#[derive(Clone, Debug, PartialEq, Eq)]
pub struct Comment {
    pub id: u64,
    pub author: User,
    pub message: String,
    pub publish_date: u64,
}

/// A comment insertion request.
#[derive(Clone, Debug, PartialEq, Eq)]
pub struct InsertComment {
    pub user_id: u64,
    pub article_id: u64,
    pub message: String,
}

/// A reaction request: the kind is supplied by its human-readable name.
#[derive(Clone, Debug, PartialEq, Eq)]
pub struct InsertReaction {
    pub user_id: u64,
    pub article_id: u64,
    pub reaction: String,
}

/// An article row as the store keeps it.
#[derive(Clone, Debug, PartialEq, Eq)]
pub struct ArticleRow {
    pub id: u64,
    pub author_id: u64,
    pub image: Vec<u8>,
    pub title: String,
    pub description: String,
    pub publish_date: u64,
}

/// A comment row as the store keeps it.
#[derive(Clone, Debug, PartialEq, Eq)]
pub struct CommentRow {
    pub id: u64,
    pub user_id: u64,
    pub article_id: u64,
    pub message: String,
    pub publish_date: u64,
}

/// A follow edge: `follower_id` follows `author_id`.
#[derive(Clone, Copy, Debug, PartialEq, Eq)]
pub struct FollowRow {
    pub id: u64,
    pub author_id: u64,
    pub follower_id: u64,
    pub follow_date: u64,
}

/// A reaction kind: one of the two seeded categories, resolved by name.
#[derive(Clone, Debug, PartialEq, Eq)]
pub struct KindRow {
    pub id: u64,
    pub description: String,
}

/// A reaction row: `user_id` reacted to `article_id` with kind `kind_id`.
#[derive(Clone, Copy, Debug, PartialEq, Eq)]
pub struct ReactionRow {
    pub id: u64,
    pub user_id: u64,
    pub article_id: u64,
    pub kind_id: u64,
    pub date: u64,
}

/// The text of an optional text field.
pub open spec fn opt_str(o: Option<String>) -> Option<Seq<char>> {
    match o {
        Option::Some(s) => Option::Some(s@),
        Option::None => Option::None,
    }
}

/// The bytes of an optional blob field.
pub open spec fn opt_bytes(o: Option<Vec<u8>>) -> Option<Seq<u8>> {
    match o {
        Option::Some(b) => Option::Some(b@),
        Option::None => Option::None,
    }
}

/// `u` is the public profile of the stored row `row`.
pub open spec fn profile_of(row: FullUser, u: User) -> bool {
    &&& u.id == row.id
    &&& u.first_name@ == row.first_name@
    &&& u.last_name@ == row.last_name@
    &&& opt_str(u.about) == opt_str(row.about)
    &&& opt_bytes(u.crop_avatar) == opt_bytes(row.crop_avatar)
    &&& opt_bytes(u.full_avatar) == opt_bytes(row.full_avatar)
    &&& u.date_registration == row.date_registration
}

/// `p` carries the ranking profile of the stored row `row` (the
/// attributes a popularity listing shows; the follower count is stated
/// separately).
pub open spec fn popular_profile_of(row: FullUser, p: PopularUser) -> bool {
    &&& p.id == row.id
    &&& p.first_name@ == row.first_name@
    &&& p.last_name@ == row.last_name@
    &&& opt_str(p.about) == opt_str(row.about)
    &&& opt_bytes(p.crop_avatar) == opt_bytes(row.crop_avatar)
    &&& p.date_registration == row.date_registration
}

/// `row` carries exactly the attributes of the registration `reg`,
/// with no avatars yet.
pub open spec fn registered_from(row: FullUser, reg: RegisterUser) -> bool {
    &&& row.first_name@ == reg.first_name@
    &&& row.last_name@ == reg.last_name@
    &&& opt_str(row.about) == opt_str(reg.about)
    &&& row.password@ == reg.password@
    &&& row.login@ == reg.login@
    &&& row.crop_avatar is None
    &&& row.full_avatar is None
}

/// Copies a blob.
pub(crate) fn clone_bytes(v: &Vec<u8>) -> (r: Vec<u8>)
    ensures
        r@ == v@,
{
    let mut out: Vec<u8> = Vec::new();
    let mut i: usize = 0;
    while i < v.len()
        invariant
            i <= v.len(),
            out@ == v@.subrange(0, i as int),
        decreases v.len() - i,
    {
        out.push(v[i]);
        i = i + 1;
        proof {
            assert(out@ =~= v@.subrange(0, i as int));
        }
    }
    proof {
        assert(v@.subrange(0, v@.len() as int) =~= v@);
    }
    out
}

/// Copies an optional text field.
pub(crate) fn clone_opt_string(o: &Option<String>) -> (r: Option<String>)
    ensures
        r == *o,
{
    match o {
        Option::Some(s) => Option::Some(s.clone()),
        Option::None => Option::None,
    }
}

/// Copies an optional blob field.
pub(crate) fn clone_opt_bytes(o: &Option<Vec<u8>>) -> (r: Option<Vec<u8>>)
    ensures
        opt_bytes(r) == opt_bytes(*o),
{
    match o {
        Option::Some(b) => Option::Some(clone_bytes(b)),
        Option::None => Option::None,
    }
}

/// The read-time crop of a description: its first
/// [`CROP_DESCRIPTION_CHARS`] characters, with a trailing ellipsis.
pub open spec fn crop_of(s: Seq<char>) -> Seq<char> {
    (if s.len() <= CROP_DESCRIPTION_CHARS {
        s
    } else {
        s.take(CROP_DESCRIPTION_CHARS as int)
    }) + "..."@
}

/// Crops a description for a listing.
pub(crate) fn crop_description(s: &str) -> (r: String)
    ensures
        r@ == crop_of(s@),
{
    let n = s.unicode_len();
    let cut = if n <= CROP_DESCRIPTION_CHARS {
        n
    } else {
        CROP_DESCRIPTION_CHARS
    };
    let mut out = s.substring_char(0, cut).to_owned();
    out.append("...");
    proof {
        if s@.len() <= CROP_DESCRIPTION_CHARS {
            assert(s@.subrange(0, s@.len() as int) =~= s@);
        }
    }
    out
}

/// Copies a stored comment row.
pub(crate) fn clone_comment_row(row: &CommentRow) -> (r: CommentRow)
    ensures
        r == *row,
{
    CommentRow {
        id: row.id,
        user_id: row.user_id,
        article_id: row.article_id,
        message: row.message.clone(),
        publish_date: row.publish_date,
    }
}

/// Builds the public profile of a stored user row.
pub(crate) fn user_profile(row: &FullUser) -> (u: User)
    ensures
        profile_of(*row, u),
{
    User {
        id: row.id,
        first_name: row.first_name.clone(),
        last_name: row.last_name.clone(),
        about: clone_opt_string(&row.about),
        crop_avatar: clone_opt_bytes(&row.crop_avatar),
        full_avatar: clone_opt_bytes(&row.full_avatar),
        date_registration: row.date_registration,
    }
}

} // verus!
