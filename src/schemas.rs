//! The entities of the post store and the views handed to readers.
use vstd::prelude::*;
use vstd::string::*;
use crate::text::{split_on_space, split_spaces};

verus! {

/// How many proof-of-work challenges guard one publication.
pub const CHALLENGE_COUNT: usize = 16;

/// What went wrong.
#[derive(Clone, Copy, Debug, PartialEq, Eq, Structural)]
pub enum ErrorKind {
    StoreUnavailable,
    NotFound,
    Encoding,
    InvalidInput,
    PowRejected,
}

#[derive(Clone, Debug)]
pub struct AppError {
    pub kind: ErrorKind,
    pub reason: String,
}

impl AppError {
    pub fn new(kind: ErrorKind, reason: &str) -> (e: AppError)
        ensures
            e.kind == kind,
            e.reason@ == reason@,
    {
        AppError { kind, reason: String::from_str(reason) }
    }

    /// The message shown for this error.
    pub fn message(&self) -> (m: String)
        ensures
            m@ == self.reason@,
    {
        self.reason.clone()
    }
}

pub type GroupId = u128;

/// Typically a handle or a slug.
pub type AuthorId = String;

pub type UserId = u128;

#[derive(Clone, Debug)]
pub struct Post {
    pub title: String,
    pub slug: String,
    pub author: AuthorInfo,
    pub body: String,
    /// Whether the reader may reply to this post.
    pub can_reply: bool,
}

#[derive(Clone, Copy, Debug, PartialEq, Eq, Structural)]
pub enum Authorization {
    Admin,
    Member,
}

#[derive(Clone, Debug)]
pub struct AuthorInfo {
    pub name: String,
    pub profile_picture: String,
}

/// One page of results.
#[derive(Clone, Debug)]
pub struct Page<T> {
    pub objects: Vec<T>,
    pub current_page: usize,
    pub per_page: usize,
    pub total_objects: usize,
}

#[derive(Clone, Copy, Debug, PartialEq, Eq, Structural)]
pub enum GroupManagement {
    /// Anyone can join or leave freely.
    Open,
    /// Members can invite other members.
    MemberInvite,
    /// Admins can invite other members.
    AdminInvite,
}

#[derive(Clone, Debug)]
pub struct GroupEntity {
    pub id: GroupId,
    pub management: GroupManagement,
    /// Whether members may post in the group.
    pub allow_member_posting: bool,
    /// The author that speaks for the group, controlled by its admins.
    pub face: Option<AuthorId>,
    pub admins: Vec<UserId>,
    pub members: Vec<UserId>,
}

#[derive(Clone, Debug)]
pub struct AuthorEntity {
    pub author_id: AuthorId,
    pub name: String,
    pub profile_picture: String,
}

#[derive(Clone, Debug)]
pub struct UserEntity {
    pub id: UserId,
    /// Groups joined, created or administered.
    pub groups: Vec<GroupId>,
    /// Users excluded from all of this user's groups.
    pub block_list: Vec<UserId>,
}

/// A post as stored: immutable once written, addressed by its slug.
#[derive(Clone, Debug)]
pub struct PostEntity {
    pub title: String,
    pub slug: String,
    pub author: AuthorId,
    pub search_tags: Vec<String>,
    pub body: String,
    /// `None` means public.
    pub space: Option<GroupId>,
    /// `None` means the space's.
    pub reply_scope: Option<GroupId>,
    /// `None` means the space's.
    pub visibility_scope: Option<GroupId>,
}

/// What a writer submits to publish a post.
#[derive(Clone, Debug)]
pub struct PublishForm {
    pub body: String,
    pub title: String,
    pub visibility_group: Option<GroupId>,
    pub reply_group: Option<GroupId>,
    pub tags: String,
    pub challenges: [String; CHALLENGE_COUNT],
}

/// What `str::to_lowercase` makes of a string.
pub uninterp spec fn lower_of(s: Seq<char>) -> Seq<char>;

/// What `slug::slugify` makes of a string.
pub uninterp spec fn slug_of(s: Seq<char>) -> Seq<char>;

/// Relies on `str::to_lowercase`: the lowercase form depends on the characters alone.
#[verifier::external_body]
fn lowercase(s: &str) -> (r: String)
    ensures
        r@ == lower_of(s@),
{
    s.to_lowercase()
}

/// Relies on `slug::slugify`: the slug depends on the title alone.
#[verifier::external_body]
fn slugify_title(s: &str) -> (r: String)
    ensures
        r@ == slug_of(s@),
{
    slug::slugify(s)
}

/// Each of `ws`, lowercased.
pub open spec fn lowered(ws: Seq<Seq<char>>) -> Seq<Seq<char>> {
    ws.map_values(|w: Seq<char>| lower_of(w))
}

/// The tags a post is indexed under: each space-separated piece of its title,
/// lowercased, then its own tags as written.
pub open spec fn derived_tags(title: Seq<char>, tags: Seq<Seq<char>>) -> Seq<Seq<char>> {
    lowered(split_spaces(title)) + tags
}

/// The author shown for a post while author profiles are not looked up.
pub open spec fn placeholder_author(author_id: Seq<char>) -> (Seq<char>, Seq<char>) {
    ("sample name"@, "https://example.com"@)
}

/// Every word of a post's title, lowercased, is among its tags.
pub proof fn lemma_derived_tags_cover_title(title: Seq<char>, tags: Seq<Seq<char>>, w: Seq<char>)
    requires
        split_spaces(title).contains(w),
    ensures
        derived_tags(title, tags).contains(lower_of(w)),
{
    let ws = split_spaces(title);
    let i = choose|i: int| 0 <= i < ws.len() && ws[i] == w;
    assert(derived_tags(title, tags)[i] == lower_of(w));
}

impl PostEntity {
    /// The tags this post is indexed under.
    pub fn search_tags(&self) -> (r: Vec<String>)
        ensures
            r.deep_view() == derived_tags(self.title@, self.search_tags.deep_view()),
    {
        let words = split_on_space(self.title.as_str());
        let ghost wv = words.deep_view();
        let mut r: Vec<String> = Vec::new();
        let mut i: usize = 0;
        while i < words.len()
            invariant
                wv == words.deep_view(),
                wv == split_spaces(self.title@),
                i <= words.len(),
                r.deep_view() == lowered(wv.take(i as int)),
            decreases words.len() - i,
        {
            let ghost before = r.deep_view();
            let low = lowercase(words[i].as_str());
            assert(wv[i as int] == words[i as int]@);
            r.push(low);
            assert(r.deep_view() =~= before.push(lower_of(wv[i as int])));
            assert(r.deep_view() =~= lowered(wv.take(i + 1)));
            i = i + 1;
        }
        let ghost lowered = r.deep_view();
        let mut j: usize = 0;
        while j < self.search_tags.len()
            invariant
                j <= self.search_tags.len(),
                r.deep_view() == lowered + self.search_tags.deep_view().take(j as int),
            decreases self.search_tags.len() - j,
        {
            let ghost before = r.deep_view();
            let t = self.search_tags[j].clone();
            assert(self.search_tags.deep_view()[j as int] == self.search_tags[j as int]@);
            r.push(t);
            assert(r.deep_view() =~= before.push(self.search_tags[j as int]@));
            assert(r.deep_view() =~= lowered + self.search_tags.deep_view().take(j + 1));
            j = j + 1;
        }
        assert(wv.take(words.len() as int) =~= wv);
        assert(self.search_tags.deep_view().take(self.search_tags.len() as int) =~= self.search_tags.deep_view());
        r
    }

    /// The post that a submitted form describes, not yet attached to any group.
    pub fn from_form(form: PublishForm) -> (e: PostEntity)
        ensures
            e.title@ == form.title@,
            e.slug@ == slug_of(form.title@),
            e.author@ == "Some author"@,
            e.search_tags.deep_view() == split_spaces(form.tags@),
            e.body@ == form.body@,
            e.space is None,
            e.reply_scope is None,
            e.visibility_scope is None,
    {
        let slug = slugify_title(form.title.as_str());
        let search_tags = split_on_space(form.tags.as_str());
        PostEntity {
            title: form.title,
            slug,
            author: String::from_str("Some author"),
            search_tags,
            body: form.body,
            space: None,
            reply_scope: None,
            visibility_scope: None,
        }
    }
}

impl Post {
    /// The reader's view of a stored post and its author.
    pub fn from_store(entity: PostEntity, author: AuthorEntity) -> (p: Post)
        ensures
            p.title@ == entity.title@,
            p.slug@ == entity.slug@,
            p.author.name@ == author.name@,
            p.author.profile_picture@ == author.profile_picture@,
            p.body@ == entity.body@,
            !p.can_reply,
    {
        Post {
            title: entity.title,
            slug: entity.slug,
            author: AuthorInfo { name: author.name, profile_picture: author.profile_picture },
            body: entity.body,
            can_reply: false,
        }
    }
}

/// The reader's view of a stored post, shown with the placeholder author.
pub fn post_view(entity: PostEntity) -> (p: Post)
    ensures
        p.title@ == entity.title@,
        p.slug@ == entity.slug@,
        p.body@ == entity.body@,
        (p.author.name@, p.author.profile_picture@) == placeholder_author(entity.author@),
        !p.can_reply,
{
    let author = AuthorEntity {
        author_id: entity.author.clone(),
        name: String::from_str("sample name"),
        profile_picture: String::from_str("https://example.com"),
    };
    proof {
        reveal_strlit("sample name");
        reveal_strlit("https://example.com");
    }
    Post::from_store(entity, author)
}

/// A page of reader views of `entities`, each shown with the placeholder author.
pub fn posts_page(entities: Vec<PostEntity>, current_page: usize, per_page: usize, total_objects: usize) -> (pg: Page<Post>)
    ensures
        pg.current_page == current_page,
        pg.per_page == per_page,
        pg.total_objects == total_objects,
        pg.objects.len() == entities.len(),
        forall|i: int|
            0 <= i < entities.len() ==> {
                let p = #[trigger] pg.objects[i];
                &&& p.title@ == entities[i].title@
                &&& p.slug@ == entities[i].slug@
                &&& p.body@ == entities[i].body@
                &&& (p.author.name@, p.author.profile_picture@) == placeholder_author(entities[i].author@)
                &&& !p.can_reply
            },
{
    let ghost all = entities@;
    let n = entities.len();
    let mut rest = entities;
    let mut objects: Vec<Post> = Vec::new();
    let mut i: usize = 0;
    while rest.len() > 0
        invariant
            n == all.len(),
            i <= all.len(),
            rest@ == all.skip(i as int),
            objects.len() == i,
            forall|k: int|
                0 <= k < i ==> {
                    let p = #[trigger] objects[k];
                    &&& p.title@ == all[k].title@
                    &&& p.slug@ == all[k].slug@
                    &&& p.body@ == all[k].body@
                    &&& (p.author.name@, p.author.profile_picture@) == placeholder_author(all[k].author@)
                    &&& !p.can_reply
                },
        decreases rest.len(),
    {
        let e = rest.remove(0);
        assert(e == all[i as int]);
        assert(rest@ =~= all.skip(i + 1));
        objects.push(post_view(e));
        i = i + 1;
    }
    Page { objects, current_page, per_page, total_objects }
}

} // verus!
