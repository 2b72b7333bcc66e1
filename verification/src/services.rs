use vstd::prelude::*;

use crate::date::Timestamp;
use crate::markdown::{markdown_html, render_markdown};
use crate::models::{Category, CategoryTable, CreatePost, Post, PostTable, PostView};
use crate::text::{same_text, slug_of, slugify};

verus! {

/// What to do about a category that was looked up by slug.
#[derive(Debug)]
pub enum CategoryLookup {
    /// It exists: use the stored row.
    Found(CategoryTable),
    /// It does not: create this one.
    Create(Category),
}

/// The slug a free-form category name is stored under.
pub fn category_slug(name: &str) -> (slug: String)
    ensures
        slug@ == slug_of(name@),
{
    slugify(name)
}

/// Decides, after looking up the slug of `requested` (see [`category_slug`]),
/// whether to use the row found or to create a category named `requested`
/// with that slug and no posts.
pub fn resolve_category(found: Option<CategoryTable>, requested: &str) -> (step: CategoryLookup)
    ensures
        match found {
            Some(t) => step == CategoryLookup::Found(t),
            None => step matches CategoryLookup::Create(c) && c.name@ == requested@ && c.slug@ == slug_of(
                requested@,
            ) && c.post_count == 0,
        },
{
    match found {
        Some(t) => CategoryLookup::Found(t),
        None => CategoryLookup::Create(Category { name: String::from_str(requested), slug: slugify(requested), post_count: 0 }),
    }
}

/// `post` with its HTML rendered from its markdown.
pub fn with_rendered_html(post: Post) -> (rendered: Post)
    ensures
        rendered@ == (PostView { html: markdown_html(post.raw@), ..post@ }),
{
    let html = render_markdown(post.raw.as_str());
    Post { html, ..post }
}

/// A post for a creation request, dated `now`: its slug is the title
/// lowercased with spaces turned into hyphens, its category as given, and it
/// has no tags, excerpt or HTML yet.
pub fn post_from_request(payload: CreatePost, now: Timestamp) -> (post: Post)
    ensures
        post@.title == payload.title@,
        post@.slug == slug_of(payload.title@),
        post@.category == payload.category@,
        post@.categories.len() == 0,
        post@.tags.len() == 0,
        !post@.draft,
        post@.date == now@,
        post@.excerpt.len() == 0,
        post@.html.len() == 0,
        post@.raw == payload.content@,
{
    let slug = slugify(payload.title.as_str());
    let categories: Vec<String> = Vec::new();
    let tags: Vec<String> = Vec::new();
    assert(categories.deep_view() =~= Seq::<Seq<char>>::empty());
    assert(tags.deep_view() =~= Seq::<Seq<char>>::empty());
    Post {
        title: payload.title,
        slug,
        category: payload.category,
        categories,
        tags,
        draft: false,
        date: now,
        excerpt: String::new(),
        html: String::new(),
        raw: payload.content,
    }
}

impl PostTable {
    /// A copy of this row.
    pub fn duplicate(&self) -> (p: PostTable)
        ensures
            p == *self,
    {
        PostTable {
            id: self.id,
            title: self.title.clone(),
            slug: self.slug.clone(),
            category_id: self.category_id,
            category_name: self.category_name.clone(),
            category_slug: self.category_slug.clone(),
            html: self.html.clone(),
            raw: self.raw.clone(),
            created_at: self.created_at.clone(),
        }
    }
}

/// The rows of `posts` whose category slug is `slug`, in order.
pub fn posts_with_category_slug(posts: &Vec<PostTable>, slug: &str) -> (kept: Vec<PostTable>)
    ensures
        kept@ == posts@.filter(|p: PostTable| p.category_slug@ == slug@),
{
    let ghost pred = |p: PostTable| p.category_slug@ == slug@;
    let mut kept: Vec<PostTable> = Vec::new();
    let mut i: usize = 0;
    assert(posts@.take(0) =~= Seq::<PostTable>::empty());
    while i < posts.len()
        invariant
            i <= posts.len(),
            pred == (|p: PostTable| p.category_slug@ == slug@),
            kept@ == posts@.take(i as int).filter(pred),
        decreases posts.len() - i,
    {
        proof {
            assert(posts@.take(i + 1) =~= posts@.take(i as int).push(posts@[i as int]));
            posts@.take(i as int).lemma_filter_push(posts@[i as int], pred);
        }
        if same_text(posts[i].category_slug.as_str(), slug) {
            kept.push(posts[i].duplicate());
        }
        i += 1;
    }
    assert(posts@.take(i as int) =~= posts@);
    kept
}

} // verus!
