use vstd::prelude::*;

use crate::date::{label_format, later, reformat_rfc3339, rfc3339_reformatted, utc_strftime, Timestamp};
use crate::markdown::{excerpt_of, plain_excerpt};
use crate::text::{chars_of, char_uppercase, push_char, push_chars, to_uppercase};

verus! {

broadcast use vstd::seq_lib::group_filter_ensures;

/// A category, auto-populated from a subdirectory of the content folder.
#[derive(Debug, Clone)]
pub struct Category {
    pub slug: String,
    pub name: String,
    pub post_count: usize,
}

/// The characters that separate the words of a slug.
pub open spec fn is_word_separator(c: char) -> bool {
    c == '-' || c == '_'
}

/// The fields of `s` between separators, empty ones included
/// (`str::split` on `['-', '_']`).
pub open spec fn split_fields(s: Seq<char>) -> Seq<Seq<char>>
    decreases s.len(),
{
    if s.len() == 0 {
        seq![Seq::empty()]
    } else {
        let f = split_fields(s.drop_last());
        if is_word_separator(s.last()) {
            f.push(Seq::empty())
        } else {
            f.update(f.len() - 1, f.last().push(s.last()))
        }
    }
}

/// The non-empty words of a slug.
pub open spec fn slug_words(s: Seq<char>) -> Seq<Seq<char>> {
    split_fields(s).filter(|w: Seq<char>| w.len() > 0)
}

/// `w` with its first character uppercased.
pub open spec fn capitalized(w: Seq<char>) -> Seq<char> {
    if w.len() == 0 {
        w
    } else {
        char_uppercase(w[0]) + w.drop_first()
    }
}

/// The words joined by single spaces.
pub open spec fn join_words(ws: Seq<Seq<char>>) -> Seq<char>
    decreases ws.len(),
{
    if ws.len() == 0 {
        Seq::empty()
    } else if ws.len() == 1 {
        ws[0]
    } else {
        join_words(ws.drop_last()).push(' ') + ws.last()
    }
}

/// The display name of a category slug: its words, capitalized, joined by spaces.
pub open spec fn category_name(slug: Seq<char>) -> Seq<char> {
    join_words(slug_words(slug).map_values(|w: Seq<char>| capitalized(w)))
}

/// Name of the words in `fields` that are non-empty, capitalized and joined.
pub open spec fn name_of_fields(fields: Seq<Seq<char>>) -> Seq<char> {
    join_words(fields.filter(|w: Seq<char>| w.len() > 0).map_values(|w: Seq<char>| capitalized(w)))
}

proof fn lemma_split_fields_nonempty(s: Seq<char>)
    ensures
        split_fields(s).len() >= 1,
    decreases s.len(),
{
    if s.len() > 0 {
        lemma_split_fields_nonempty(s.drop_last());
    }
}

proof fn lemma_name_push(fields: Seq<Seq<char>>, w: Seq<char>)
    ensures
        name_of_fields(fields.push(w)) == if w.len() == 0 {
            name_of_fields(fields)
        } else if fields.filter(|w: Seq<char>| w.len() > 0).len() == 0 {
            capitalized(w)
        } else {
            name_of_fields(fields).push(' ') + capitalized(w)
        },
{
    let pred = |w: Seq<char>| w.len() > 0;
    let cap = |w: Seq<char>| capitalized(w);
    fields.lemma_filter_push(w, pred);
    let ws = fields.filter(pred);
    if w.len() > 0 {
        assert(ws.push(w).map_values(cap) =~= ws.map_values(cap).push(capitalized(w)));
        assert(ws.map_values(cap).push(capitalized(w)).drop_last() =~= ws.map_values(cap));
        if ws.len() == 0 {
            assert(ws.map_values(cap).push(capitalized(w)).len() == 1);
        }
    }
}

proof fn lemma_split_fields_single(s: Seq<char>)
    requires
        forall|i: int| 0 <= i < s.len() ==> !is_word_separator(#[trigger] s[i]),
    ensures
        split_fields(s) == seq![s],
    decreases s.len(),
{
    if s.len() > 0 {
        let t = s.drop_last();
        assert forall|i: int| 0 <= i < t.len() implies !is_word_separator(#[trigger] t[i]) by {
            assert(t[i] == s[i]);
        }
        lemma_split_fields_single(t);
        assert(!is_word_separator(s[s.len() - 1]));
        assert(t.push(s.last()) =~= s);
        assert(seq![t].update(0, t.push(s.last())) =~= seq![s]);
    } else {
        assert(s =~= Seq::<char>::empty());
    }
}

/// A slug of one word, without separators, is named by that word capitalized.
pub proof fn lemma_single_word_name(slug: Seq<char>)
    requires
        slug.len() > 0,
        forall|i: int| 0 <= i < slug.len() ==> !is_word_separator(#[trigger] slug[i]),
    ensures
        category_name(slug) == capitalized(slug),
{
    lemma_split_fields_single(slug);
    let pred = |w: Seq<char>| w.len() > 0;
    Seq::<Seq<char>>::empty().lemma_filter_push(slug, pred);
    assert(seq![slug] =~= Seq::<Seq<char>>::empty().push(slug));
    assert(Seq::<Seq<char>>::empty().filter(pred) =~= Seq::<Seq<char>>::empty());
    assert(slug_words(slug) =~= seq![slug]);
    assert(slug_words(slug).map_values(|w: Seq<char>| capitalized(w)) =~= seq![capitalized(slug)]);
}

/// `w` with its first character uppercased.
fn capitalize(w: &Vec<char>) -> (c: String)
    ensures
        c@ == capitalized(w@),
{
    if w.len() == 0 {
        return String::new();
    }
    let mut out = to_uppercase(w[0]);
    let mut rest: Vec<char> = Vec::new();
    let mut k: usize = 1;
    while k < w.len()
        invariant
            1 <= k <= w.len(),
            rest@ == w@.subrange(1, k as int),
        decreases w.len() - k,
    {
        rest.push(w[k]);
        k += 1;
        assert(rest@ =~= w@.subrange(1, k as int));
    }
    push_chars(&mut out, &rest);
    assert(w@.drop_first() =~= w@.subrange(1, w.len() as int));
    out
}

/// Appends the next word (non-empty or not) of a name being built.
fn append_word(name: &mut String, any: &mut bool, word: &Vec<char>, Ghost(fields): Ghost<Seq<Seq<char>>>)
    requires
        old(name)@ == name_of_fields(fields),
        *old(any) == (fields.filter(|w: Seq<char>| w.len() > 0).len() > 0),
    ensures
        final(name)@ == name_of_fields(fields.push(word@)),
        *final(any) == (fields.push(word@).filter(|w: Seq<char>| w.len() > 0).len() > 0),
{
    proof {
        lemma_name_push(fields, word@);
        fields.lemma_filter_push(word@, |w: Seq<char>| w.len() > 0);
    }
    if word.len() > 0 {
        if *any {
            push_char(name, ' ');
        }
        let cap = capitalize(word);
        name.append(cap.as_str());
        *any = true;
    }
}

impl Category {
    /// A category for `slug` holding `post_count` posts; its name is the slug's
    /// words, split on `-` and `_`, each capitalized, joined by spaces.
    pub fn from_slug(slug: &str, post_count: usize) -> (c: Category)
        ensures
            c.slug@ == slug@,
            c.name@ == category_name(slug@),
            c.post_count == post_count,
    {
        let chars = chars_of(slug);
        let mut name = String::new();
        let mut any = false;
        let mut cur: Vec<char> = Vec::new();
        let mut i: usize = 0;
        proof {
            assert(chars@.take(0) =~= Seq::<char>::empty());
            assert(split_fields(chars@.take(0)).drop_last() =~= Seq::<Seq<char>>::empty());
            assert(Seq::<Seq<char>>::empty().filter(|w: Seq<char>| w.len() > 0) =~= Seq::<Seq<char>>::empty());
        }
        while i < chars.len()
            invariant
                i <= chars.len(),
                chars@ == slug@,
                split_fields(chars@.take(i as int)).len() >= 1,
                name@ == name_of_fields(split_fields(chars@.take(i as int)).drop_last()),
                any == (split_fields(chars@.take(i as int)).drop_last().filter(|w: Seq<char>| w.len() > 0).len() > 0),
                cur@ == split_fields(chars@.take(i as int)).last(),
            decreases chars.len() - i,
        {
            let ghost p = chars@.take(i as int);
            let ghost f = split_fields(p);
            let c = chars[i];
            assert(chars@.take(i + 1).drop_last() =~= p);
            assert(chars@.take(i + 1).last() == c);
            if c == '-' || c == '_' {
                append_word(&mut name, &mut any, &cur, Ghost(f.drop_last()));
                assert(f.drop_last().push(cur@) =~= f);
                assert(split_fields(chars@.take(i + 1)).drop_last() =~= f);
                cur = Vec::new();
            } else {
                cur.push(c);
                assert(split_fields(chars@.take(i + 1)).drop_last() =~= f.drop_last());
            }
            i += 1;
            proof {
                lemma_split_fields_nonempty(chars@.take(i as int));
            }
        }
        let ghost f = split_fields(chars@.take(i as int));
        append_word(&mut name, &mut any, &cur, Ghost(f.drop_last()));
        assert(f.drop_last().push(cur@) =~= f);
        assert(chars@.take(i as int) =~= slug@);
        Category { slug: String::from_str(slug), name, post_count }
    }
}

/// A fully parsed, render-ready post.
#[derive(Debug, Clone)]
pub struct Post {
    pub title: String,
    pub slug: String,
    /// Canonical category, derived from the folder the post lives in.
    pub category: String,
    /// Categories declared in frontmatter (defaults to `[category]`).
    pub categories: Vec<String>,
    pub tags: Vec<String>,
    pub draft: bool,
    /// Last-modified time of the source file, which doubles as the published date.
    pub date: Timestamp,
    pub excerpt: String,
    pub html: String,
    pub raw: String,
}

/// What a [`Post`] holds, as mathematical values.
pub struct PostView {
    pub title: Seq<char>,
    pub slug: Seq<char>,
    pub category: Seq<char>,
    pub categories: Seq<Seq<char>>,
    pub tags: Seq<Seq<char>>,
    pub draft: bool,
    pub date: (i64, u32),
    pub excerpt: Seq<char>,
    pub html: Seq<char>,
    pub raw: Seq<char>,
}

impl View for Post {
    type V = PostView;

    open spec fn view(&self) -> PostView {
        PostView {
            title: self.title@,
            slug: self.slug@,
            category: self.category@,
            categories: self.categories.deep_view(),
            tags: self.tags.deep_view(),
            draft: self.draft,
            date: self.date@,
            excerpt: self.excerpt@,
            html: self.html@,
            raw: self.raw@,
        }
    }
}

/// The posts of `ps`, as mathematical values.
pub open spec fn posts_view(ps: Seq<Post>) -> Seq<PostView> {
    ps.map_values(|p: Post| p@)
}

/// A copy of a list of strings.
pub fn copy_strings(v: &Vec<String>) -> (c: Vec<String>)
    ensures
        c.deep_view() == v.deep_view(),
{
    let mut c: Vec<String> = Vec::new();
    let mut i: usize = 0;
    while i < v.len()
        invariant
            i <= v.len(),
            c.deep_view() == v.deep_view().take(i as int),
        decreases v.len() - i,
    {
        let s = v[i].clone();
        assert(s@ == v.deep_view()[i as int]);
        let ghost before = c.deep_view();
        c.push(s);
        assert(c.deep_view() =~= before.push(s@));
        i += 1;
        assert(c.deep_view() =~= v.deep_view().take(i as int));
    }
    assert(v.deep_view().take(v.len() as int) =~= v.deep_view());
    c
}

impl Post {
    /// A copy of this post.
    pub fn duplicate(&self) -> (p: Post)
        ensures
            p@ == self@,
    {
        Post {
            title: self.title.clone(),
            slug: self.slug.clone(),
            category: self.category.clone(),
            categories: copy_strings(&self.categories),
            tags: copy_strings(&self.tags),
            draft: self.draft,
            date: self.date,
            excerpt: self.excerpt.clone(),
            html: self.html.clone(),
            raw: self.raw.clone(),
        }
    }

    /// The published date as `Mar 4, 2024`.
    pub fn date_label(&self) -> (label: String)
        ensures
            label@ == utc_strftime(self.date@.0, self.date@.1, label_format()),
    {
        self.date.label()
    }
}

/// A post as stored in the database, joined with its category.
#[derive(Debug, Clone)]
pub struct PostTable {
    pub id: i64,
    pub title: String,
    pub slug: String,
    pub category_id: i64,
    pub category_name: String,
    pub category_slug: String,
    pub html: String,
    pub raw: String,
    pub created_at: String,
}

/// The length, in characters, of list-view excerpts.
pub open spec fn excerpt_chars() -> nat {
    180
}

impl PostTable {
    /// The creation date as `Mar 4, 2024` when `created_at` is RFC 3339, else
    /// `created_at` unchanged.
    pub fn date_label(&self) -> (label: String)
        ensures
            label@ == match rfc3339_reformatted(self.created_at@, label_format()) {
                Some(t) => t,
                None => self.created_at@,
            },
    {
        match reformat_rfc3339(self.created_at.as_str(), "%b %-d, %Y") {
            Some(t) => t,
            None => self.created_at.clone(),
        }
    }

    /// The plain-text excerpt of the post's markdown.
    pub fn excerpt(&self) -> (excerpt: String)
        ensures
            excerpt@ == excerpt_of(self.raw@, excerpt_chars()),
    {
        plain_excerpt(self.raw.as_str(), 180)
    }
}

/// A category as stored in the database.
#[derive(Debug, Clone)]
pub struct CategoryTable {
    pub id: i64,
    pub slug: String,
    pub title: String,
}

/// The body of a request that creates a post.
#[derive(Debug, Clone)]
pub struct CreatePost {
    pub title: String,
    pub category: String,
    pub content: String,
}

} // verus!
