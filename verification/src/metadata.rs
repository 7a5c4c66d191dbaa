//! Page metadata as the service hands it out, and its mathematical view.

use vstd::prelude::*;

verus! {

/// One `<meta>` element of a page: its name and its content.
#[derive(Debug, PartialEq, Eq)]
pub struct Metatag {
    pub name: String,
    pub content: String,
}

/// What a page says about itself. Every field is optional; `metatags` keeps document
/// order and keeps duplicates.
#[derive(Debug, PartialEq, Eq)]
pub struct MetaData {
    pub title: Option<String>,
    pub description: Option<String>,
    pub canonical: Option<String>,
    pub language: Option<String>,
    pub rss: Option<String>,
    pub image: Option<String>,
    pub amp: Option<String>,
    pub author: Option<String>,
    pub date: Option<String>,
    pub metatags: Option<Vec<Metatag>>,
}

/// A [`Metatag`] as a pair of character sequences.
pub struct MetatagView {
    pub name: Seq<char>,
    pub content: Seq<char>,
}

/// A [`MetaData`] as character sequences.
pub struct MetaDataView {
    pub title: Option<Seq<char>>,
    pub description: Option<Seq<char>>,
    pub canonical: Option<Seq<char>>,
    pub language: Option<Seq<char>>,
    pub rss: Option<Seq<char>>,
    pub image: Option<Seq<char>>,
    pub amp: Option<Seq<char>>,
    pub author: Option<Seq<char>>,
    pub date: Option<Seq<char>>,
    pub metatags: Option<Seq<MetatagView>>,
}

/// The characters of an optional string.
pub open spec fn text_of(field: Option<String>) -> Option<Seq<char>> {
    match field {
        Some(s) => Some(s@),
        None => None,
    }
}

/// The views of an optional list of tags, in order.
pub open spec fn tags_of(field: Option<Vec<Metatag>>) -> Option<Seq<MetatagView>> {
    match field {
        Some(tags) => Some(tags@.map_values(|t: Metatag| t@)),
        None => None,
    }
}

impl View for Metatag {
    type V = MetatagView;

    open spec fn view(&self) -> MetatagView {
        MetatagView { name: self.name@, content: self.content@ }
    }
}

impl View for MetaData {
    type V = MetaDataView;

    open spec fn view(&self) -> MetaDataView {
        MetaDataView {
            title: text_of(self.title),
            description: text_of(self.description),
            canonical: text_of(self.canonical),
            language: text_of(self.language),
            rss: text_of(self.rss),
            image: text_of(self.image),
            amp: text_of(self.amp),
            author: text_of(self.author),
            date: text_of(self.date),
            metatags: tags_of(self.metatags),
        }
    }
}

/// A copy of an optional string.
fn copy_text(field: &Option<String>) -> (r: Option<String>)
    ensures
        r == *field,
{
    match field {
        Some(s) => Some(s.clone()),
        None => None,
    }
}

/// A copy of a list of tags, in the same order.
fn copy_tags(tags: &Vec<Metatag>) -> (r: Vec<Metatag>)
    ensures
        r@ == tags@,
{
    let mut out: Vec<Metatag> = Vec::new();
    let mut i: usize = 0;
    while i < tags.len()
        invariant
            i <= tags.len(),
            out@ == tags@.subrange(0, i as int),
        decreases tags.len() - i,
    {
        out.push(tags[i].clone());
        i = i + 1;
    }
    out
}

impl Clone for Metatag {
    fn clone(&self) -> (r: Self)
        ensures
            r == *self,
    {
        Metatag { name: self.name.clone(), content: self.content.clone() }
    }
}

impl Clone for MetaData {
    fn clone(&self) -> (r: Self)
        ensures
            r@ == self@,
    {
        let metatags = match &self.metatags {
            Some(tags) => Some(copy_tags(tags)),
            None => None,
        };
        MetaData {
            title: copy_text(&self.title),
            description: copy_text(&self.description),
            canonical: copy_text(&self.canonical),
            language: copy_text(&self.language),
            rss: copy_text(&self.rss),
            image: copy_text(&self.image),
            amp: copy_text(&self.amp),
            author: copy_text(&self.author),
            date: copy_text(&self.date),
            metatags,
        }
    }
}

} // verus!
