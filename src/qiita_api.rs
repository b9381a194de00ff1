use vstd::prelude::*;
use crate::error::{AppError, ErrorKind};
use crate::text::{occurs_at, before_first, find_first, find_text, lemma_find_from_occurs, text_before};

verus! {

/// Address of the endpoint that lists the likes of an item.
pub open spec fn likes_url_of(item_id: Seq<char>) -> Seq<char> {
    "https://qiita.com/api/v2/items/"@ + item_id + "/likes"@
}

pub fn likes_url(item_id: &str) -> (r: String)
    ensures
        r@ == likes_url_of(item_id@),
{
    String::from_str("https://qiita.com/api/v2/items/").concat(item_id).concat("/likes")
}

pub open spec fn opt_view(o: Option<String>) -> Option<Seq<char>> {
    match o {
        Some(s) => Some(s@),
        None => None,
    }
}

pub fn clone_opt(o: &Option<String>) -> (r: Option<String>)
    ensures
        opt_view(r) == opt_view(*o),
{
    match o {
        Some(s) => Some(s.clone()),
        None => None,
    }
}

/// One entry of the fetched feed.
#[derive(Debug, Clone)]
pub struct QiitaItem {
    pub item_id: Option<String>,
    pub title: String,
    pub link: String,
    pub summary: Option<String>,
    pub published: Option<String>,
    pub updated: Option<String>,
    pub author_name: Option<String>,
    pub likes_count: u32,
}

pub struct QiitaItemView {
    pub item_id: Option<Seq<char>>,
    pub title: Seq<char>,
    pub link: Seq<char>,
    pub summary: Option<Seq<char>>,
    pub published: Option<Seq<char>>,
    pub updated: Option<Seq<char>>,
    pub author_name: Option<Seq<char>>,
    pub likes_count: u32,
}

impl View for QiitaItem {
    type V = QiitaItemView;

    open spec fn view(&self) -> QiitaItemView {
        QiitaItemView {
            item_id: opt_view(self.item_id),
            title: self.title@,
            link: self.link@,
            summary: opt_view(self.summary),
            published: opt_view(self.published),
            updated: opt_view(self.updated),
            author_name: opt_view(self.author_name),
            likes_count: self.likes_count,
        }
    }
}

impl QiitaItem {
    pub fn copy(&self) -> (r: QiitaItem)
        ensures
            r@ == self@,
    {
        QiitaItem {
            item_id: clone_opt(&self.item_id),
            title: self.title.clone(),
            link: self.link.clone(),
            summary: clone_opt(&self.summary),
            published: clone_opt(&self.published),
            updated: clone_opt(&self.updated),
            author_name: clone_opt(&self.author_name),
            likes_count: self.likes_count,
        }
    }
}

/// The path segment that precedes an item's id in its link.
pub open spec fn items_marker() -> Seq<char> {
    "/items/"@
}

/// The item id a link names: the text after the first `/items/`, up to a `?`
/// or `#`, when that text is not empty.
pub open spec fn item_id_of(link: Seq<char>) -> Option<Seq<char>> {
    match find_first(link, items_marker()) {
        Some(p) => {
            let id = before_first(before_first(link.subrange(p + 7, link.len() as int), "?"@), "#"@);
            if id.len() == 0 {
                None
            } else {
                Some(id)
            }
        },
        None => None,
    }
}

/// Item id named by a link such as `https://host/alice/items/abc123?ref=x`.
pub fn extract_item_id(link: &str) -> (r: Option<String>)
    ensures
        opt_view(r) == item_id_of(link@),
{
    let marker = "/items/";
    proof {
        reveal_strlit("/items/");
        lemma_find_from_occurs(link@, marker@, 0);
    }
    match find_text(link, marker) {
        Some(p) => {
            assert(marker@.len() == 7);
            assert(occurs_at(link@, marker@, p as int));
            let len = link.unicode_len();
            let rest = link.substring_char(p + 7, len);
            let no_query = text_before(rest, "?");
            let id = text_before(no_query.as_str(), "#");
            if id.unicode_len() == 0 {
                None
            } else {
                Some(id)
            }
        },
        None => None,
    }
}

/// Attaches the counted likes to `item`; the item is kept for merging when
/// the count reaches `min_likes`.
pub fn attach_likes(item: &mut QiitaItem, likes: u32, min_likes: u32) -> (keep: bool)
    ensures
        final(item)@ == (QiitaItemView { likes_count: likes, ..old(item)@ }),
        keep == (likes >= min_likes),
{
    item.likes_count = likes;
    likes >= min_likes
}

} // verus!
