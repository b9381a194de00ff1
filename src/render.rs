use vstd::prelude::*;
use crate::config::{normalize_site_url, without_trailing_slashes};
use crate::qiita_api::opt_view;
use crate::state::{StoredItem, StoredItemView};
use crate::select::{effective_time, select_updated_time};
use crate::time::{Timestamp, earlier, is_earlier, year_text, year_text_of};
use crate::text::{before_first, decimal, decimal_text, find_first, find_text, join2, lemma_find_from_occurs, text_before};

verus! {

/// What one character becomes in HTML text.
pub open spec fn escape_char(c: char) -> Seq<char> {
    if c == '&' {
        "&amp;"@
    } else if c == '<' {
        "&lt;"@
    } else if c == '>' {
        "&gt;"@
    } else if c == '"' {
        "&quot;"@
    } else if c == '\'' {
        "&#39;"@
    } else {
        seq![c]
    }
}

/// `s` with each character escaped for HTML.
pub open spec fn escaped(s: Seq<char>) -> Seq<char>
    decreases s.len(),
{
    if s.len() == 0 {
        Seq::empty()
    } else {
        escaped(s.drop_last()) + escape_char(s.last())
    }
}

/// Escapes `&`, `<`, `>`, `"` and `'` for HTML text and attribute values.
pub fn escape_html(value: &str) -> (r: String)
    ensures
        r@ == escaped(value@),
{
    let len = value.unicode_len();
    let mut out = String::new();
    let mut i: usize = 0;
    while i < len
        invariant
            len == value@.len(),
            i <= len,
            out@ == escaped(value@.subrange(0, i as int)),
        decreases len - i,
    {
        let c = value.get_char(i);
        let piece: &str = if c == '&' {
            "&amp;"
        } else if c == '<' {
            "&lt;"
        } else if c == '>' {
            "&gt;"
        } else if c == '"' {
            "&quot;"
        } else if c == '\'' {
            "&#39;"
        } else {
            value.substring_char(i, i + 1)
        };
        assert(piece@ == escape_char(c)) by {
            if c != '&' && c != '<' && c != '>' && c != '"' && c != '\'' {
                assert(value@.subrange(i as int, i + 1) =~= seq![c]);
            }
        }
        out.append(piece);
        assert(value@.subrange(0, i + 1).drop_last() =~= value@.subrange(0, i as int));
        i = i + 1;
    }
    assert(value@.subrange(0, len as int) =~= value@);
    out
}

/// `s` without its leading slashes.
pub open spec fn without_leading_slashes(s: Seq<char>) -> Seq<char>
    decreases s.len(),
{
    if s.len() > 0 && s[0] == '/' {
        without_leading_slashes(s.drop_first())
    } else {
        s
    }
}

/// Address of `path` under `base`, with exactly one slash between them; `path`
/// alone when `base` is empty.
pub open spec fn url_of(base: Seq<char>, path: Seq<char>) -> Seq<char> {
    if base.len() == 0 {
        path
    } else {
        without_trailing_slashes(base) + "/"@ + without_leading_slashes(path)
    }
}

pub fn build_url(base: &str, path: &str) -> (r: String)
    ensures
        r@ == url_of(base@, path@),
{
    if base.unicode_len() == 0 {
        return String::from_str(path);
    }
    let len = path.unicode_len();
    let mut start: usize = 0;
    assert(path@.subrange(0, len as int) =~= path@);
    while start < len && path.get_char(start) == '/'
        invariant
            len == path@.len(),
            start <= len,
            without_leading_slashes(path@) == without_leading_slashes(path@.subrange(start as int, len as int)),
        decreases len - start,
    {
        assert(path@.subrange(start as int, len as int).drop_first() =~= path@.subrange(start + 1, len as int));
        start = start + 1;
    }
    let head = normalize_site_url(base);
    head.concat("/").concat(path.substring_char(start, len))
}

/// Scanning the `/`-separated segments of `rest`, after a segment `prev`: the
/// segment just before the first segment `items`.
pub open spec fn username_from(rest: Seq<char>, prev: Option<Seq<char>>) -> Option<Seq<char>>
    decreases rest.len(),
{
    if before_first(rest, "/"@) == "items"@ {
        prev
    } else {
        match find_first(rest, "/"@) {
            Some(p) => if 0 <= p < rest.len() {
                username_from(rest.subrange(p + 1, rest.len() as int), Some(before_first(rest, "/"@)))
            } else {
                None
            },
            None => None,
        }
    }
}

/// The user a link such as `https://qiita.com/alice/items/abc` belongs to:
/// the path segment before `items`, ignoring the query and trailing slashes.
pub open spec fn username_of(link: Seq<char>) -> Option<Seq<char>> {
    username_from(without_trailing_slashes(before_first(link, "?"@)), None)
}

pub fn extract_username(link: &str) -> (r: Option<String>)
    ensures
        opt_view(r) == username_of(link@),
{
    let no_query = text_before(link, "?");
    let mut rest = normalize_site_url(no_query.as_str());
    let mut prev: Option<String> = None;
    proof {
        reveal_strlit("/");
    }
    loop
        invariant
            username_of(link@) == username_from(rest@, opt_view(prev)),
        decreases rest@.len(),
    {
        let seg = text_before(rest.as_str(), "/");
        if seg == String::from_str("items") {
            return prev;
        }
        proof {
            reveal_strlit("/");
            lemma_find_from_occurs(rest@, "/"@, 0);
        }
        match find_text(rest.as_str(), "/") {
            Some(p) => {
                let len = rest.as_str().unicode_len();
                assert(crate::text::occurs_at(rest@, "/"@, p as int));
                let next = String::from_str(rest.as_str().substring_char(p + 1, len));
                prev = Some(seg);
                rest = next;
            },
            None => return None,
        }
    }
}

pub open spec fn or_text(o: Option<Seq<char>>, fallback: Seq<char>) -> Seq<char> {
    match o {
        Some(v) => v,
        None => fallback,
    }
}

pub open spec fn author_html(r: StoredItemView) -> Seq<char> {
    match (r.author_name, username_of(r.link)) {
        (Some(name), Some(user)) => "Author: <a href=\"https://qiita.com/"@ + user + "\">"@ + name + "</a>"@,
        (Some(name), None) => "Author: "@ + name,
        _ => "Author: unknown"@,
    }
}

/// The HTML summary of a record: likes, author, times and content.
pub open spec fn summary_html_of(r: StoredItemView) -> Seq<char> {
    "Likes: "@ + decimal(r.likes_count as nat) + "<br/>"@ + author_html(r) + "<br/>Published: "@
        + or_text(r.published, "unknown"@) + "<br/>Updated: "@ + or_text(r.updated, "unknown"@)
        + "<br/>"@ + or_text(r.summary, "(no content)"@)
}

fn text_or(o: &Option<String>, fallback: &str) -> (r: String)
    ensures
        r@ == or_text(opt_view(*o), fallback@),
{
    match o {
        Some(v) => v.clone(),
        None => String::from_str(fallback),
    }
}

pub fn build_summary_html(item: &StoredItem) -> (r: String)
    ensures
        r@ == summary_html_of(item@),
{
    let author = match (&item.author_name, extract_username(item.link.as_str())) {
        (Some(name), Some(user)) => String::from_str("Author: <a href=\"https://qiita.com/").concat(
            user.as_str(),
        ).concat("\">").concat(name.as_str()).concat("</a>"),
        (Some(name), None) => join2("Author: ", name.as_str()),
        _ => String::from_str("Author: unknown"),
    };
    let likes = join2("Likes: ", decimal_text(item.likes_count as u64).as_str());
    let published = text_or(&item.published, "unknown");
    let updated = text_or(&item.updated, "unknown");
    let content = text_or(&item.summary, "(no content)");
    likes.concat("<br/>").concat(author.as_str()).concat("<br/>Published: ").concat(
        published.as_str(),
    ).concat("<br/>Updated: ").concat(updated.as_str()).concat("<br/>").concat(content.as_str())
}

/// One entry of the published feed.
pub struct FeedEntry {
    pub id: String,
    pub title: String,
    pub link: String,
    pub updated: Timestamp,
    pub summary_html: String,
}

pub struct FeedEntryView {
    pub id: Seq<char>,
    pub title: Seq<char>,
    pub link: Seq<char>,
    pub updated: Timestamp,
    pub summary_html: Seq<char>,
}

impl View for FeedEntry {
    type V = FeedEntryView;

    open spec fn view(&self) -> FeedEntryView {
        FeedEntryView {
            id: self.id@,
            title: self.title@,
            link: self.link@,
            updated: self.updated,
            summary_html: self.summary_html@,
        }
    }
}

/// Tag URI of an entry: `tag:qiita.com,<year>:<item id>`, with `unknown`
/// for a record without an item id.
pub open spec fn entry_id_of(item_id: Option<Seq<char>>, year: Seq<char>) -> Seq<char> {
    "tag:qiita.com,"@ + year + ":"@ + or_text(item_id, "unknown"@)
}

pub fn build_entry_id(item: &StoredItem, now: Timestamp) -> (r: String)
    requires
        now.in_range(),
    ensures
        r@ == entry_id_of(item@.item_id, year_text_of(now)),
{
    let year = year_text(now);
    let id = text_or(&item.item_id, "unknown");
    String::from_str("tag:qiita.com,").concat(year.as_str()).concat(":").concat(id.as_str())
}

/// The feed entry of a record, built at `now`; a record without an effective
/// time is dated `now`.
pub open spec fn entry_of(r: StoredItemView, now: Timestamp) -> FeedEntryView {
    FeedEntryView {
        id: entry_id_of(r.item_id, year_text_of(now)),
        title: r.title,
        link: r.link,
        updated: match effective_time(r) {
            Some(t) => t,
            None => now,
        },
        summary_html: summary_html_of(r),
    }
}

/// The feed entries of the records, in the same order.
pub fn build_entries(items: &Vec<StoredItem>, now: Timestamp) -> (r: Vec<FeedEntry>)
    requires
        now.in_range(),
    ensures
        r@.len() == items@.len(),
        forall|i: int| 0 <= i < items@.len() ==> #[trigger] r@[i]@ == entry_of(items@[i]@, now),
{
    let mut out: Vec<FeedEntry> = Vec::new();
    let mut i: usize = 0;
    while i < items.len()
        invariant
            now.in_range(),
            i <= items@.len(),
            out@.len() == i,
            forall|k: int| 0 <= k < i ==> #[trigger] out@[k]@ == entry_of(items@[k]@, now),
        decreases items.len() - i,
    {
        let item = &items[i];
        let updated = match select_updated_time(item) {
            Some(t) => t,
            None => now,
        };
        let entry = FeedEntry {
            id: build_entry_id(item, now),
            title: item.title.clone(),
            link: item.link.clone(),
            updated,
            summary_html: build_summary_html(item),
        };
        out.push(entry);
        i = i + 1;
    }
    out
}

/// Time of the feed as a whole: the latest entry time, or `now` without entries.
pub fn default_feed_updated(entries: &Vec<FeedEntry>, now: Timestamp) -> (r: Timestamp)
    ensures
        entries@.len() == 0 ==> r == now,
        entries@.len() > 0 ==> exists|i: int| 0 <= i < entries@.len() && r == #[trigger] entries@[i].updated,
        forall|i: int| 0 <= i < entries@.len() ==> !earlier(r, #[trigger] entries@[i].updated),
{
    if entries.len() == 0 {
        return now;
    }
    let mut best = entries[0].updated;
    let mut i: usize = 1;
    while i < entries.len()
        invariant
            1 <= i <= entries@.len(),
            exists|k: int| 0 <= k < i && best == #[trigger] entries@[k].updated,
            forall|k: int| 0 <= k < i ==> !earlier(best, #[trigger] entries@[k].updated),
        decreases entries.len() - i,
    {
        if is_earlier(best, entries[i].updated) {
            best = entries[i].updated;
        }
        i = i + 1;
    }
    best
}

} // verus!
