use vstd::prelude::*;
use crate::error::{AppError, ErrorKind};
use crate::qiita_api::{QiitaItem, QiitaItemView, extract_item_id, item_id_of};

verus! {

/// An attribute of an element: namespace URI, if any, local name and value.
#[derive(Debug)]
pub struct XmlAttr {
    pub namespace: Option<String>,
    pub name: String,
    pub value: String,
}

/// One node of a parsed XML document, in document order. `parent` is the
/// index of the enclosing node; the document root is node 0 and has none.
#[derive(Debug)]
pub struct XmlNode {
    pub parent: Option<usize>,
    pub element: bool,
    /// Local name of an element (empty for other nodes).
    pub name: String,
    /// Attributes of an element, in document order.
    pub attrs: Vec<XmlAttr>,
    /// For an element, the text of its first child when that child is text.
    pub text: Option<String>,
}

/// The nodes of the XML document held in `s`, if it is well-formed XML.
pub uninterp spec fn xml_nodes(s: Seq<char>) -> Option<Seq<XmlNode>>;

/// `s` without leading and trailing white space.
pub uninterp spec fn trim_of(s: Seq<char>) -> Seq<char>;

/// Relies on roxmltree's `Document::parse` and its node accessors
/// (`parent`, `id`, `is_element`, `tag_name`, `attributes`, `text`); the nodes
/// come out of `descendants` of the root, which is document order.
#[verifier::external_body]
fn parse_xml(s: &str) -> (r: Option<Vec<XmlNode>>)
    ensures
        match r {
            Some(v) => xml_nodes(s@) == Some(v@),
            None => xml_nodes(s@) is None,
        },
{
    let doc = roxmltree::Document::parse(s).ok()?;
    Some(doc.root().descendants().map(|n| XmlNode {
        parent: n.parent().map(|p| p.id().get_usize()),
        element: n.is_element(),
        name: n.tag_name().name().to_string(),
        attrs: n.attributes().map(|a| XmlAttr {
            namespace: a.namespace().map(|u| u.to_string()),
            name: a.name().to_string(),
            value: a.value().to_string(),
        }).collect(),
        text: n.text().map(|t| t.to_string()),
    }).collect())
}

/// Relies on `str::trim`, which strips white space from both ends.
#[verifier::external_body]
pub(crate) fn trim_text(s: &str) -> (r: String)
    ensures
        r@ == trim_of(s@),
{
    s.trim().to_string()
}

/// Node `k` is an element named `tag` whose parent is node `p`.
pub open spec fn is_child_named(nodes: Seq<XmlNode>, p: int, k: int, tag: Seq<char>) -> bool {
    &&& 0 <= k < nodes.len()
    &&& nodes[k].parent == Some(p as usize)
    &&& nodes[k].element
    &&& nodes[k].name@ == tag
}

/// First child of node `p` named `tag`, from index `k` on.
pub open spec fn first_child_from(nodes: Seq<XmlNode>, p: int, tag: Seq<char>, k: int) -> Option<int>
    decreases nodes.len() - k,
{
    if k < 0 || k >= nodes.len() {
        None
    } else if is_child_named(nodes, p, k, tag) {
        Some(k)
    } else {
        first_child_from(nodes, p, tag, k + 1)
    }
}

/// Value of the first attribute without a namespace named `key`, from index `k` on.
pub open spec fn attr_from(attrs: Seq<XmlAttr>, key: Seq<char>, k: int) -> Option<Seq<char>>
    decreases attrs.len() - k,
{
    if k < 0 || k >= attrs.len() {
        None
    } else if attrs[k].namespace is None && attrs[k].name@ == key {
        Some(attrs[k].value@)
    } else {
        attr_from(attrs, key, k + 1)
    }
}

pub open spec fn attr_of(node: XmlNode, key: Seq<char>) -> Option<Seq<char>> {
    attr_from(node.attrs@, key, 0)
}

/// Trimmed text of the first child of `p` named `tag`, when not empty.
pub open spec fn child_text_of(nodes: Seq<XmlNode>, p: int, tag: Seq<char>) -> Option<Seq<char>> {
    match first_child_from(nodes, p, tag, 0) {
        Some(c) => match nodes[c].text {
            Some(t) => if trim_of(t@).len() > 0 {
                Some(trim_of(t@))
            } else {
                None
            },
            None => None,
        },
        None => None,
    }
}

/// Node `k` is a `link` child of `p` with `rel="alternate"`.
pub open spec fn is_alternate_link(nodes: Seq<XmlNode>, p: int, k: int) -> bool {
    is_child_named(nodes, p, k, "link"@) && attr_of(nodes[k], "rel"@) == Some("alternate"@)
}

pub open spec fn first_alternate_from(nodes: Seq<XmlNode>, p: int, k: int) -> Option<int>
    decreases nodes.len() - k,
{
    if k < 0 || k >= nodes.len() {
        None
    } else if is_alternate_link(nodes, p, k) {
        Some(k)
    } else {
        first_alternate_from(nodes, p, k + 1)
    }
}

/// `href` of the first alternate link of entry `e`.
pub open spec fn entry_link_of(nodes: Seq<XmlNode>, e: int) -> Option<Seq<char>> {
    match first_alternate_from(nodes, e, 0) {
        Some(l) => attr_of(nodes[l], "href"@),
        None => None,
    }
}

pub open spec fn author_of(nodes: Seq<XmlNode>, e: int) -> Option<Seq<char>> {
    match first_child_from(nodes, e, "author"@, 0) {
        Some(a) => child_text_of(nodes, a, "name"@),
        None => None,
    }
}

/// The item entry `e` describes; none without a title or an alternate link.
pub open spec fn entry_item_of(nodes: Seq<XmlNode>, e: int) -> Option<QiitaItemView> {
    match (child_text_of(nodes, e, "title"@), entry_link_of(nodes, e)) {
        (Some(title), Some(link)) => Some(
            QiitaItemView {
                item_id: item_id_of(link),
                title,
                link,
                summary: child_text_of(nodes, e, "content"@),
                published: child_text_of(nodes, e, "published"@),
                updated: child_text_of(nodes, e, "updated"@),
                author_name: author_of(nodes, e),
                likes_count: 0,
            },
        ),
        _ => None,
    }
}

/// Items of the `entry` children of `f` among the first `n` nodes, in order.
pub open spec fn entries_upto(nodes: Seq<XmlNode>, f: int, n: int) -> Seq<QiitaItemView>
    decreases n,
{
    if n <= 0 {
        Seq::empty()
    } else if is_child_named(nodes, f, n - 1, "entry"@) && entry_item_of(nodes, n - 1) is Some {
        entries_upto(nodes, f, n - 1).push(entry_item_of(nodes, n - 1).unwrap())
    } else {
        entries_upto(nodes, f, n - 1)
    }
}

/// Titles of the `entry` children of `f` among the first `n` nodes that give
/// no item (none where the title itself is missing), in order.
pub open spec fn skipped_upto(nodes: Seq<XmlNode>, f: int, n: int) -> Seq<Option<Seq<char>>>
    decreases n,
{
    if n <= 0 {
        Seq::empty()
    } else if is_child_named(nodes, f, n - 1, "entry"@) && entry_item_of(nodes, n - 1) is None {
        skipped_upto(nodes, f, n - 1).push(child_text_of(nodes, n - 1, "title"@))
    } else {
        skipped_upto(nodes, f, n - 1)
    }
}

/// First element named `feed`, from index `k` on.
pub open spec fn feed_from(nodes: Seq<XmlNode>, k: int) -> Option<int>
    decreases nodes.len() - k,
{
    if k < 0 || k >= nodes.len() {
        None
    } else if nodes[k].element && nodes[k].name@ == "feed"@ {
        Some(k)
    } else {
        feed_from(nodes, k + 1)
    }
}

/// The items of a feed document's nodes; none when there is no `feed` element.
pub open spec fn feed_items_of(nodes: Seq<XmlNode>) -> Option<Seq<QiitaItemView>> {
    match feed_from(nodes, 0) {
        Some(f) => Some(entries_upto(nodes, f, nodes.len() as int)),
        None => None,
    }
}

/// Titles of the skipped entries of a feed document's nodes.
pub open spec fn feed_skipped_of(nodes: Seq<XmlNode>) -> Seq<Option<Seq<char>>> {
    match feed_from(nodes, 0) {
        Some(f) => skipped_upto(nodes, f, nodes.len() as int),
        None => Seq::empty(),
    }
}

pub open spec fn views(items: Seq<QiitaItem>) -> Seq<QiitaItemView> {
    items.map_values(|i: QiitaItem| i@)
}

pub open spec fn title_views(titles: Seq<Option<String>>) -> Seq<Option<Seq<char>>> {
    titles.map_values(|t: Option<String>| crate::qiita_api::opt_view(t))
}

/// The items of a feed, and the titles of the entries skipped for want of a
/// title or an alternate link (none where the title is what is missing).
pub struct ParsedFeed {
    pub items: Vec<QiitaItem>,
    pub skipped: Vec<Option<String>>,
}

fn same_text(a: &String, b: &str) -> (r: bool)
    ensures
        r == (a@ == b@),
{
    *a == String::from_str(b)
}

fn find_child(nodes: &Vec<XmlNode>, p: usize, tag: &str) -> (r: Option<usize>)
    ensures
        match r {
            Some(c) => first_child_from(nodes@, p as int, tag@, 0) == Some(c as int),
            None => first_child_from(nodes@, p as int, tag@, 0) is None,
        },
{
    let mut k: usize = 0;
    while k < nodes.len()
        invariant
            first_child_from(nodes@, p as int, tag@, 0) == first_child_from(nodes@, p as int, tag@, k as int),
        decreases nodes.len() - k,
    {
        let n = &nodes[k];
        if n.parent == Some(p) && n.element && same_text(&n.name, tag) {
            return Some(k);
        }
        k = k + 1;
    }
    None
}

fn attribute(node: &XmlNode, key: &str) -> (r: Option<String>)
    ensures
        crate::qiita_api::opt_view(r) == attr_of(*node, key@),
{
    let mut k: usize = 0;
    while k < node.attrs.len()
        invariant
            attr_of(*node, key@) == attr_from(node.attrs@, key@, k as int),
        decreases node.attrs.len() - k,
    {
        if node.attrs[k].namespace.is_none() && same_text(&node.attrs[k].name, key) {
            return Some(node.attrs[k].value.clone());
        }
        k = k + 1;
    }
    None
}

fn child_text(nodes: &Vec<XmlNode>, p: usize, tag: &str) -> (r: Option<String>)
    ensures
        crate::qiita_api::opt_view(r) == child_text_of(nodes@, p as int, tag@),
{
    proof {
        lemma_first_child_in_range(nodes@, p as int, tag@, 0);
    }
    match find_child(nodes, p, tag) {
        Some(c) => match &nodes[c].text {
            Some(t) => {
                let trimmed = trim_text(t.as_str());
                if trimmed.as_str().unicode_len() > 0 {
                    Some(trimmed)
                } else {
                    None
                }
            },
            None => None,
        },
        None => None,
    }
}

proof fn lemma_first_child_in_range(nodes: Seq<XmlNode>, p: int, tag: Seq<char>, k: int)
    ensures
        first_child_from(nodes, p, tag, k) matches Some(c) ==> is_child_named(nodes, p, c, tag),
    decreases nodes.len() - k,
{
    if k < 0 || k >= nodes.len() {
    } else if is_child_named(nodes, p, k, tag) {
    } else {
        lemma_first_child_in_range(nodes, p, tag, k + 1);
    }
}

fn entry_link(nodes: &Vec<XmlNode>, e: usize) -> (r: Option<String>)
    ensures
        crate::qiita_api::opt_view(r) == entry_link_of(nodes@, e as int),
{
    let mut k: usize = 0;
    while k < nodes.len()
        invariant
            first_alternate_from(nodes@, e as int, 0) == first_alternate_from(nodes@, e as int, k as int),
        decreases nodes.len() - k,
    {
        let n = &nodes[k];
        if n.parent == Some(e) && n.element && same_text(&n.name, "link") {
            match attribute(n, "rel") {
                Some(rel) => {
                    if same_text(&rel, "alternate") {
                        return attribute(n, "href");
                    }
                },
                None => {},
            }
        }
        k = k + 1;
    }
    None
}

fn entry_item(nodes: &Vec<XmlNode>, e: usize) -> (r: Option<QiitaItem>)
    ensures
        match r {
            Some(i) => entry_item_of(nodes@, e as int) == Some(i@),
            None => entry_item_of(nodes@, e as int) is None,
        },
{
    let title = match child_text(nodes, e, "title") {
        Some(t) => t,
        None => return None,
    };
    let link = match entry_link(nodes, e) {
        Some(l) => l,
        None => return None,
    };
    let author_name = match find_child(nodes, e, "author") {
        Some(a) => {
            proof {
                lemma_first_child_in_range(nodes@, e as int, "author"@, 0);
            }
            child_text(nodes, a, "name")
        },
        None => None,
    };
    let item_id = extract_item_id(link.as_str());
    Some(
        QiitaItem {
            item_id,
            title,
            link,
            summary: child_text(nodes, e, "content"),
            published: child_text(nodes, e, "published"),
            updated: child_text(nodes, e, "updated"),
            author_name,
            likes_count: 0,
        },
    )
}

/// Items of the entries of the first `feed` element among `nodes`. An entry
/// without a non-empty title or without an alternate link is skipped.
pub fn parse_feed_nodes(nodes: &Vec<XmlNode>) -> (r: Result<ParsedFeed, AppError>)
    ensures
        match r {
            Ok(p) => feed_items_of(nodes@) == Some(views(p.items@)) && title_views(p.skipped@) == feed_skipped_of(nodes@),
            Err(e) => feed_items_of(nodes@) is None && e.kind == ErrorKind::Feed,
        },
{
    let mut f: usize = 0;
    while f < nodes.len()
        invariant
            f <= nodes.len(),
            feed_from(nodes@, 0) == feed_from(nodes@, f as int),
        ensures
            f <= nodes.len(),
            feed_from(nodes@, 0) == feed_from(nodes@, f as int),
            f < nodes.len() ==> nodes@[f as int].element && nodes@[f as int].name@ == "feed"@,
        decreases nodes.len() - f,
    {
        if nodes[f].element && same_text(&nodes[f].name, "feed") {
            break;
        }
        f = f + 1;
    }
    if f >= nodes.len() {
        return Err(AppError::feed(String::from_str("the feed has no feed element")));
    }
    let mut items: Vec<QiitaItem> = Vec::new();
    let mut skipped: Vec<Option<String>> = Vec::new();
    let mut k: usize = 0;
    while k < nodes.len()
        invariant
            feed_from(nodes@, 0) == Some(f as int),
            k <= nodes.len(),
            views(items@) == entries_upto(nodes@, f as int, k as int),
            title_views(skipped@) == skipped_upto(nodes@, f as int, k as int),
        decreases nodes.len() - k,
    {
        let n = &nodes[k];
        if n.parent == Some(f) && n.element && same_text(&n.name, "entry") {
            match entry_item(nodes, k) {
                Some(item) => {
                    let ghost before = items@;
                    items.push(item);
                    assert(views(items@) =~= views(before).push(item@));
                },
                None => {
                    let ghost before = skipped@;
                    let title = child_text(nodes, k, "title");
                    skipped.push(title);
                    assert(title_views(skipped@) =~= title_views(before).push(crate::qiita_api::opt_view(title)));
                },
            }
        }
        k = k + 1;
    }
    Ok(ParsedFeed { items, skipped })
}

/// Parses a feed document into its items.
///
/// Fails with a feed error when the text is not well-formed XML or holds no
/// `feed` element; entries that lack a title or an alternate link are skipped.
pub fn parse_feed_xml(xml: &str) -> (r: Result<ParsedFeed, AppError>)
    ensures
        match xml_nodes(xml@) {
            Some(nodes) => match r {
                Ok(p) => feed_items_of(nodes) == Some(views(p.items@)) && title_views(p.skipped@) == feed_skipped_of(nodes),
                Err(e) => feed_items_of(nodes) is None && e.kind == ErrorKind::Feed,
            },
            None => r matches Err(e) && e.kind == ErrorKind::Feed,
        },
{
    match parse_xml(xml) {
        Some(nodes) => parse_feed_nodes(&nodes),
        None => Err(AppError::feed(String::from_str("the feed is not well-formed XML"))),
    }
}

} // verus!
