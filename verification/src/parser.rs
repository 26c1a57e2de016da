//! Feed parsing: dialect detection (try Atom first, then RSS 2.0),
//! normalization of entries into canonical articles, and the stable
//! identity each article is keyed by.

use vstd::prelude::*;

use crate::date::{date_value_spec, normalize, ArticleDate};
use crate::state::{Article, ArticleView, Feed, FeedView, ParsedFeed, ParsedFeedView};
use crate::table::Table;
use crate::Millis;

verus! {

/// A document that matches neither dialect structurally.
#[derive(Clone, Copy, Debug, PartialEq, Eq, Structural)]
pub enum ParseError {
    UnrecognizedFormat,
}

/// The fields of one Atom `<entry>` the engine reads.
#[derive(Clone, Debug, PartialEq)]
pub struct AtomEntry {
    /// The entry's `<id>`, its stable identity.
    pub id: String,
    /// The entry's title, empty when absent.
    pub title: String,
    /// The `href` of the entry's first `<link>`, if any.
    pub link: Option<String>,
    /// The entry's `<published>` date, rendered in RFC 3339, if any.
    pub published: Option<String>,
}

/// Mathematical shape of an [`AtomEntry`].
#[verifier::ext_equal]
pub ghost struct AtomEntryView {
    pub id: Seq<char>,
    pub title: Seq<char>,
    pub link: Option<Seq<char>>,
    pub published: Option<Seq<char>>,
}

/// The fields of an Atom `<feed>` document the engine reads.
#[derive(Clone, Debug, PartialEq)]
pub struct AtomDoc {
    pub title: String,
    pub entries: Vec<AtomEntry>,
}

/// Mathematical shape of an [`AtomDoc`].
#[verifier::ext_equal]
pub ghost struct AtomDocView {
    pub title: Seq<char>,
    pub entries: Seq<AtomEntryView>,
}

/// The fields of one RSS 2.0 `<item>` the engine reads.
#[derive(Clone, Debug, PartialEq)]
pub struct RssItem {
    /// The item's `<guid>` value, if any.
    pub guid: Option<String>,
    /// The item's `<title>`, if any.
    pub title: Option<String>,
    /// The item's `<link>`, if any.
    pub link: Option<String>,
    /// The item's `<pubDate>`, if any.
    pub pub_date: Option<String>,
    /// The first Dublin Core date extension value, if any.
    pub dc_date: Option<String>,
}

/// Mathematical shape of an [`RssItem`].
#[verifier::ext_equal]
pub ghost struct RssItemView {
    pub guid: Option<Seq<char>>,
    pub title: Option<Seq<char>>,
    pub link: Option<Seq<char>>,
    pub pub_date: Option<Seq<char>>,
    pub dc_date: Option<Seq<char>>,
}

/// The fields of an RSS 2.0 `<channel>` the engine reads.
#[derive(Clone, Debug, PartialEq)]
pub struct RssDoc {
    pub title: String,
    pub items: Vec<RssItem>,
}

/// Mathematical shape of an [`RssDoc`].
#[verifier::ext_equal]
pub ghost struct RssDocView {
    pub title: Seq<char>,
    pub items: Seq<RssItemView>,
}

/// The view of an optional string.
pub open spec fn opt_text_view(o: Option<String>) -> Option<Seq<char>> {
    match o {
        Some(s) => Some(s@),
        None => None,
    }
}

impl View for AtomEntry {
    type V = AtomEntryView;

    open spec fn view(&self) -> AtomEntryView {
        AtomEntryView {
            id: self.id@,
            title: self.title@,
            link: opt_text_view(self.link),
            published: opt_text_view(self.published),
        }
    }
}

impl View for AtomDoc {
    type V = AtomDocView;

    open spec fn view(&self) -> AtomDocView {
        AtomDocView {
            title: self.title@,
            entries: self.entries@.map_values(|e: AtomEntry| e@),
        }
    }
}

impl View for RssItem {
    type V = RssItemView;

    open spec fn view(&self) -> RssItemView {
        RssItemView {
            guid: opt_text_view(self.guid),
            title: opt_text_view(self.title),
            link: opt_text_view(self.link),
            pub_date: opt_text_view(self.pub_date),
            dc_date: opt_text_view(self.dc_date),
        }
    }
}

impl View for RssDoc {
    type V = RssDocView;

    open spec fn view(&self) -> RssDocView {
        RssDocView { title: self.title@, items: self.items@.map_values(|i: RssItem| i@) }
    }
}

/// What interpreting a document as Atom yields; the result depends on
/// the document's characters alone.
pub uninterp spec fn atom_of(s: Seq<char>) -> Option<AtomDocView>;

/// What interpreting a document as RSS 2.0 yields; the result depends on
/// the document's characters alone.
pub uninterp spec fn rss_of(s: Seq<char>) -> Option<RssDocView>;

/// Relies on atom_syndication's `Feed::from_str`: reads a document as an
/// Atom feed, a function of the characters alone; the crate itself
/// parses each `<published>` date, which is rendered back in RFC 3339.
#[verifier::external_body]
fn read_atom(text: &str) -> (r: Option<AtomDoc>)
    ensures
        match r {
            Some(d) => atom_of(text@) == Some(d@),
            None => atom_of(text@) is None,
        },
{
    let feed = match <atom_syndication::Feed as std::str::FromStr>::from_str(text) {
        Ok(f) => f,
        Err(_) => return None,
    };
    Some(AtomDoc {
        title: feed.title().as_str().to_string(),
        entries: feed.entries().iter().map(|e| AtomEntry {
            id: e.id().to_string(),
            title: e.title().as_str().to_string(),
            link: e.links().get(0).map(|l| l.href().to_string()),
            published: e.published().map(|d| d.to_rfc3339()),
        }).collect(),
    })
}

/// Relies on rss's `Channel::from_str`: reads a document as an RSS 2.0
/// channel, a function of the characters alone; dates stay the raw
/// strings the document carried.
#[verifier::external_body]
fn read_rss(text: &str) -> (r: Option<RssDoc>)
    ensures
        match r {
            Some(d) => rss_of(text@) == Some(d@),
            None => rss_of(text@) is None,
        },
{
    let channel = match <rss::Channel as std::str::FromStr>::from_str(text) {
        Ok(c) => c,
        Err(_) => return None,
    };
    Some(RssDoc {
        title: channel.title().to_string(),
        items: channel.items().iter().map(|i| RssItem {
            guid: i.guid().map(|g| g.value().to_string()),
            title: i.title().map(str::to_string),
            link: i.link().map(str::to_string),
            pub_date: i.pub_date().map(str::to_string),
            dc_date: i.dublin_core_ext().and_then(|d| d.dates().get(0)).cloned(),
        }).collect(),
    })
}

/// The canonical article an Atom entry normalizes to: title as given,
/// first link or empty, date normalized with the fallback chain.
pub open spec fn atom_article_spec(e: AtomEntryView) -> ArticleView {
    ArticleView {
        title: e.title,
        date: date_value_spec(e.published),
        url: match e.link {
            Some(l) => l,
            None => Seq::<char>::empty(),
        },
    }
}

/// The date field an RSS item's normalization reads: `<pubDate>`, with
/// the Dublin Core date as the fallback when `<pubDate>` is absent.
pub open spec fn rss_date_field(i: RssItemView) -> Option<Seq<char>> {
    match i.pub_date {
        Some(d) => Some(d),
        None => i.dc_date,
    }
}

/// The canonical article an RSS item normalizes to: missing title or
/// link become empty, the date is normalized with the fallback chain.
pub open spec fn rss_article_spec(i: RssItemView) -> ArticleView {
    ArticleView {
        title: match i.title {
            Some(t) => t,
            None => Seq::<char>::empty(),
        },
        date: date_value_spec(rss_date_field(i)),
        url: match i.link {
            Some(l) => l,
            None => Seq::<char>::empty(),
        },
    }
}

/// The stable identity of an RSS item: its `<guid>` when present,
/// otherwise its link (empty when both are absent). Two distinct items
/// sharing a link collide; a documented limitation.
pub open spec fn rss_identity_spec(i: RssItemView) -> Seq<char> {
    match i.guid {
        Some(g) => g,
        None => match i.link {
            Some(l) => l,
            None => Seq::<char>::empty(),
        },
    }
}

/// The article mapping an Atom entry sequence yields, keyed by entry id;
/// a duplicated id collapses to the last-seen entry.
pub open spec fn atom_articles_spec(entries: Seq<AtomEntryView>) -> Map<Seq<char>, ArticleView>
    decreases entries.len(),
{
    if entries.len() == 0 {
        Map::empty()
    } else {
        atom_articles_spec(entries.drop_last()).insert(
            entries.last().id,
            atom_article_spec(entries.last()),
        )
    }
}

/// The article mapping an RSS item sequence yields, keyed by the item's
/// stable identity; a duplicated identity collapses to the last-seen item.
pub open spec fn rss_articles_spec(items: Seq<RssItemView>) -> Map<Seq<char>, ArticleView>
    decreases items.len(),
{
    if items.len() == 0 {
        Map::empty()
    } else {
        rss_articles_spec(items.drop_last()).insert(
            rss_identity_spec(items.last()),
            rss_article_spec(items.last()),
        )
    }
}

/// The parsed feed an Atom document yields.
pub open spec fn parsed_from_atom_spec(d: AtomDocView) -> ParsedFeedView {
    ParsedFeedView { title: d.title, article_map: atom_articles_spec(d.entries) }
}

/// The parsed feed an RSS document yields.
pub open spec fn parsed_from_rss_spec(d: RssDocView) -> ParsedFeedView {
    ParsedFeedView { title: d.title, article_map: rss_articles_spec(d.items) }
}

/// The whole parser: a document is interpreted as Atom when possible,
/// as RSS 2.0 otherwise, and rejected when it is neither.
pub open spec fn parse_spec(s: Seq<char>) -> Result<ParsedFeedView, ParseError> {
    if atom_of(s) is Some {
        Ok(parsed_from_atom_spec(atom_of(s)->Some_0))
    } else if rss_of(s) is Some {
        Ok(parsed_from_rss_spec(rss_of(s)->Some_0))
    } else {
        Err(ParseError::UnrecognizedFormat)
    }
}

impl Article {
    /// The canonical article of one Atom entry.
    pub fn from_atom(entry: &AtomEntry) -> (a: Article)
        ensures
            a@ == atom_article_spec(entry@),
    {
        let date = match &entry.published {
            Some(s) => match normalize(s.as_str()) {
                Ok(t) => ArticleDate::At(t),
                Err(_) => ArticleDate::Unknown,
            },
            None => ArticleDate::Unknown,
        };
        let url = match &entry.link {
            Some(l) => l.clone(),
            None => String::new(),
        };
        Article { title: entry.title.clone(), date, url }
    }

    /// The canonical article of one RSS item.
    pub fn from_rss(item: &RssItem) -> (a: Article)
        ensures
            a@ == rss_article_spec(item@),
    {
        let raw_date = match &item.pub_date {
            Some(d) => Some(d),
            None => match &item.dc_date {
                Some(d) => Some(d),
                None => None,
            },
        };
        let date = match raw_date {
            Some(s) => match normalize(s.as_str()) {
                Ok(t) => ArticleDate::At(t),
                Err(_) => ArticleDate::Unknown,
            },
            None => ArticleDate::Unknown,
        };
        let title = match &item.title {
            Some(t) => t.clone(),
            None => String::new(),
        };
        let url = match &item.link {
            Some(l) => l.clone(),
            None => String::new(),
        };
        Article { title, date, url }
    }
}

/// The stable identity of an RSS item (see [`rss_identity_spec`]).
pub fn rss_identity(item: &RssItem) -> (r: String)
    ensures
        r@ == rss_identity_spec(item@),
{
    match &item.guid {
        Some(g) => g.clone(),
        None => match &item.link {
            Some(l) => l.clone(),
            None => String::new(),
        },
    }
}

impl ParsedFeed {
    /// Normalizes a whole Atom document.
    #[verifier::loop_isolation(false)]
    pub fn from_atom(doc: &AtomDoc) -> (p: ParsedFeed)
        ensures
            p.wf(),
            p@ == parsed_from_atom_spec(doc@),
    {
        let mut article_map = Table::<Article>::new();
        let n = doc.entries.len();
        let mut i: usize = 0;
        while i < n
            invariant
                n == doc.entries@.len(),
                i <= n,
                article_map.wf(),
                article_map@ == atom_articles_spec(doc@.entries.take(i as int)),
            decreases n - i,
        {
            let entry = &doc.entries[i];
            let article = Article::from_atom(entry);
            proof {
                assert(doc@.entries.take(i as int + 1).drop_last() =~= doc@.entries.take(
                    i as int,
                ));
                assert(doc@.entries.take(i as int + 1).last() == doc@.entries[i as int]);
                assert(doc@.entries[i as int] == entry@);
            }
            article_map.insert(entry.id.clone(), article);
            i = i + 1;
        }
        proof {
            assert(doc@.entries.take(n as int) =~= doc@.entries);
        }
        ParsedFeed { title: doc.title.clone(), article_map }
    }

    /// Normalizes a whole RSS 2.0 document.
    #[verifier::loop_isolation(false)]
    pub fn from_rss(doc: &RssDoc) -> (p: ParsedFeed)
        ensures
            p.wf(),
            p@ == parsed_from_rss_spec(doc@),
    {
        let mut article_map = Table::<Article>::new();
        let n = doc.items.len();
        let mut i: usize = 0;
        while i < n
            invariant
                n == doc.items@.len(),
                i <= n,
                article_map.wf(),
                article_map@ == rss_articles_spec(doc@.items.take(i as int)),
            decreases n - i,
        {
            let item = &doc.items[i];
            let article = Article::from_rss(item);
            let id = rss_identity(item);
            proof {
                assert(doc@.items.take(i as int + 1).drop_last() =~= doc@.items.take(i as int));
                assert(doc@.items.take(i as int + 1).last() == doc@.items[i as int]);
                assert(doc@.items[i as int] == item@);
            }
            article_map.insert(id, article);
            i = i + 1;
        }
        proof {
            assert(doc@.items.take(n as int) =~= doc@.items);
        }
        ParsedFeed { title: doc.title.clone(), article_map }
    }
}

/// Parses a raw feed document: Atom is attempted first, RSS 2.0 second,
/// and a document matching neither is rejected — exactly when
/// [`parse_spec`] says so.
pub fn parse(text: &str) -> (r: Result<ParsedFeed, ParseError>)
    ensures
        match r {
            Ok(p) => p.wf() && parse_spec(text@) == Ok::<ParsedFeedView, ParseError>(p@),
            Err(e) => parse_spec(text@) == Err::<ParsedFeedView, ParseError>(e),
        },
{
    if let Some(doc) = read_atom(text) {
        Ok(ParsedFeed::from_atom(&doc))
    } else if let Some(doc) = read_rss(text) {
        Ok(ParsedFeed::from_rss(&doc))
    } else {
        Err(ParseError::UnrecognizedFormat)
    }
}

impl Feed {
    /// A brand-new feed built from an Atom document: fresh articles,
    /// visible, stamped with the caller's clock reading.
    pub fn from_atom(url: String, atom: &AtomDoc, now: Millis) -> (f: Feed)
        ensures
            f.wf(),
            f@ == (FeedView {
                title: atom@.title,
                url: url@,
                article_map: atom_articles_spec(atom@.entries),
                updated: now,
                visible: true,
            }),
    {
        let parsed = ParsedFeed::from_atom(atom);
        Feed { title: parsed.title, url, article_map: parsed.article_map, updated: now, visible: true }
    }

    /// A brand-new feed built from an RSS 2.0 document: fresh articles,
    /// visible, stamped with the caller's clock reading.
    pub fn from_rss(url: String, channel: &RssDoc, now: Millis) -> (f: Feed)
        ensures
            f.wf(),
            f@ == (FeedView {
                title: channel@.title,
                url: url@,
                article_map: rss_articles_spec(channel@.items),
                updated: now,
                visible: true,
            }),
    {
        let parsed = ParsedFeed::from_rss(channel);
        Feed { title: parsed.title, url, article_map: parsed.article_map, updated: now, visible: true }
    }
}

} // verus!
