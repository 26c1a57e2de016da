//! A lossless byte codec for the application state, used for
//! user-initiated backup and restore and for the persisted snapshot.
//! Little-endian fixed-width integers, length-prefixed text encoded one
//! scalar value per four bytes, and a tag byte per enum variant; the
//! decoder checks every invariant the state relies on, so anything it
//! accepts is a well-formed state.

use vstd::prelude::*;

use crate::date::{ArticleDate, Timestamp};
use crate::state::{Article, ArticleView, Feed, State};
use crate::table::Table;

verus! {

/// A feed as it is laid out in storage: the article table spelled out
/// as ordered key-article pairs.
#[verifier::ext_equal]
pub ghost struct FeedRep {
    pub title: Seq<char>,
    pub url: Seq<char>,
    pub articles: Seq<(Seq<char>, ArticleView)>,
    pub updated: i64,
    pub visible: bool,
}

/// A state as it is laid out in storage: the feed table spelled out as
/// ordered key-feed pairs.
#[verifier::ext_equal]
pub ghost struct StateRep {
    pub new_feed_url: Seq<char>,
    pub feeds: Seq<(Seq<char>, FeedRep)>,
}

impl Feed {
    /// The storage layout of this feed.
    pub open spec fn rep(self) -> FeedRep {
        FeedRep {
            title: self.title@,
            url: self.url@,
            articles: self.article_map.pairs(),
            updated: self.updated,
            visible: self.visible,
        }
    }
}

/// The storage layout of a raw feed-pair sequence.
pub open spec fn feeds_rep_of(es: Seq<(String, Feed)>) -> Seq<(Seq<char>, FeedRep)> {
    es.map_values(|p: (String, Feed)| (p.0@, p.1.rep()))
}

impl State {
    /// The storage layout of this state.
    pub open spec fn rep(self) -> StateRep {
        StateRep {
            new_feed_url: self.new_feed_url@,
            feeds: feeds_rep_of(self.feed_map.entries@),
        }
    }
}

/// No key occurs twice in a pair sequence.
pub open spec fn rep_keys_distinct<T>(ps: Seq<(Seq<char>, T)>) -> bool {
    forall|i: int, j: int| 0 <= i < j < ps.len() ==> ps[i].0 != ps[j].0
}

/// The text's length fits the 64-bit length prefix.
pub open spec fn text_fits(s: Seq<char>) -> bool {
    s.len() <= u64::MAX
}

/// Every length in the article fits its prefix.
pub open spec fn article_fits(a: ArticleView) -> bool {
    text_fits(a.title) && text_fits(a.url)
}

/// Every length in an identity-article pair fits its prefix.
pub open spec fn article_pair_fits(p: (Seq<char>, ArticleView)) -> bool {
    text_fits(p.0) && article_fits(p.1)
}

/// The pair of a URL and a feed layout is one the decoder accepts.
pub open spec fn feed_pair_fits(p: (Seq<char>, FeedRep)) -> bool {
    text_fits(p.0) && feed_rep_wf(p.1)
}

/// The feed layout the decoder accepts: lengths in range and article
/// identities unique.
pub open spec fn feed_rep_wf(f: FeedRep) -> bool {
    &&& text_fits(f.title)
    &&& text_fits(f.url)
    &&& f.articles.len() <= u64::MAX
    &&& rep_keys_distinct(f.articles)
    &&& forall|i: int|
        0 <= i < f.articles.len() ==> text_fits(#[trigger] f.articles[i].0) && article_fits(
            f.articles[i].1,
        )
}

/// The state layout the decoder accepts: lengths in range, source URLs
/// unique, and every feed stored under its own URL.
pub open spec fn state_rep_wf(s: StateRep) -> bool {
    &&& text_fits(s.new_feed_url)
    &&& s.feeds.len() <= u64::MAX
    &&& rep_keys_distinct(s.feeds)
    &&& forall|i: int|
        0 <= i < s.feeds.len() ==> feed_rep_wf(#[trigger] s.feeds[i].1) && s.feeds[i].1.url
            == s.feeds[i].0
}

// ---------------------------------------------------------------------
// Encoding
// ---------------------------------------------------------------------

/// A 64-bit integer as eight bytes, least significant first.
pub open spec fn ser_u64(v: u64) -> Seq<u8> {
    seq![
        (v & 0xff) as u8,
        ((v >> 8) & 0xff) as u8,
        ((v >> 16) & 0xff) as u8,
        ((v >> 24) & 0xff) as u8,
        ((v >> 32) & 0xff) as u8,
        ((v >> 40) & 0xff) as u8,
        ((v >> 48) & 0xff) as u8,
        ((v >> 56) & 0xff) as u8,
    ]
}

/// A 32-bit integer as four bytes, least significant first.
pub open spec fn ser_u32(v: u32) -> Seq<u8> {
    seq![
        (v & 0xff) as u8,
        ((v >> 8) & 0xff) as u8,
        ((v >> 16) & 0xff) as u8,
        ((v >> 24) & 0xff) as u8,
    ]
}

/// A signed 64-bit integer, encoded by its two's-complement bits.
pub open spec fn ser_i64(v: i64) -> Seq<u8> {
    ser_u64(v as u64)
}

/// A signed 32-bit integer, encoded by its two's-complement bits.
pub open spec fn ser_i32(v: i32) -> Seq<u8> {
    ser_u32(v as u32)
}

/// A boolean as one byte, one for true.
pub open spec fn ser_bool(b: bool) -> Seq<u8> {
    seq![if b { 1u8 } else { 0u8 }]
}

/// Text characters in order, each as its scalar value in four bytes.
pub open spec fn ser_chars(s: Seq<char>) -> Seq<u8>
    decreases s.len(),
{
    if s.len() == 0 {
        Seq::empty()
    } else {
        ser_chars(s.drop_last()) + ser_u32(s.last() as u32)
    }
}

/// Text: a 64-bit character count, then the characters.
pub open spec fn ser_text(s: Seq<char>) -> Seq<u8> {
    ser_u64(s.len() as u64) + ser_chars(s)
}

/// A publication date: tag one plus instant, or tag zero for unknown.
pub open spec fn ser_date(d: ArticleDate) -> Seq<u8> {
    match d {
        ArticleDate::At(t) => seq![1u8] + ser_i64(t.secs) + ser_i32(t.offset_secs),
        ArticleDate::Unknown => seq![0u8],
    }
}

/// An article: title, date, url.
pub open spec fn ser_article(a: ArticleView) -> Seq<u8> {
    ser_text(a.title) + ser_date(a.date) + ser_text(a.url)
}

/// Identity-article pairs in order.
pub open spec fn ser_article_pairs(ps: Seq<(Seq<char>, ArticleView)>) -> Seq<u8>
    decreases ps.len(),
{
    if ps.len() == 0 {
        Seq::empty()
    } else {
        ser_article_pairs(ps.drop_last()) + ser_text(ps.last().0) + ser_article(ps.last().1)
    }
}

/// A feed: title, url, clock reading, visibility, article count, then
/// the identity-article pairs.
pub open spec fn ser_feed(f: FeedRep) -> Seq<u8> {
    ser_text(f.title) + ser_text(f.url) + ser_i64(f.updated) + ser_bool(f.visible) + ser_u64(
        f.articles.len() as u64,
    ) + ser_article_pairs(f.articles)
}

/// URL-feed pairs in order.
pub open spec fn ser_feed_pairs(ps: Seq<(Seq<char>, FeedRep)>) -> Seq<u8>
    decreases ps.len(),
{
    if ps.len() == 0 {
        Seq::empty()
    } else {
        ser_feed_pairs(ps.drop_last()) + ser_text(ps.last().0) + ser_feed(ps.last().1)
    }
}

/// A whole state: pending input text, feed count, then the URL-feed
/// pairs.
pub open spec fn ser_state(s: StateRep) -> Seq<u8> {
    ser_text(s.new_feed_url) + ser_u64(s.feeds.len() as u64) + ser_feed_pairs(s.feeds)
}

// ---------------------------------------------------------------------
// Decoding
// ---------------------------------------------------------------------

/// One byte at a position, with the next position.
pub open spec fn deser_u8(b: Seq<u8>, pos: int) -> Option<(u8, int)> {
    if 0 <= pos && pos + 1 <= b.len() {
        Some((b[pos], pos + 1))
    } else {
        None
    }
}

/// Eight bytes read back as a 64-bit integer, least significant first.
pub open spec fn deser_u64(b: Seq<u8>, pos: int) -> Option<(u64, int)> {
    if 0 <= pos && pos + 8 <= b.len() {
        Some(
            (
                (b[pos] as u64) | ((b[pos + 1] as u64) << 8) | ((b[pos + 2] as u64) << 16) | ((b[pos
                    + 3] as u64) << 24) | ((b[pos + 4] as u64) << 32) | ((b[pos + 5] as u64) << 40)
                    | ((b[pos + 6] as u64) << 48) | ((b[pos + 7] as u64) << 56),
                pos + 8,
            ),
        )
    } else {
        None
    }
}

/// Four bytes read back as a 32-bit integer, least significant first.
pub open spec fn deser_u32(b: Seq<u8>, pos: int) -> Option<(u32, int)> {
    if 0 <= pos && pos + 4 <= b.len() {
        Some(
            (
                (b[pos] as u32) | ((b[pos + 1] as u32) << 8) | ((b[pos + 2] as u32) << 16) | ((b[pos
                    + 3] as u32) << 24),
                pos + 4,
            ),
        )
    } else {
        None
    }
}

/// A signed 64-bit integer read back from its two's-complement bits.
pub open spec fn deser_i64(b: Seq<u8>, pos: int) -> Option<(i64, int)> {
    match deser_u64(b, pos) {
        Some((v, p)) => Some((v as i64, p)),
        None => None,
    }
}

/// A signed 32-bit integer read back from its two's-complement bits.
pub open spec fn deser_i32(b: Seq<u8>, pos: int) -> Option<(i32, int)> {
    match deser_u32(b, pos) {
        Some((v, p)) => Some((v as i32, p)),
        None => None,
    }
}

/// A boolean read back from one byte; anything but zero or one is
/// rejected.
pub open spec fn deser_bool(b: Seq<u8>, pos: int) -> Option<(bool, int)> {
    match deser_u8(b, pos) {
        Some((v, p)) => if v == 1 {
            Some((true, p))
        } else if v == 0 {
            Some((false, p))
        } else {
            None
        },
        None => None,
    }
}

/// A count of characters read back in order; a value that is not a
/// Unicode scalar value is rejected.
pub open spec fn deser_chars(b: Seq<u8>, pos: int, count: int) -> Option<(Seq<char>, int)>
    decreases count,
{
    if count <= 0 {
        Some((Seq::empty(), pos))
    } else {
        match deser_chars(b, pos, count - 1) {
            Some((s, p)) => match deser_u32(b, p) {
                Some((u, p2)) => if vstd::utf8::is_scalar(u) {
                    Some((s.push(u as char), p2))
                } else {
                    None
                },
                None => None,
            },
            None => None,
        }
    }
}

/// Text read back: character count, then the characters.
pub open spec fn deser_text(b: Seq<u8>, pos: int) -> Option<(Seq<char>, int)> {
    match deser_u64(b, pos) {
        Some((n, p)) => deser_chars(b, p, n as int),
        None => None,
    }
}

/// A publication date read back; an unknown tag is rejected.
pub open spec fn deser_date(b: Seq<u8>, pos: int) -> Option<(ArticleDate, int)> {
    match deser_u8(b, pos) {
        Some((tag, p)) => if tag == 0 {
            Some((ArticleDate::Unknown, p))
        } else if tag == 1 {
            match deser_i64(b, p) {
                Some((secs, p2)) => match deser_i32(b, p2) {
                    Some((off, p3)) => Some(
                        (ArticleDate::At(Timestamp { secs, offset_secs: off }), p3),
                    ),
                    None => None,
                },
                None => None,
            }
        } else {
            None
        },
        None => None,
    }
}

/// An article read back: title, date, url.
pub open spec fn deser_article(b: Seq<u8>, pos: int) -> Option<(ArticleView, int)> {
    match deser_text(b, pos) {
        Some((title, p)) => match deser_date(b, p) {
            Some((date, p2)) => match deser_text(b, p2) {
                Some((url, p3)) => Some((ArticleView { title, date, url }, p3)),
                None => None,
            },
            None => None,
        },
        None => None,
    }
}

/// A count of identity-article pairs read back in order.
pub open spec fn deser_article_pairs(b: Seq<u8>, pos: int, count: int) -> Option<
    (Seq<(Seq<char>, ArticleView)>, int),
>
    decreases count,
{
    if count <= 0 {
        Some((Seq::empty(), pos))
    } else {
        match deser_article_pairs(b, pos, count - 1) {
            Some((ps, p)) => match deser_text(b, p) {
                Some((k, p2)) => match deser_article(b, p2) {
                    Some((a, p3)) => Some((ps.push((k, a)), p3)),
                    None => None,
                },
                None => None,
            },
            None => None,
        }
    }
}

/// A feed read back; duplicate article identities are rejected.
pub open spec fn deser_feed(b: Seq<u8>, pos: int) -> Option<(FeedRep, int)> {
    match deser_text(b, pos) {
        Some((title, p)) => match deser_text(b, p) {
            Some((url, p2)) => match deser_i64(b, p2) {
                Some((updated, p3)) => match deser_bool(b, p3) {
                    Some((visible, p4)) => match deser_u64(b, p4) {
                        Some((n, p5)) => match deser_article_pairs(b, p5, n as int) {
                            Some((articles, p6)) => if rep_keys_distinct(articles) {
                                Some((FeedRep { title, url, articles, updated, visible }, p6))
                            } else {
                                None
                            },
                            None => None,
                        },
                        None => None,
                    },
                    None => None,
                },
                None => None,
            },
            None => None,
        },
        None => None,
    }
}

/// A count of URL-feed pairs read back in order; a feed stored under a
/// URL other than its own is rejected.
pub open spec fn deser_feed_pairs(b: Seq<u8>, pos: int, count: int) -> Option<
    (Seq<(Seq<char>, FeedRep)>, int),
>
    decreases count,
{
    if count <= 0 {
        Some((Seq::empty(), pos))
    } else {
        match deser_feed_pairs(b, pos, count - 1) {
            Some((ps, p)) => match deser_text(b, p) {
                Some((k, p2)) => match deser_feed(b, p2) {
                    Some((f, p3)) => if f.url == k {
                        Some((ps.push((k, f)), p3))
                    } else {
                        None
                    },
                    None => None,
                },
                None => None,
            },
            None => None,
        }
    }
}

/// A state read back; duplicate source URLs are rejected.
pub open spec fn deser_state(b: Seq<u8>, pos: int) -> Option<(StateRep, int)> {
    match deser_text(b, pos) {
        Some((new_feed_url, p)) => match deser_u64(b, p) {
            Some((n, p2)) => match deser_feed_pairs(b, p2, n as int) {
                Some((feeds, p3)) => if rep_keys_distinct(feeds) {
                    Some((StateRep { new_feed_url, feeds }, p3))
                } else {
                    None
                },
                None => None,
            },
            None => None,
        },
        None => None,
    }
}

/// The whole decoder: a state read back from the start, with every byte
/// consumed.
pub open spec fn deser_state_full(b: Seq<u8>) -> Option<StateRep> {
    match deser_state(b, 0) {
        Some((s, p)) => if p == b.len() {
            Some(s)
        } else {
            None
        },
        None => None,
    }
}

// ---------------------------------------------------------------------
// The decoder reads back exactly what the encoder wrote
// ---------------------------------------------------------------------

proof fn lemma_assoc2(p: Seq<u8>, a1: Seq<u8>, a2: Seq<u8>, t: Seq<u8>)
    ensures
        p + (a1 + a2) + t == p + a1 + (a2 + t),
        p + (a1 + a2) + t == (p + a1) + a2 + t,
{
    assert(p + (a1 + a2) + t =~= p + a1 + (a2 + t));
    assert(p + (a1 + a2) + t =~= (p + a1) + a2 + t);
}

proof fn lemma_assoc3(p: Seq<u8>, a1: Seq<u8>, a2: Seq<u8>, a3: Seq<u8>, t: Seq<u8>)
    ensures
        p + (a1 + a2 + a3) + t == p + a1 + (a2 + a3 + t),
        p + (a1 + a2 + a3) + t == (p + a1) + a2 + (a3 + t),
        p + (a1 + a2 + a3) + t == ((p + a1) + a2) + a3 + t,
{
    assert(p + (a1 + a2 + a3) + t =~= p + a1 + (a2 + a3 + t));
    assert(p + (a1 + a2 + a3) + t =~= (p + a1) + a2 + (a3 + t));
    assert(p + (a1 + a2 + a3) + t =~= ((p + a1) + a2) + a3 + t);
}

proof fn lemma_assoc6(
    p: Seq<u8>,
    a1: Seq<u8>,
    a2: Seq<u8>,
    a3: Seq<u8>,
    a4: Seq<u8>,
    a5: Seq<u8>,
    a6: Seq<u8>,
    t: Seq<u8>,
)
    ensures
        p + (a1 + a2 + a3 + a4 + a5 + a6) + t == p + a1 + (a2 + a3 + a4 + a5 + a6 + t),
        p + (a1 + a2 + a3 + a4 + a5 + a6) + t == (p + a1) + a2 + (a3 + a4 + a5 + a6 + t),
        p + (a1 + a2 + a3 + a4 + a5 + a6) + t == ((p + a1) + a2) + a3 + (a4 + a5 + a6 + t),
        p + (a1 + a2 + a3 + a4 + a5 + a6) + t == (((p + a1) + a2) + a3) + a4 + (a5 + a6 + t),
        p + (a1 + a2 + a3 + a4 + a5 + a6) + t == ((((p + a1) + a2) + a3) + a4) + a5 + (a6 + t),
        p + (a1 + a2 + a3 + a4 + a5 + a6) + t == (((((p + a1) + a2) + a3) + a4) + a5) + a6 + t,
{
    assert(p + (a1 + a2 + a3 + a4 + a5 + a6) + t =~= p + a1 + (a2 + a3 + a4 + a5 + a6 + t));
    assert(p + (a1 + a2 + a3 + a4 + a5 + a6) + t =~= (p + a1) + a2 + (a3 + a4 + a5 + a6 + t));
    assert(p + (a1 + a2 + a3 + a4 + a5 + a6) + t =~= ((p + a1) + a2) + a3 + (a4 + a5 + a6 + t));
    assert(p + (a1 + a2 + a3 + a4 + a5 + a6) + t =~= (((p + a1) + a2) + a3) + a4 + (a5 + a6
        + t));
    assert(p + (a1 + a2 + a3 + a4 + a5 + a6) + t =~= ((((p + a1) + a2) + a3) + a4) + a5 + (a6
        + t));
    assert(p + (a1 + a2 + a3 + a4 + a5 + a6) + t =~= (((((p + a1) + a2) + a3) + a4) + a5) + a6
        + t);
}

proof fn lemma_rt_u8(pre: Seq<u8>, x: u8, post: Seq<u8>)
    ensures
        deser_u8(pre + seq![x] + post, pre.len() as int) == Some((x, (pre.len() + 1) as int)),
{
    let b = pre + seq![x] + post;
    assert(b[pre.len() as int] == x);
}

proof fn lemma_rt_u64(pre: Seq<u8>, v: u64, post: Seq<u8>)
    ensures
        deser_u64(pre + ser_u64(v) + post, pre.len() as int) == Some(
            (v, (pre.len() + ser_u64(v).len()) as int),
        ),
{
    let b = pre + ser_u64(v) + post;
    let pos = pre.len() as int;
    assert(b[pos] == (v & 0xff) as u8);
    assert(b[pos + 1] == ((v >> 8) & 0xff) as u8);
    assert(b[pos + 2] == ((v >> 16) & 0xff) as u8);
    assert(b[pos + 3] == ((v >> 24) & 0xff) as u8);
    assert(b[pos + 4] == ((v >> 32) & 0xff) as u8);
    assert(b[pos + 5] == ((v >> 40) & 0xff) as u8);
    assert(b[pos + 6] == ((v >> 48) & 0xff) as u8);
    assert(b[pos + 7] == ((v >> 56) & 0xff) as u8);
    assert((((v & 0xff) as u8) as u64) | ((((v >> 8) & 0xff) as u8) as u64) << 8 | ((((v >> 16)
        & 0xff) as u8) as u64) << 16 | ((((v >> 24) & 0xff) as u8) as u64) << 24 | ((((v >> 32)
        & 0xff) as u8) as u64) << 32 | ((((v >> 40) & 0xff) as u8) as u64) << 40 | ((((v >> 48)
        & 0xff) as u8) as u64) << 48 | ((((v >> 56) & 0xff) as u8) as u64) << 56 == v)
        by (bit_vector);
}

proof fn lemma_rt_u32(pre: Seq<u8>, v: u32, post: Seq<u8>)
    ensures
        deser_u32(pre + ser_u32(v) + post, pre.len() as int) == Some(
            (v, (pre.len() + ser_u32(v).len()) as int),
        ),
{
    let b = pre + ser_u32(v) + post;
    let pos = pre.len() as int;
    assert(b[pos] == (v & 0xff) as u8);
    assert(b[pos + 1] == ((v >> 8) & 0xff) as u8);
    assert(b[pos + 2] == ((v >> 16) & 0xff) as u8);
    assert(b[pos + 3] == ((v >> 24) & 0xff) as u8);
    assert((((v & 0xff) as u8) as u32) | ((((v >> 8) & 0xff) as u8) as u32) << 8 | ((((v >> 16)
        & 0xff) as u8) as u32) << 16 | ((((v >> 24) & 0xff) as u8) as u32) << 24 == v)
        by (bit_vector);
}

proof fn lemma_rt_i64(pre: Seq<u8>, v: i64, post: Seq<u8>)
    ensures
        deser_i64(pre + ser_i64(v) + post, pre.len() as int) == Some(
            (v, (pre.len() + ser_i64(v).len()) as int),
        ),
{
    lemma_rt_u64(pre, v as u64, post);
    assert(((v as u64) as i64) == v) by (bit_vector);
}

proof fn lemma_rt_i32(pre: Seq<u8>, v: i32, post: Seq<u8>)
    ensures
        deser_i32(pre + ser_i32(v) + post, pre.len() as int) == Some(
            (v, (pre.len() + ser_i32(v).len()) as int),
        ),
{
    lemma_rt_u32(pre, v as u32, post);
    assert(((v as u32) as i32) == v) by (bit_vector);
}

proof fn lemma_rt_bool(pre: Seq<u8>, v: bool, post: Seq<u8>)
    ensures
        deser_bool(pre + ser_bool(v) + post, pre.len() as int) == Some(
            (v, (pre.len() + ser_bool(v).len()) as int),
        ),
{
    if v {
        lemma_rt_u8(pre, 1u8, post);
        assert(pre + ser_bool(v) + post =~= pre + seq![1u8] + post);
    } else {
        lemma_rt_u8(pre, 0u8, post);
        assert(pre + ser_bool(v) + post =~= pre + seq![0u8] + post);
    }
}

proof fn lemma_rt_chars(pre: Seq<u8>, s: Seq<char>, post: Seq<u8>)
    ensures
        deser_chars(pre + ser_chars(s) + post, pre.len() as int, s.len() as int) == Some(
            (s, (pre.len() + ser_chars(s).len()) as int),
        ),
    decreases s.len(),
{
    let b = pre + ser_chars(s) + post;
    let pos = pre.len() as int;
    if s.len() == 0 {
        assert(deser_chars(b, pos, 0) == Some((Seq::<char>::empty(), pos)));
        assert(s =~= Seq::<char>::empty());
    } else {
        let dl = s.drop_last();
        let c = s.last();
        assert(ser_chars(s) == ser_chars(dl) + ser_u32(c as u32));
        lemma_assoc2(pre, ser_chars(dl), ser_u32(c as u32), post);
        lemma_rt_chars(pre, dl, ser_u32(c as u32) + post);
        lemma_rt_u32(pre + ser_chars(dl), c as u32, post);
        vstd::utf8::char_is_scalar(c);
        vstd::utf8::char_u32_cast(c, c as u32);
        assert(dl.push(c) =~= s);
    }
}

proof fn lemma_rt_text(pre: Seq<u8>, s: Seq<char>, post: Seq<u8>)
    requires
        text_fits(s),
    ensures
        deser_text(pre + ser_text(s) + post, pre.len() as int) == Some(
            (s, (pre.len() + ser_text(s).len()) as int),
        ),
{
    let n = s.len() as u64;
    assert(ser_text(s) == ser_u64(n) + ser_chars(s));
    lemma_assoc2(pre, ser_u64(n), ser_chars(s), post);
    lemma_rt_u64(pre, n, ser_chars(s) + post);
    lemma_rt_chars(pre + ser_u64(n), s, post);
}

proof fn lemma_rt_date(pre: Seq<u8>, d: ArticleDate, post: Seq<u8>)
    ensures
        deser_date(pre + ser_date(d) + post, pre.len() as int) == Some(
            (d, (pre.len() + ser_date(d).len()) as int),
        ),
{
    match d {
        ArticleDate::Unknown => {
            assert(ser_date(d) == seq![0u8]);
            lemma_rt_u8(pre, 0u8, post);
        }
        ArticleDate::At(t) => {
            assert(ser_date(d) == seq![1u8] + ser_i64(t.secs) + ser_i32(t.offset_secs));
            lemma_assoc3(pre, seq![1u8], ser_i64(t.secs), ser_i32(t.offset_secs), post);
            lemma_rt_u8(pre, 1u8, ser_i64(t.secs) + (ser_i32(t.offset_secs) + post));
            assert(pre + seq![1u8] + (ser_i64(t.secs) + (ser_i32(t.offset_secs) + post))
                =~= pre + seq![1u8] + (ser_i64(t.secs) + ser_i32(t.offset_secs) + post));
            lemma_rt_i64(pre + seq![1u8], t.secs, ser_i32(t.offset_secs) + post);
            lemma_rt_i32((pre + seq![1u8]) + ser_i64(t.secs), t.offset_secs, post);
            assert(Timestamp { secs: t.secs, offset_secs: t.offset_secs } == t);
        }
    }
}

proof fn lemma_rt_article(pre: Seq<u8>, a: ArticleView, post: Seq<u8>)
    requires
        article_fits(a),
    ensures
        deser_article(pre + ser_article(a) + post, pre.len() as int) == Some(
            (a, (pre.len() + ser_article(a).len()) as int),
        ),
{
    let b = pre + ser_article(a) + post;
    let pos = pre.len() as int;
    let s1 = ser_text(a.title);
    let s2 = ser_date(a.date);
    let s3 = ser_text(a.url);
    let p1 = pos + s1.len();
    let p2 = p1 + s2.len();
    let p3 = p2 + s3.len();
    assert(ser_article(a) == s1 + s2 + s3);
    lemma_assoc3(pre, s1, s2, s3, post);
    assert(deser_text(b, pos) == Some((a.title, p1))) by {
        lemma_rt_text(pre, a.title, s2 + s3 + post);
    }
    assert(deser_date(b, p1) == Some((a.date, p2))) by {
        lemma_rt_date(pre + s1, a.date, s3 + post);
    }
    assert(deser_text(b, p2) == Some((a.url, p3))) by {
        lemma_rt_text((pre + s1) + s2, a.url, post);
    }
    assert(ArticleView { title: a.title, date: a.date, url: a.url } == a);
    assert(p3 == pos + ser_article(a).len());
}

#[verifier::rlimit(100)]
proof fn lemma_rt_article_pairs(pre: Seq<u8>, ps: Seq<(Seq<char>, ArticleView)>, post: Seq<u8>)
    requires
        forall|i: int|
            0 <= i < ps.len() ==> text_fits(#[trigger] ps[i].0) && article_fits(ps[i].1),
    ensures
        deser_article_pairs(pre + ser_article_pairs(ps) + post, pre.len() as int, ps.len() as int)
            == Some((ps, (pre.len() + ser_article_pairs(ps).len()) as int)),
    decreases ps.len(),
{
    let b = pre + ser_article_pairs(ps) + post;
    let pos = pre.len() as int;
    if ps.len() == 0 {
        assert(deser_article_pairs(b, pos, 0) == Some(
            (Seq::<(Seq<char>, ArticleView)>::empty(), pos),
        ));
        assert(ps =~= Seq::<(Seq<char>, ArticleView)>::empty());
    } else {
        let dl = ps.drop_last();
        let k = ps.last().0;
        let a = ps.last().1;
        let s1 = ser_article_pairs(dl);
        let s2 = ser_text(k);
        let s3 = ser_article(a);
        let p1 = pos + s1.len();
        let p2 = p1 + s2.len();
        let p3 = p2 + s3.len();
        assert(text_fits(ps[ps.len() - 1].0) && article_fits(ps[ps.len() - 1].1));
        assert(ser_article_pairs(ps) == s1 + s2 + s3);
        lemma_assoc3(pre, s1, s2, s3, post);
        assert(deser_article_pairs(b, pos, dl.len() as int) == Some((dl, p1))) by {
            assert(forall|i: int|
                0 <= i < dl.len() ==> text_fits(#[trigger] dl[i].0) && article_fits(dl[i].1));
            lemma_rt_article_pairs(pre, dl, s2 + s3 + post);
        }
        assert(deser_text(b, p1) == Some((k, p2))) by {
            lemma_rt_text(pre + s1, k, s3 + post);
        }
        assert(deser_article(b, p2) == Some((a, p3))) by {
            lemma_rt_article((pre + s1) + s2, a, post);
        }
        assert(dl.push((k, a)) =~= ps);
        assert(p3 == pos + ser_article_pairs(ps).len());
    }
}

#[verifier::rlimit(100)]
proof fn lemma_rt_feed(pre: Seq<u8>, f: FeedRep, post: Seq<u8>)
    requires
        feed_rep_wf(f),
    ensures
        deser_feed(pre + ser_feed(f) + post, pre.len() as int) == Some(
            (f, (pre.len() + ser_feed(f).len()) as int),
        ),
{
    let b = pre + ser_feed(f) + post;
    let pos = pre.len() as int;
    let n = f.articles.len() as u64;
    let s1 = ser_text(f.title);
    let s2 = ser_text(f.url);
    let s3 = ser_i64(f.updated);
    let s4 = ser_bool(f.visible);
    let s5 = ser_u64(n);
    let s6 = ser_article_pairs(f.articles);
    let p1 = pos + s1.len();
    let p2 = p1 + s2.len();
    let p3 = p2 + s3.len();
    let p4 = p3 + s4.len();
    let p5 = p4 + s5.len();
    let p6 = p5 + s6.len();
    assert(ser_feed(f) == s1 + s2 + s3 + s4 + s5 + s6);
    lemma_assoc6(pre, s1, s2, s3, s4, s5, s6, post);
    assert(deser_text(b, pos) == Some((f.title, p1))) by {
        lemma_rt_text(pre, f.title, s2 + s3 + s4 + s5 + s6 + post);
    }
    assert(deser_text(b, p1) == Some((f.url, p2))) by {
        lemma_rt_text(pre + s1, f.url, s3 + s4 + s5 + s6 + post);
    }
    assert(deser_i64(b, p2) == Some((f.updated, p3))) by {
        lemma_rt_i64((pre + s1) + s2, f.updated, s4 + s5 + s6 + post);
    }
    assert(deser_bool(b, p3) == Some((f.visible, p4))) by {
        lemma_rt_bool(((pre + s1) + s2) + s3, f.visible, s5 + s6 + post);
    }
    assert(deser_u64(b, p4) == Some((n, p5))) by {
        lemma_rt_u64((((pre + s1) + s2) + s3) + s4, n, s6 + post);
    }
    assert(deser_article_pairs(b, p5, n as int) == Some((f.articles, p6))) by {
        lemma_rt_article_pairs((((((pre + s1) + s2) + s3) + s4) + s5), f.articles, post);
    }
    assert(FeedRep {
        title: f.title,
        url: f.url,
        articles: f.articles,
        updated: f.updated,
        visible: f.visible,
    } == f);
    assert(p6 == pos + ser_feed(f).len());
}

#[verifier::rlimit(100)]
proof fn lemma_rt_feed_pairs(pre: Seq<u8>, ps: Seq<(Seq<char>, FeedRep)>, post: Seq<u8>)
    requires
        forall|i: int|
            0 <= i < ps.len() ==> text_fits(#[trigger] ps[i].0) && feed_rep_wf(ps[i].1)
                && ps[i].1.url == ps[i].0,
    ensures
        deser_feed_pairs(pre + ser_feed_pairs(ps) + post, pre.len() as int, ps.len() as int)
            == Some((ps, (pre.len() + ser_feed_pairs(ps).len()) as int)),
    decreases ps.len(),
{
    let b = pre + ser_feed_pairs(ps) + post;
    let pos = pre.len() as int;
    if ps.len() == 0 {
        assert(deser_feed_pairs(b, pos, 0) == Some((Seq::<(Seq<char>, FeedRep)>::empty(), pos)));
        assert(ps =~= Seq::<(Seq<char>, FeedRep)>::empty());
    } else {
        let dl = ps.drop_last();
        let k = ps.last().0;
        let f = ps.last().1;
        let s1 = ser_feed_pairs(dl);
        let s2 = ser_text(k);
        let s3 = ser_feed(f);
        let p1 = pos + s1.len();
        let p2 = p1 + s2.len();
        let p3 = p2 + s3.len();
        assert(text_fits(ps[ps.len() - 1].0) && feed_rep_wf(ps[ps.len() - 1].1) && ps[ps.len()
            - 1].1.url == ps[ps.len() - 1].0);
        assert(ser_feed_pairs(ps) == s1 + s2 + s3);
        lemma_assoc3(pre, s1, s2, s3, post);
        assert(deser_feed_pairs(b, pos, dl.len() as int) == Some((dl, p1))) by {
            assert(forall|i: int|
                0 <= i < dl.len() ==> text_fits(#[trigger] dl[i].0) && feed_rep_wf(dl[i].1)
                    && dl[i].1.url == dl[i].0);
            lemma_rt_feed_pairs(pre, dl, s2 + s3 + post);
        }
        assert(deser_text(b, p1) == Some((k, p2))) by {
            lemma_rt_text(pre + s1, k, s3 + post);
        }
        assert(deser_feed(b, p2) == Some((f, p3))) by {
            lemma_rt_feed((pre + s1) + s2, f, post);
        }
        assert(f.url == k);
        assert(dl.push((k, f)) =~= ps);
        assert(p3 == pos + ser_feed_pairs(ps).len());
    }
}

// ---------------------------------------------------------------------
// The encoder
// ---------------------------------------------------------------------

fn write_u64(out: &mut Vec<u8>, v: u64)
    ensures
        final(out)@ == old(out)@ + ser_u64(v),
{
    out.push((v & 0xff) as u8);
    out.push(((v >> 8) & 0xff) as u8);
    out.push(((v >> 16) & 0xff) as u8);
    out.push(((v >> 24) & 0xff) as u8);
    out.push(((v >> 32) & 0xff) as u8);
    out.push(((v >> 40) & 0xff) as u8);
    out.push(((v >> 48) & 0xff) as u8);
    out.push(((v >> 56) & 0xff) as u8);
    proof {
        assert(out@ =~= old(out)@ + ser_u64(v));
    }
}

fn write_u32(out: &mut Vec<u8>, v: u32)
    ensures
        final(out)@ == old(out)@ + ser_u32(v),
{
    out.push((v & 0xff) as u8);
    out.push(((v >> 8) & 0xff) as u8);
    out.push(((v >> 16) & 0xff) as u8);
    out.push(((v >> 24) & 0xff) as u8);
    proof {
        assert(out@ =~= old(out)@ + ser_u32(v));
    }
}

fn write_i64(out: &mut Vec<u8>, v: i64)
    ensures
        final(out)@ == old(out)@ + ser_i64(v),
{
    write_u64(out, v as u64);
}

fn write_i32(out: &mut Vec<u8>, v: i32)
    ensures
        final(out)@ == old(out)@ + ser_i32(v),
{
    write_u32(out, v as u32);
}

fn write_bool(out: &mut Vec<u8>, v: bool)
    ensures
        final(out)@ == old(out)@ + ser_bool(v),
{
    out.push(if v { 1u8 } else { 0u8 });
    proof {
        assert(out@ =~= old(out)@ + ser_bool(v));
    }
}

#[verifier::loop_isolation(false)]
fn write_text(out: &mut Vec<u8>, s: &str)
    ensures
        final(out)@ == old(out)@ + ser_text(s@),
        text_fits(s@),
{
    let l = s.unicode_len();
    write_u64(out, l as u64);
    let mut i: usize = 0;
    while i < l
        invariant
            i <= l,
            l == s@.len(),
            out@ == old(out)@ + ser_u64(l as u64) + ser_chars(s@.take(i as int)),
        decreases l - i,
    {
        let c = s.get_char(i);
        proof {
            assert(s@.take(i as int + 1).drop_last() =~= s@.take(i as int));
            assert(s@.take(i as int + 1).last() == s@[i as int]);
        }
        write_u32(out, c as u32);
        proof {
            assert(out@ =~= old(out)@ + ser_u64(l as u64) + ser_chars(s@.take(i as int + 1)));
        }
        i = i + 1;
    }
    proof {
        assert(s@.take(l as int) =~= s@);
        assert(out@ =~= old(out)@ + ser_text(s@));
    }
}

fn write_date(out: &mut Vec<u8>, d: ArticleDate)
    ensures
        final(out)@ == old(out)@ + ser_date(d),
{
    match d {
        ArticleDate::At(t) => {
            out.push(1u8);
            write_i64(out, t.secs);
            write_i32(out, t.offset_secs);
            proof {
                assert(out@ =~= old(out)@ + ser_date(d));
            }
        }
        ArticleDate::Unknown => {
            out.push(0u8);
            proof {
                assert(out@ =~= old(out)@ + ser_date(d));
            }
        }
    }
}

fn write_article(out: &mut Vec<u8>, a: &Article)
    ensures
        final(out)@ == old(out)@ + ser_article(a@),
        article_fits(a@),
{
    write_text(out, a.title.as_str());
    write_date(out, a.date);
    write_text(out, a.url.as_str());
    proof {
        assert(out@ =~= old(out)@ + ser_article(a@));
    }
}

#[verifier::loop_isolation(false)]
#[verifier::rlimit(100)]
fn write_feed(out: &mut Vec<u8>, f: &Feed)
    requires
        f.wf(),
    ensures
        final(out)@ == old(out)@ + ser_feed(f.rep()),
        feed_rep_wf(f.rep()),
{
    write_text(out, f.title.as_str());
    write_text(out, f.url.as_str());
    write_i64(out, f.updated);
    write_bool(out, f.visible);
    let n = f.article_map.len();
    write_u64(out, n as u64);
    let ghost head = old(out)@ + ser_text(f.title@) + ser_text(f.url@) + ser_i64(f.updated)
        + ser_bool(f.visible) + ser_u64(n as u64);
    let ghost ps = f.rep().articles;
    proof {
        assert(out@ =~= head + ser_article_pairs(ps.take(0)));
    }
    let mut i: usize = 0;
    while i < n
        invariant
            i <= n,
            n == f.article_map.entries@.len(),
            out@ == head + ser_article_pairs(ps.take(i as int)),
            forall|j: int| 0 <= j < i ==> #[trigger] article_pair_fits(ps[j]),
        decreases n - i,
    {
        let k = f.article_map.key_at(i);
        let a = f.article_map.val_at(i);
        proof {
            assert(ps[i as int] == (f.article_map.entries@[i as int].0@,
                f.article_map.entries@[i as int].1@));
            assert(ps.take(i as int + 1).drop_last() =~= ps.take(i as int));
            assert(ps.take(i as int + 1).last() == ps[i as int]);
        }
        write_text(out, k.as_str());
        write_article(out, a);
        proof {
            assert(article_pair_fits(ps[i as int]));
            assert(out@ =~= head + ser_article_pairs(ps.take(i as int + 1)));
        }
        i = i + 1;
    }
    proof {
        assert(ps.take(n as int) =~= ps);
        assert(out@ =~= old(out)@ + ser_feed(f.rep()));
        assert forall|a0: int, b0: int| 0 <= a0 < b0 < ps.len() implies ps[a0].0 != ps[b0].0 by {
            assert(f.article_map.entries@[a0].0@ != f.article_map.entries@[b0].0@);
        }
        assert forall|j: int|
            0 <= j < ps.len() implies text_fits(#[trigger] ps[j].0) && article_fits(ps[j].1) by {
            assert(article_pair_fits(ps[j]));
        }
    }
}

impl State {
    /// Encodes the state for backup, restore, and persistence; the
    /// encoding is exactly [`ser_state`] of the state's layout, and the
    /// layout of a well-formed state is one the decoder accepts.
    #[verifier::loop_isolation(false)]
    #[verifier::rlimit(100)]
    pub fn serialize(&self) -> (out: Vec<u8>)
        requires
            self.wf(),
        ensures
            out@ == ser_state(self.rep()),
            state_rep_wf(self.rep()),
    {
        let mut out: Vec<u8> = Vec::new();
        write_text(&mut out, self.new_feed_url.as_str());
        let n = self.feed_map.len();
        write_u64(&mut out, n as u64);
        let ghost head = ser_text(self.new_feed_url@) + ser_u64(n as u64);
        let ghost ps = self.rep().feeds;
        proof {
            assert(out@ =~= head + ser_feed_pairs(ps.take(0)));
        }
        let mut i: usize = 0;
        while i < n
            invariant
                i <= n,
                n == self.feed_map.entries@.len(),
                out@ == head + ser_feed_pairs(ps.take(i as int)),
                forall|j: int| 0 <= j < i ==> #[trigger] feed_pair_fits(ps[j]),
            decreases n - i,
        {
            let k = self.feed_map.key_at(i);
            let f = self.feed_map.val_at(i);
            proof {
                assert(ps[i as int] == (self.feed_map.entries@[i as int].0@,
                    self.feed_map.entries@[i as int].1.rep()));
                assert(ps.take(i as int + 1).drop_last() =~= ps.take(i as int));
                assert(ps.take(i as int + 1).last() == ps[i as int]);
                assert(self.feed_map.entries@[i as int].1.wf());
            }
            write_text(&mut out, k.as_str());
            write_feed(&mut out, f);
            proof {
                assert(feed_pair_fits(ps[i as int]));
                assert(out@ =~= head + ser_feed_pairs(ps.take(i as int + 1)));
            }
            i = i + 1;
        }
        proof {
            assert(ps.take(n as int) =~= ps);
            assert(out@ =~= ser_state(self.rep()));
            assert forall|a0: int, b0: int|
                0 <= a0 < b0 < ps.len() implies ps[a0].0 != ps[b0].0 by {
                assert(self.feed_map.entries@[a0].0@ != self.feed_map.entries@[b0].0@);
            }
            assert forall|j: int|
                0 <= j < ps.len() implies feed_rep_wf(#[trigger] ps[j].1) && ps[j].1.url
                == ps[j].0 by {
                assert(feed_pair_fits(ps[j]));
                assert(self.feed_map.entries@[j].1.url@ == self.feed_map.entries@[j].0@);
            }
        }
        out
    }
}

/// Round-trip law at the layout level: decoding what a well-formed
/// state encodes yields that state exactly, with every byte consumed.
pub proof fn lemma_codec_round_trip(s: StateRep)
    requires
        state_rep_wf(s),
    ensures
        deser_state_full(ser_state(s)) == Some(s),
{
    let b = ser_state(s);
    let n = s.feeds.len() as u64;
    let empty = Seq::<u8>::empty();
    assert forall|i: int|
        0 <= i < s.feeds.len() implies text_fits(#[trigger] s.feeds[i].0) && feed_rep_wf(
        s.feeds[i].1,
    ) && s.feeds[i].1.url == s.feeds[i].0 by {
        assert(feed_rep_wf(s.feeds[i].1));
    }
    assert(b =~= empty + ser_text(s.new_feed_url) + (ser_u64(n) + ser_feed_pairs(s.feeds)
        + empty));
    lemma_rt_text(empty, s.new_feed_url, ser_u64(n) + ser_feed_pairs(s.feeds) + empty);
    assert(b =~= (empty + ser_text(s.new_feed_url)) + ser_u64(n) + (ser_feed_pairs(s.feeds)
        + empty));
    lemma_rt_u64(empty + ser_text(s.new_feed_url), n, ser_feed_pairs(s.feeds) + empty);
    assert(b =~= ((empty + ser_text(s.new_feed_url)) + ser_u64(n)) + ser_feed_pairs(s.feeds)
        + empty);
    lemma_rt_feed_pairs(
        (empty + ser_text(s.new_feed_url)) + ser_u64(n),
        s.feeds,
        empty,
    );
    assert(StateRep { new_feed_url: s.new_feed_url, feeds: s.feeds } == s);
}


// ---------------------------------------------------------------------
// The decoder
// ---------------------------------------------------------------------

/// Relies on char::from_u32: `Some` exactly on Unicode scalar values
/// (not a surrogate, at most 0x10FFFF), handing back the character with
/// that value.
#[verifier::external_body]
fn char_of_u32(u: u32) -> (r: Option<char>)
    ensures
        r == (if vstd::utf8::is_scalar(u) {
            Some(u as char)
        } else {
            None::<char>
        }),
{
    char::from_u32(u)
}

/// Relies on String::push: appends one character at the end.
#[verifier::external_body]
fn push_char(s: &mut String, c: char)
    ensures
        final(s)@ == old(s)@.push(c),
{
    s.push(c);
}

proof fn lemma_deser_chars_none(b: Seq<u8>, pos: int, i: int, j: int)
    requires
        0 <= i <= j,
        deser_chars(b, pos, i) is None,
    ensures
        deser_chars(b, pos, j) is None,
    decreases j - i,
{
    if j > i {
        lemma_deser_chars_none(b, pos, i, j - 1);
    }
}

proof fn lemma_deser_article_pairs_none(b: Seq<u8>, pos: int, i: int, j: int)
    requires
        0 <= i <= j,
        deser_article_pairs(b, pos, i) is None,
    ensures
        deser_article_pairs(b, pos, j) is None,
    decreases j - i,
{
    if j > i {
        lemma_deser_article_pairs_none(b, pos, i, j - 1);
    }
}

proof fn lemma_deser_feed_pairs_none(b: Seq<u8>, pos: int, i: int, j: int)
    requires
        0 <= i <= j,
        deser_feed_pairs(b, pos, i) is None,
    ensures
        deser_feed_pairs(b, pos, j) is None,
    decreases j - i,
{
    if j > i {
        lemma_deser_feed_pairs_none(b, pos, i, j - 1);
    }
}

/// Key distinctness reads the same at both layers of an article table.
proof fn lemma_article_keys_distinct(es: Seq<(String, Article)>)
    ensures
        Table::<Article>::distinct_keys(es) <==> rep_keys_distinct(Table::<Article>::pairs_of(es)),
{
    let ps = Table::<Article>::pairs_of(es);
    if Table::<Article>::distinct_keys(es) {
        assert forall|i: int, j: int| 0 <= i < j < ps.len() implies ps[i].0 != ps[j].0 by {
            assert(ps[i].0 == es[i].0@);
            assert(ps[j].0 == es[j].0@);
        }
    }
    if rep_keys_distinct(ps) {
        assert forall|i: int, j: int| 0 <= i < j < es.len() implies es[i].0@ != es[j].0@ by {
            assert(ps[i].0 == es[i].0@);
            assert(ps[j].0 == es[j].0@);
        }
    }
}

/// Key distinctness reads the same at both layers of the feed table.
proof fn lemma_feed_keys_distinct(es: Seq<(String, Feed)>)
    ensures
        Table::<Feed>::distinct_keys(es) <==> rep_keys_distinct(feeds_rep_of(es)),
{
    let ps = feeds_rep_of(es);
    if Table::<Feed>::distinct_keys(es) {
        assert forall|i: int, j: int| 0 <= i < j < ps.len() implies ps[i].0 != ps[j].0 by {
            assert(ps[i].0 == es[i].0@);
            assert(ps[j].0 == es[j].0@);
        }
    }
    if rep_keys_distinct(ps) {
        assert forall|i: int, j: int| 0 <= i < j < es.len() implies es[i].0@ != es[j].0@ by {
            assert(ps[i].0 == es[i].0@);
            assert(ps[j].0 == es[j].0@);
        }
    }
}

fn read_u8(bytes: &Vec<u8>, pos: &mut usize) -> (r: Option<u8>)
    ensures
        match r {
            Some(v) => deser_u8(bytes@, *old(pos) as int) == Some((v, *final(pos) as int))
                && *final(pos) <= bytes@.len(),
            None => deser_u8(bytes@, *old(pos) as int) is None && *final(pos) == *old(pos),
        },
{
    if *pos < bytes.len() {
        let v = bytes[*pos];
        *pos = *pos + 1;
        Some(v)
    } else {
        None
    }
}

fn read_u64(bytes: &Vec<u8>, pos: &mut usize) -> (r: Option<u64>)
    ensures
        match r {
            Some(v) => deser_u64(bytes@, *old(pos) as int) == Some((v, *final(pos) as int))
                && *final(pos) <= bytes@.len(),
            None => deser_u64(bytes@, *old(pos) as int) is None && *final(pos) == *old(pos),
        },
{
    if *pos <= bytes.len() && bytes.len() - *pos >= 8 {
        let v = (bytes[*pos] as u64) | ((bytes[*pos + 1] as u64) << 8) | ((bytes[*pos
            + 2] as u64) << 16) | ((bytes[*pos + 3] as u64) << 24) | ((bytes[*pos + 4] as u64)
            << 32) | ((bytes[*pos + 5] as u64) << 40) | ((bytes[*pos + 6] as u64) << 48) | ((
        bytes[*pos + 7] as u64) << 56);
        *pos = *pos + 8;
        Some(v)
    } else {
        None
    }
}

fn read_u32(bytes: &Vec<u8>, pos: &mut usize) -> (r: Option<u32>)
    ensures
        match r {
            Some(v) => deser_u32(bytes@, *old(pos) as int) == Some((v, *final(pos) as int))
                && *final(pos) <= bytes@.len(),
            None => deser_u32(bytes@, *old(pos) as int) is None && *final(pos) == *old(pos),
        },
{
    if *pos <= bytes.len() && bytes.len() - *pos >= 4 {
        let v = (bytes[*pos] as u32) | ((bytes[*pos + 1] as u32) << 8) | ((bytes[*pos
            + 2] as u32) << 16) | ((bytes[*pos + 3] as u32) << 24);
        *pos = *pos + 4;
        Some(v)
    } else {
        None
    }
}

fn read_i64(bytes: &Vec<u8>, pos: &mut usize) -> (r: Option<i64>)
    ensures
        match r {
            Some(v) => deser_i64(bytes@, *old(pos) as int) == Some((v, *final(pos) as int))
                && *final(pos) <= bytes@.len(),
            None => deser_i64(bytes@, *old(pos) as int) is None && *final(pos) == *old(pos),
        },
{
    match read_u64(bytes, pos) {
        Some(v) => Some(v as i64),
        None => None,
    }
}

fn read_i32(bytes: &Vec<u8>, pos: &mut usize) -> (r: Option<i32>)
    ensures
        match r {
            Some(v) => deser_i32(bytes@, *old(pos) as int) == Some((v, *final(pos) as int))
                && *final(pos) <= bytes@.len(),
            None => deser_i32(bytes@, *old(pos) as int) is None && *final(pos) == *old(pos),
        },
{
    match read_u32(bytes, pos) {
        Some(v) => Some(v as i32),
        None => None,
    }
}

fn read_bool(bytes: &Vec<u8>, pos: &mut usize) -> (r: Option<bool>)
    ensures
        match r {
            Some(v) => deser_bool(bytes@, *old(pos) as int) == Some((v, *final(pos) as int))
                && *final(pos) <= bytes@.len(),
            None => deser_bool(bytes@, *old(pos) as int) is None,
        },
{
    match read_u8(bytes, pos) {
        Some(v) => if v == 1 {
            Some(true)
        } else if v == 0 {
            Some(false)
        } else {
            None
        },
        None => None,
    }
}

#[verifier::loop_isolation(false)]
fn read_text(bytes: &Vec<u8>, pos: &mut usize) -> (r: Option<String>)
    ensures
        match r {
            Some(s) => deser_text(bytes@, *old(pos) as int) == Some((s@, *final(pos) as int))
                && *final(pos) <= bytes@.len(),
            None => deser_text(bytes@, *old(pos) as int) is None,
        },
{
    let n = match read_u64(bytes, pos) {
        Some(n) => n,
        None => {
            return None;
        }
    };
    let ghost p0 = *pos as int;
    let mut s = String::new();
    let mut cnt: u64 = 0;
    while cnt < n
        invariant
            cnt <= n,
            *pos <= bytes@.len(),
            deser_chars(bytes@, p0, cnt as int) == Some((s@, *pos as int)),
        decreases n - cnt,
    {
        let u = match read_u32(bytes, pos) {
            Some(u) => u,
            None => {
                proof {
                    lemma_deser_chars_none(bytes@, p0, cnt as int + 1, n as int);
                }
                return None;
            }
        };
        let c = match char_of_u32(u) {
            Some(c) => c,
            None => {
                proof {
                    lemma_deser_chars_none(bytes@, p0, cnt as int + 1, n as int);
                }
                return None;
            }
        };
        push_char(&mut s, c);
        cnt = cnt + 1;
    }
    Some(s)
}

fn read_date(bytes: &Vec<u8>, pos: &mut usize) -> (r: Option<ArticleDate>)
    ensures
        match r {
            Some(d) => deser_date(bytes@, *old(pos) as int) == Some((d, *final(pos) as int))
                && *final(pos) <= bytes@.len(),
            None => deser_date(bytes@, *old(pos) as int) is None,
        },
{
    let tag = match read_u8(bytes, pos) {
        Some(t) => t,
        None => {
            return None;
        }
    };
    if tag == 0 {
        Some(ArticleDate::Unknown)
    } else if tag == 1 {
        let secs = match read_i64(bytes, pos) {
            Some(v) => v,
            None => {
                return None;
            }
        };
        let off = match read_i32(bytes, pos) {
            Some(v) => v,
            None => {
                return None;
            }
        };
        Some(ArticleDate::At(Timestamp { secs, offset_secs: off }))
    } else {
        None
    }
}

fn read_article(bytes: &Vec<u8>, pos: &mut usize) -> (r: Option<Article>)
    ensures
        match r {
            Some(a) => deser_article(bytes@, *old(pos) as int) == Some((a@, *final(pos) as int))
                && *final(pos) <= bytes@.len(),
            None => deser_article(bytes@, *old(pos) as int) is None,
        },
{
    let title = match read_text(bytes, pos) {
        Some(s) => s,
        None => {
            return None;
        }
    };
    let date = match read_date(bytes, pos) {
        Some(d) => d,
        None => {
            return None;
        }
    };
    let url = match read_text(bytes, pos) {
        Some(s) => s,
        None => {
            return None;
        }
    };
    Some(Article { title, date, url })
}

#[verifier::loop_isolation(false)]
#[verifier::rlimit(100)]
fn read_feed(bytes: &Vec<u8>, pos: &mut usize) -> (r: Option<Feed>)
    ensures
        match r {
            Some(f) => f.wf() && deser_feed(bytes@, *old(pos) as int) == Some(
                (f.rep(), *final(pos) as int),
            ) && *final(pos) <= bytes@.len(),
            None => deser_feed(bytes@, *old(pos) as int) is None,
        },
{
    let title = match read_text(bytes, pos) {
        Some(s) => s,
        None => {
            return None;
        }
    };
    let url = match read_text(bytes, pos) {
        Some(s) => s,
        None => {
            return None;
        }
    };
    let updated = match read_i64(bytes, pos) {
        Some(v) => v,
        None => {
            return None;
        }
    };
    let visible = match read_bool(bytes, pos) {
        Some(v) => v,
        None => {
            return None;
        }
    };
    let n = match read_u64(bytes, pos) {
        Some(v) => v,
        None => {
            return None;
        }
    };
    let ghost p0 = *pos as int;
    let mut entries: Vec<(String, Article)> = Vec::new();
    let mut cnt: u64 = 0;
    proof {
        assert(Table::<Article>::pairs_of(entries@) =~= Seq::<(Seq<char>, ArticleView)>::empty());
    }
    while cnt < n
        invariant
            cnt <= n,
            *pos <= bytes@.len(),
            deser_article_pairs(bytes@, p0, cnt as int) == Some(
                (Table::<Article>::pairs_of(entries@), *pos as int),
            ),
        decreases n - cnt,
    {
        let k = match read_text(bytes, pos) {
            Some(s) => s,
            None => {
                proof {
                    lemma_deser_article_pairs_none(bytes@, p0, cnt as int + 1, n as int);
                }
                return None;
            }
        };
        let a = match read_article(bytes, pos) {
            Some(a) => a,
            None => {
                proof {
                    lemma_deser_article_pairs_none(bytes@, p0, cnt as int + 1, n as int);
                }
                return None;
            }
        };
        let ghost before = Table::<Article>::pairs_of(entries@);
        let ghost gk = k;
        let ghost ga = a;
        entries.push((k, a));
        proof {
            assert(Table::<Article>::pairs_of(entries@) =~= before.push((gk@, ga@)));
        }
        cnt = cnt + 1;
    }
    let table = match Table::<Article>::from_entries(entries) {
        Some(t) => t,
        None => {
            proof {
                lemma_article_keys_distinct(entries@);
            }
            return None;
        }
    };
    proof {
        lemma_article_keys_distinct(table.entries@);
    }
    let f = Feed { title, url, article_map: table, updated, visible };
    Some(f)
}

impl State {
    /// Decodes a snapshot the encoder produced; a byte sequence that
    /// does not spell out a well-formed state, to the last byte, is
    /// rejected — exactly when [`deser_state_full`] says so.
    #[verifier::loop_isolation(false)]
    #[verifier::rlimit(100)]
    pub fn deserialize(bytes: &Vec<u8>) -> (r: Option<State>)
        ensures
            match r {
                Some(st) => st.wf() && deser_state_full(bytes@) == Some(st.rep()),
                None => deser_state_full(bytes@) is None,
            },
    {
        let mut pos: usize = 0;
        let new_feed_url = match read_text(bytes, &mut pos) {
            Some(s) => s,
            None => {
                return None;
            }
        };
        let n = match read_u64(bytes, &mut pos) {
            Some(v) => v,
            None => {
                return None;
            }
        };
        let ghost p0 = pos as int;
        let mut entries: Vec<(String, Feed)> = Vec::new();
        let mut cnt: u64 = 0;
        proof {
            assert(feeds_rep_of(entries@) =~= Seq::<(Seq<char>, FeedRep)>::empty());
        }
        while cnt < n
            invariant
                cnt <= n,
                pos <= bytes@.len(),
                deser_feed_pairs(bytes@, p0, cnt as int) == Some(
                    (feeds_rep_of(entries@), pos as int),
                ),
                forall|j: int|
                    0 <= j < entries@.len() ==> (#[trigger] entries@[j].1).wf()
                        && entries@[j].1.url@ == entries@[j].0@,
            decreases n - cnt,
        {
            let k = match read_text(bytes, &mut pos) {
                Some(s) => s,
                None => {
                    proof {
                        lemma_deser_feed_pairs_none(bytes@, p0, cnt as int + 1, n as int);
                    }
                    return None;
                }
            };
            let f = match read_feed(bytes, &mut pos) {
                Some(f) => f,
                None => {
                    proof {
                        lemma_deser_feed_pairs_none(bytes@, p0, cnt as int + 1, n as int);
                    }
                    return None;
                }
            };
            if !(f.url == k) {
                proof {
                    lemma_deser_feed_pairs_none(bytes@, p0, cnt as int + 1, n as int);
                }
                return None;
            }
            let ghost before = feeds_rep_of(entries@);
            let ghost gk = k;
            let ghost gf = f;
            entries.push((k, f));
            proof {
                assert(feeds_rep_of(entries@) =~= before.push((gk@, gf.rep())));
            }
            cnt = cnt + 1;
        }
        let table = match Table::<Feed>::from_entries(entries) {
            Some(t) => t,
            None => {
                proof {
                    lemma_feed_keys_distinct(entries@);
                }
                return None;
            }
        };
        proof {
            lemma_feed_keys_distinct(table.entries@);
        }
        let st = State { new_feed_url, feed_map: table };
        if pos == bytes.len() {
            Some(st)
        } else {
            None
        }
    }
}

} // verus!
