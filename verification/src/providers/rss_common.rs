//! The shared RSS provider: feed URL validation, response checks, and the
//! turning of feed items into incidents.
use vstd::prelude::*;
use crate::config::is_invalid_config;
use crate::error::AppError;
use crate::monitor::incident::Incident;
use crate::utils::text::{
    ascii_lower, chars_of, decimal, digits_value, find, find_chars, format_decimal, lemma_find, slice_chars,
    same_text, string_from_chars, to_ascii_lower, trim, trim_chars, is_digit,
};

verus! {

/// The largest feed body accepted: 10 MB.
pub const MAX_FEED_SIZE: usize = 10 * 1024 * 1024;

/// `s` cut at every occurrence of the non-empty `pat`, as `str::split` cuts it.
pub open spec fn split_on(s: Seq<char>, pat: Seq<char>) -> Seq<Seq<char>>
    decreases s.len(),
{
    if pat.len() == 0 {
        seq![s]
    } else {
        match find(s, pat) {
            Some(i) => if 0 <= i && i + pat.len() <= s.len() {
                seq![s.take(i)] + split_on(s.skip(i + pat.len()), pat)
            } else {
                seq![s]
            },
            None => seq![s],
        }
    }
}

pub open spec fn item_open_pattern() -> Seq<char> {
    seq!['<', 'i', 't', 'e', 'm']
}

pub open spec fn item_close_pattern() -> Seq<char> {
    seq!['<', '/', 'i', 't', 'e', 'm', '>']
}

/// The trimmed text between the first `<tag ...>` of `block` and the next
/// `</tag>`, if both are there.
pub open spec fn inner_text_of(block: Seq<char>, tag: Seq<char>) -> Option<Seq<char>> {
    match find(block, seq!['<'] + tag) {
        None => None,
        Some(open) => match find(block.skip(open), seq!['>']) {
            None => None,
            Some(g) => {
                let gt = open + g + 1;
                match find(block.skip(gt), seq!['<', '/'] + tag + seq!['>']) {
                    None => None,
                    Some(c) => Some(trim(block.subrange(gt, gt + c))),
                }
            },
        },
    }
}

/// The text of an item block up to its `</item>`, if it has one.
pub open spec fn item_body(block: Seq<char>) -> Seq<char> {
    match find(block, item_close_pattern()) {
        Some(j) => if 0 <= j <= block.len() {
            block.take(j)
        } else {
            block
        },
        None => block,
    }
}

/// The (guid, status) pairs of the item blocks that have both, in order.
pub open spec fn status_pairs_of(blocks: Seq<Seq<char>>) -> Seq<(Seq<char>, Seq<char>)>
    decreases blocks.len(),
{
    if blocks.len() == 0 {
        Seq::empty()
    } else {
        let rest = status_pairs_of(blocks.drop_last());
        let body = item_body(blocks.last());
        match (
            inner_text_of(body, seq!['g', 'u', 'i', 'd']),
            inner_text_of(body, seq!['s', 't', 'a', 't', 'u', 's']),
        ) {
            (Some(g), Some(st)) => rest.push((g, st)),
            _ => rest,
        }
    }
}

/// The (guid, status) pairs recovered from raw feed text: every piece after
/// an `<item`, up to its `</item>`.
pub open spec fn item_statuses(xml: Seq<char>) -> Seq<(Seq<char>, Seq<char>)> {
    status_pairs_of(split_on(xml, item_open_pattern()).skip(1))
}

/// The status recorded for `guid`: the last pair for it wins, as in a map
/// filled in order.
pub open spec fn status_for(pairs: Seq<(Seq<char>, Seq<char>)>, guid: Seq<char>) -> Option<
    Seq<char>,
>
    decreases pairs.len(),
{
    if pairs.len() == 0 {
        None
    } else if pairs.last().0 == guid {
        Some(pairs.last().1)
    } else {
        status_for(pairs.drop_last(), guid)
    }
}

proof fn lemma_split_step(s: Seq<char>, p: int, k: int, pat: Seq<char>)
    requires
        pat.len() > 0,
        0 <= p <= s.len(),
        find(s.skip(p), pat) == Some(k - p),
    ensures
        p <= k,
        k + pat.len() <= s.len(),
        split_on(s.skip(p), pat) == seq![s.subrange(p, k)] + split_on(s.skip(k + pat.len()), pat),
{
    lemma_find(s.skip(p), pat);
    assert(s.skip(p).take(k - p) =~= s.subrange(p, k));
    assert(s.skip(p).skip(k - p + pat.len()) =~= s.skip(k + pat.len()));
}

fn split_on_chars(v: &Vec<char>, pat: &Vec<char>) -> (r: Vec<Vec<char>>)
    requires
        pat.len() > 0,
    ensures
        r@.map_values(|p: Vec<char>| p@) == split_on(v@, pat@),
{
    let mut pieces: Vec<Vec<char>> = Vec::new();
    let mut p: usize = 0;
    assert(v@.skip(0) =~= v@);
    loop
        invariant_except_break
            pat.len() > 0,
            0 <= p <= v.len(),
            pieces@.map_values(|q: Vec<char>| q@) + split_on(v@.skip(p as int), pat@) == split_on(
                v@,
                pat@,
            ),
        ensures
            pieces@.map_values(|q: Vec<char>| q@) == split_on(v@, pat@),
        decreases v.len() - p,
    {
        let ghost before = pieces@.map_values(|q: Vec<char>| q@);
        proof {
            lemma_find(v@.skip(p as int), pat@);
        }
        match find_chars(v, p, pat) {
            Some(k) => {
                proof {
                    lemma_split_step(v@, p as int, k as int, pat@);
                }
                let piece = slice_chars(v, p, k);
                pieces.push(piece);
                assert(pieces@.map_values(|q: Vec<char>| q@) =~= before.push(v@.subrange(
                    p as int,
                    k as int,
                )));
                assert(before + (seq![v@.subrange(p as int, k as int)] + split_on(
                    v@.skip(k + pat.len()),
                    pat@,
                )) =~= before.push(v@.subrange(p as int, k as int)) + split_on(
                    v@.skip(k + pat.len()),
                    pat@,
                ));
                p = k + pat.len();
            },
            None => {
                let piece = slice_chars(v, p, v.len());
                assert(v@.subrange(p as int, v.len() as int) =~= v@.skip(p as int));
                pieces.push(piece);
                assert(pieces@.map_values(|q: Vec<char>| q@) =~= before + split_on(
                    v@.skip(p as int),
                    pat@,
                ));
                break;
            },
        }
    }
    pieces
}

fn inner_text_chars(block: &Vec<char>, tag: &Vec<char>) -> (r: Option<Vec<char>>)
    ensures
        match inner_text_of(block@, tag@) {
            Some(t) => r matches Some(v) && v@ == t,
            None => r is None,
        },
{
    let mut open_pat: Vec<char> = vec!['<'];
    let mut close_pat: Vec<char> = vec!['<', '/'];
    let mut k: usize = 0;
    while k < tag.len()
        invariant
            0 <= k <= tag.len(),
            open_pat@ == seq!['<'] + tag@.take(k as int),
            close_pat@ == seq!['<', '/'] + tag@.take(k as int),
        decreases tag.len() - k,
    {
        open_pat.push(tag[k]);
        close_pat.push(tag[k]);
        k += 1;
        assert(open_pat@ =~= seq!['<'] + tag@.take(k as int));
        assert(close_pat@ =~= seq!['<', '/'] + tag@.take(k as int));
    }
    close_pat.push('>');
    assert(tag@.take(k as int) =~= tag@);
    assert(close_pat@ =~= seq!['<', '/'] + tag@ + seq!['>']);
    let gt_pat = vec!['>'];
    assert(gt_pat@ =~= seq!['>']);
    assert(block@.skip(0) =~= block@);
    proof {
        lemma_find(block@, open_pat@);
    }
    let open = match find_chars(block, 0, &open_pat) {
        Some(o) => o,
        None => return None,
    };
    proof {
        lemma_find(block@.skip(open as int), gt_pat@);
    }
    let g = match find_chars(block, open, &gt_pat) {
        Some(g) => g,
        None => return None,
    };
    let gt = g + 1;
    proof {
        lemma_find(block@.skip(gt as int), close_pat@);
    }
    let close = match find_chars(block, gt, &close_pat) {
        Some(c) => c,
        None => return None,
    };
    let inner = slice_chars(block, gt, close);
    Some(trim_chars(&inner))
}

/// The trimmed inner text of the first `<tag ...>...</tag>` in `block`,
/// tolerating attributes on the opening tag.
pub fn inner_text(block: &str, tag: &str) -> (r: Option<String>)
    ensures
        match inner_text_of(block@, tag@) {
            Some(t) => r matches Some(s) && s@ == t,
            None => r is None,
        },
{
    let b = chars_of(block);
    let t = chars_of(tag);
    match inner_text_chars(&b, &t) {
        Some(v) => Some(string_from_chars(&v)),
        None => None,
    }
}

fn item_body_chars(block: &Vec<char>) -> (r: Vec<char>)
    ensures
        r@ == item_body(block@),
{
    let close = vec!['<', '/', 'i', 't', 'e', 'm', '>'];
    assert(close@ =~= item_close_pattern());
    assert(block@.skip(0) =~= block@);
    proof {
        lemma_find(block@, close@);
    }
    match find_chars(block, 0, &close) {
        Some(j) => {
            let r = slice_chars(block, 0, j);
            assert(r@ =~= block@.take(j as int));
            r
        },
        None => slice_chars(block, 0, block.len()),
    }
}

fn extract_statuses_chars(xml: &Vec<char>) -> (r: Vec<(String, String)>)
    ensures
        r@.map_values(|p: (String, String)| (p.0@, p.1@)) == item_statuses(xml@),
{
    let open = vec!['<', 'i', 't', 'e', 'm'];
    assert(open@ =~= item_open_pattern());
    let guid_tag = vec!['g', 'u', 'i', 'd'];
    let status_tag = vec!['s', 't', 'a', 't', 'u', 's'];
    assert(guid_tag@ =~= seq!['g', 'u', 'i', 'd']);
    assert(status_tag@ =~= seq!['s', 't', 'a', 't', 'u', 's']);
    let pieces = split_on_chars(xml, &open);
    let ghost blocks = pieces@.map_values(|q: Vec<char>| q@).skip(1);
    let mut out: Vec<(String, String)> = Vec::new();
    let mut i: usize = 1;
    assert(blocks.take(0) =~= Seq::<Seq<char>>::empty());
    while i < pieces.len()
        invariant
            1 <= i <= pieces.len() || pieces.len() == 0,
            blocks == pieces@.map_values(|q: Vec<char>| q@).skip(1),
            pieces.len() > 0 ==> out@.map_values(|p: (String, String)| (p.0@, p.1@))
                == status_pairs_of(blocks.take(i - 1)),
            pieces.len() == 0 ==> out@.len() == 0,
            guid_tag@ == seq!['g', 'u', 'i', 'd'],
            status_tag@ == seq!['s', 't', 'a', 't', 'u', 's'],
        decreases pieces.len() - i,
    {
        let ghost before = out@.map_values(|p: (String, String)| (p.0@, p.1@));
        assert(blocks.take(i as int).drop_last() =~= blocks.take(i - 1));
        assert(blocks.take(i as int).last() == pieces@[i as int]@);
        let body = item_body_chars(&pieces[i]);
        let g = inner_text_chars(&body, &guid_tag);
        let st = inner_text_chars(&body, &status_tag);
        match (g, st) {
            (Some(g), Some(st)) => {
                let pair = (string_from_chars(&g), string_from_chars(&st));
                out.push(pair);
                assert(out@.map_values(|p: (String, String)| (p.0@, p.1@)) =~= before.push(
                    (g@, st@),
                ));
            },
            _ => {},
        }
        i += 1;
    }
    proof {
        if pieces.len() > 0 {
            assert(blocks.take(i - 1) =~= blocks);
        } else {
            assert(blocks.len() == 0);
            assert(out@.map_values(|p: (String, String)| (p.0@, p.1@)) =~= status_pairs_of(
                blocks,
            ));
        }
    }
    out
}

/// Recovers (guid, status) pairs from raw feed text, for feeds whose items
/// carry an unqualified `<status>` element. Items lacking either a `<guid>`
/// or a `<status>` are skipped.
pub fn extract_item_statuses(xml: &str) -> (r: Vec<(String, String)>)
    ensures
        r@.map_values(|p: (String, String)| (p.0@, p.1@)) == item_statuses(xml@),
{
    let v = chars_of(xml);
    extract_statuses_chars(&v)
}


/// The fields of one feed item that incidents are made of.
pub struct RssItem {
    pub guid: Option<String>,
    pub title: Option<String>,
    pub description: Option<String>,
    pub link: Option<String>,
    pub pub_date: Option<String>,
}

pub open spec fn opt_text(o: Option<String>) -> Option<Seq<char>> {
    match o {
        Some(s) => Some(s@),
        None => None,
    }
}

impl View for RssItem {
    /// Guid, title, description, link and publication date.
    type V = (
        Option<Seq<char>>,
        Option<Seq<char>>,
        Option<Seq<char>>,
        Option<Seq<char>>,
        Option<Seq<char>>,
    );

    open spec fn view(&self) -> Self::V {
        (
            opt_text(self.guid),
            opt_text(self.title),
            opt_text(self.description),
            opt_text(self.link),
            opt_text(self.pub_date),
        )
    }
}

/// What `rss::Channel::read_from` makes of `bytes`: `None` when it fails,
/// else the items of the channel in order, each as its guid value, title,
/// description, link and publication date.
pub uninterp spec fn rss_feed_items(bytes: Seq<u8>) -> Option<
    Seq<
        (
            Option<Seq<char>>,
            Option<Seq<char>>,
            Option<Seq<char>>,
            Option<Seq<char>>,
            Option<Seq<char>>,
        ),
    >,
>;

/// What `String::from_utf8_lossy` makes of `bytes`.
pub uninterp spec fn utf8_lossy(bytes: Seq<u8>) -> Seq<char>;

/// Calls `rss::Channel::read_from` on `bytes` and copies out the fields of
/// each item; the result is named by `rss_feed_items` and depends on the
/// bytes alone. The error is passed on as it is.
#[verifier::external_body]
fn read_feed_items(bytes: &[u8]) -> (r: Result<Vec<RssItem>, rss::Error>)
    ensures
        match r {
            Ok(items) => rss_feed_items(bytes@) == Some(items@.map_values(|i: RssItem| i@)),
            Err(_) => rss_feed_items(bytes@) is None,
        },
{
    let channel = rss::Channel::read_from(bytes)?;
    Ok(
        channel.items().iter().map(
            |item| RssItem {
                guid: item.guid().map(|g| g.value().to_string()),
                title: item.title().map(|t| t.to_string()),
                description: item.description().map(|d| d.to_string()),
                link: item.link().map(|l| l.to_string()),
                pub_date: item.pub_date().map(|p| p.to_string()),
            },
        ).collect(),
    )
}

/// Calls `String::from_utf8_lossy`; the result is named by `utf8_lossy`
/// and depends on the bytes alone. Bytes that are valid UTF-8 decode to the
/// characters they encode (invalid sequences become U+FFFD, which the
/// contract does not describe).
#[verifier::external_body]
fn decode_utf8_lossy(bytes: &[u8]) -> (s: String)
    ensures
        s@ == utf8_lossy(bytes@),
        vstd::utf8::valid_utf8(bytes@) ==> s@ == vstd::utf8::decode_utf8(bytes@),
{
    String::from_utf8_lossy(bytes).into_owned()
}

/// `s` with ASCII letters lower-cased.
pub open spec fn ascii_folded(s: Seq<char>) -> Seq<char> {
    s.map_values(|c: char| ascii_lower(c))
}

/// Whether `status` matches, ignoring ASCII case, one of `drops`.
pub open spec fn is_dropped_status(drops: Seq<Seq<char>>, status: Seq<char>) -> bool {
    exists|i: int| 0 <= i < drops.len() && #[trigger] ascii_folded(drops[i]) == ascii_folded(status)
}

pub open spec fn text_or_empty(o: Option<Seq<char>>) -> Seq<char> {
    match o {
        Some(s) => s,
        None => Seq::empty(),
    }
}

/// The incident made of one feed item: none without a guid or a title, or
/// when the status recovered for its guid is on the drop list.
pub open spec fn item_incident(
    item: (
        Option<Seq<char>>,
        Option<Seq<char>>,
        Option<Seq<char>>,
        Option<Seq<char>>,
        Option<Seq<char>>,
    ),
    provider: Seq<char>,
    drops: Seq<Seq<char>>,
    statuses: Seq<(Seq<char>, Seq<char>)>,
) -> Option<(Seq<char>, Seq<char>, Seq<char>, Seq<char>, Seq<char>, Seq<char>)> {
    match (item.0, item.1) {
        (Some(guid), Some(title)) => {
            let dropped = match status_for(statuses, guid) {
                Some(st) => is_dropped_status(drops, st),
                None => false,
            };
            if dropped {
                None
            } else {
                Some(
                    (
                        provider,
                        guid,
                        title,
                        text_or_empty(item.2),
                        text_or_empty(item.3),
                        text_or_empty(item.4),
                    ),
                )
            }
        },
        _ => None,
    }
}

/// The incidents made of `items`, in order.
pub open spec fn feed_incidents(
    items: Seq<
        (
            Option<Seq<char>>,
            Option<Seq<char>>,
            Option<Seq<char>>,
            Option<Seq<char>>,
            Option<Seq<char>>,
        ),
    >,
    provider: Seq<char>,
    drops: Seq<Seq<char>>,
    statuses: Seq<(Seq<char>, Seq<char>)>,
) -> Seq<(Seq<char>, Seq<char>, Seq<char>, Seq<char>, Seq<char>, Seq<char>)>
    decreases items.len(),
{
    if items.len() == 0 {
        Seq::empty()
    } else {
        let rest = feed_incidents(items.drop_last(), provider, drops, statuses);
        match item_incident(items.last(), provider, drops, statuses) {
            Some(i) => rest.push(i),
            None => rest,
        }
    }
}

/// An item yields an incident exactly when it has a guid and a title and
/// its status is not on the drop list; the incident carries the provider,
/// the guid as id, the title, and the item's description, `<link>` and
/// `<pubDate>` (each empty when absent) as description, link and date.
pub proof fn lemma_item_incident_fields(
    item: (
        Option<Seq<char>>,
        Option<Seq<char>>,
        Option<Seq<char>>,
        Option<Seq<char>>,
        Option<Seq<char>>,
    ),
    provider: Seq<char>,
    drops: Seq<Seq<char>>,
    statuses: Seq<(Seq<char>, Seq<char>)>,
)
    ensures
        item_incident(item, provider, drops, statuses) is Some <==> {
            &&& item.0 is Some
            &&& item.1 is Some
            &&& !(status_for(statuses, item.0.unwrap()) matches Some(st) && is_dropped_status(
                drops,
                st,
            ))
        },
        item_incident(item, provider, drops, statuses) matches Some(i) ==> {
            &&& i.0 == provider
            &&& item.0 == Some(i.1)
            &&& item.1 == Some(i.2)
            &&& i.3 == text_or_empty(item.2)
            &&& i.4 == text_or_empty(item.3)
            &&& i.5 == text_or_empty(item.4)
        },
{
}

/// Every incident of a feed is the incident of one of its items, and the
/// incidents come in the order of their items.
pub proof fn lemma_feed_incidents_from_items(
    items: Seq<
        (
            Option<Seq<char>>,
            Option<Seq<char>>,
            Option<Seq<char>>,
            Option<Seq<char>>,
            Option<Seq<char>>,
        ),
    >,
    provider: Seq<char>,
    drops: Seq<Seq<char>>,
    statuses: Seq<(Seq<char>, Seq<char>)>,
)
    ensures
        feed_incidents(items, provider, drops, statuses).len() <= items.len(),
        forall|k: int|
            0 <= k < feed_incidents(items, provider, drops, statuses).len() ==> exists|j: int|
                0 <= j < items.len() && #[trigger] item_incident(items[j], provider, drops, statuses)
                    == Some(#[trigger] feed_incidents(items, provider, drops, statuses)[k]),
        (forall|j: int| 0 <= j < items.len() ==> #[trigger] item_incident(items[j], provider, drops, statuses) is Some)
            ==> feed_incidents(items, provider, drops, statuses).len() == items.len(),
    decreases items.len(),
{
    if items.len() > 0 {
        let init = items.drop_last();
        lemma_feed_incidents_from_items(init, provider, drops, statuses);
        let rest = feed_incidents(init, provider, drops, statuses);
        let r = feed_incidents(items, provider, drops, statuses);
        assert forall|k: int| 0 <= k < r.len() implies exists|j: int|
            0 <= j < items.len() && #[trigger] item_incident(items[j], provider, drops, statuses)
                == Some(#[trigger] r[k]) by {
            if k < rest.len() {
                let j = choose|j: int|
                    0 <= j < init.len() && #[trigger] item_incident(init[j], provider, drops, statuses)
                        == Some(rest[k]);
                assert(items[j] == init[j]);
            } else {
                assert(items[items.len() - 1] == items.last());
            }
        }
        if forall|j: int| 0 <= j < items.len() ==> #[trigger] item_incident(items[j], provider, drops, statuses) is Some {
            assert forall|j: int| 0 <= j < init.len() implies #[trigger] item_incident(init[j], provider, drops, statuses) is Some by {
                assert(items[j] == init[j]);
            }
            assert(item_incident(items[items.len() - 1], provider, drops, statuses) is Some);
        }
    }
}

pub open spec fn texts_of(strs: Seq<&str>) -> Seq<Seq<char>> {
    strs.map_values(|s: &str| s@)
}

fn eq_ignore_ascii_case(a: &str, b: &str) -> (r: bool)
    ensures
        r == (ascii_folded(a@) == ascii_folded(b@)),
{
    let va = chars_of(a);
    let vb = chars_of(b);
    if va.len() != vb.len() {
        assert(ascii_folded(a@).len() != ascii_folded(b@).len());
        return false;
    }
    let mut i: usize = 0;
    while i < va.len()
        invariant
            va@ == a@,
            vb@ == b@,
            va.len() == vb.len(),
            0 <= i <= va.len(),
            forall|j: int| 0 <= j < i ==> ascii_lower(va@[j]) == ascii_lower(vb@[j]),
        decreases va.len() - i,
    {
        if to_ascii_lower(va[i]) != to_ascii_lower(vb[i]) {
            assert(ascii_folded(a@)[i as int] != ascii_folded(b@)[i as int]);
            return false;
        }
        i += 1;
    }
    assert(ascii_folded(a@) =~= ascii_folded(b@));
    true
}

fn status_lookup<'a>(statuses: &'a Vec<(String, String)>, guid: &String) -> (r: Option<&'a String>)
    ensures
        match status_for(statuses@.map_values(|p: (String, String)| (p.0@, p.1@)), guid@) {
            Some(st) => r matches Some(s) && s@ == st,
            None => r is None,
        },
{
    let ghost pairs = statuses@.map_values(|p: (String, String)| (p.0@, p.1@));
    let mut j = statuses.len();
    assert(pairs.take(j as int) =~= pairs);
    while j > 0
        invariant
            j <= statuses.len(),
            pairs == statuses@.map_values(|p: (String, String)| (p.0@, p.1@)),
            status_for(pairs, guid@) == status_for(pairs.take(j as int), guid@),
        decreases j,
    {
        assert(pairs.take(j as int).last() == pairs[j - 1]);
        if statuses[j - 1].0 == *guid {
            return Some(&statuses[j - 1].1);
        }
        assert(pairs.take(j as int).drop_last() =~= pairs.take(j - 1));
        j -= 1;
    }
    None
}

fn status_is_dropped(drop_statuses: &[&str], status: &String) -> (r: bool)
    ensures
        r == is_dropped_status(texts_of(drop_statuses@), status@),
{
    let mut i: usize = 0;
    while i < drop_statuses.len()
        invariant
            0 <= i <= drop_statuses@.len(),
            forall|j: int|
                0 <= j < i ==> ascii_folded(#[trigger] texts_of(drop_statuses@)[j]) != ascii_folded(
                    status@,
                ),
        decreases drop_statuses.len() - i,
    {
        if eq_ignore_ascii_case(drop_statuses[i], status.as_str()) {
            assert(texts_of(drop_statuses@)[i as int] == drop_statuses@[i as int]@);
            return true;
        }
        assert(texts_of(drop_statuses@)[i as int] == drop_statuses@[i as int]@);
        i += 1;
    }
    false
}

fn text_or_empty_string(o: &Option<String>) -> (s: String)
    ensures
        s@ == text_or_empty(opt_text(*o)),
{
    match o {
        Some(t) => t.clone(),
        None => String::new(),
    }
}

/// Turns feed items into incidents for `provider`: items without a guid or a
/// title are skipped, and so is an item whose recovered status (the last
/// pair of `statuses` for its guid) matches, ignoring ASCII case, one of
/// `drop_statuses`.
pub fn incidents_from_items(
    items: &Vec<RssItem>,
    statuses: &Vec<(String, String)>,
    provider: &str,
    drop_statuses: &[&str],
) -> (r: Vec<Incident>)
    ensures
        r@.map_values(|i: Incident| i@) == feed_incidents(
            items@.map_values(|i: RssItem| i@),
            provider@,
            texts_of(drop_statuses@),
            statuses@.map_values(|p: (String, String)| (p.0@, p.1@)),
        ),
{
    let ghost views = items@.map_values(|i: RssItem| i@);
    let ghost drops = texts_of(drop_statuses@);
    let ghost pairs = statuses@.map_values(|p: (String, String)| (p.0@, p.1@));
    let mut out: Vec<Incident> = Vec::new();
    let mut i: usize = 0;
    assert(views.take(0) =~= Seq::empty());
    while i < items.len()
        invariant
            0 <= i <= items.len(),
            views == items@.map_values(|i: RssItem| i@),
            drops == texts_of(drop_statuses@),
            pairs == statuses@.map_values(|p: (String, String)| (p.0@, p.1@)),
            out@.map_values(|x: Incident| x@) == feed_incidents(
                views.take(i as int),
                provider@,
                drops,
                pairs,
            ),
        decreases items.len() - i,
    {
        let ghost before = out@.map_values(|x: Incident| x@);
        assert(views.take(i + 1).drop_last() =~= views.take(i as int));
        assert(views.take(i + 1).last() == items@[i as int]@);
        let item = &items[i];
        match (&item.guid, &item.title) {
            (Some(guid), Some(title)) => {
                let dropped = match status_lookup(statuses, guid) {
                    Some(st) => status_is_dropped(drop_statuses, st),
                    None => false,
                };
                if !dropped {
                    let incident = Incident {
                        id: guid.clone(),
                        provider: provider.to_owned(),
                        title: title.clone(),
                        description: text_or_empty_string(&item.description),
                        link: text_or_empty_string(&item.link),
                        occurred_at: text_or_empty_string(&item.pub_date),
                    };
                    out.push(incident);
                    assert(out@.map_values(|x: Incident| x@) =~= before.push(
                        item_incident(items@[i as int]@, provider@, drops, pairs).unwrap(),
                    ));
                }
            },
            _ => {},
        }
        i += 1;
    }
    assert(views.take(i as int) =~= views);
    out
}

/// Parses an RSS feed into incidents for `provider`, dropping items whose
/// `<status>` matches one of `drop_statuses` (the statuses are recovered
/// from the raw text only when that list is not empty).
pub fn parse_incidents_from_bytes(bytes: &[u8], provider: &str, drop_statuses: &[&str]) -> (r:
    Result<Vec<Incident>, AppError>)
    ensures
        match rss_feed_items(bytes@) {
            None => r matches Err(AppError::Rss(_)),
            Some(items) => r matches Ok(v) && v@.map_values(|i: Incident| i@) == feed_incidents(
                items,
                provider@,
                texts_of(drop_statuses@),
                if drop_statuses@.len() == 0 {
                    Seq::empty()
                } else {
                    item_statuses(utf8_lossy(bytes@))
                },
            ),
        },
{
    let items = match read_feed_items(bytes) {
        Ok(items) => items,
        Err(e) => return Err(AppError::Rss(e)),
    };
    let statuses = if drop_statuses.len() == 0 {
        let empty: Vec<(String, String)> = Vec::new();
        assert(empty@.map_values(|p: (String, String)| (p.0@, p.1@)) =~= Seq::<
            (Seq<char>, Seq<char>),
        >::empty());
        empty
    } else {
        let text = decode_utf8_lossy(bytes);
        extract_item_statuses(text.as_str())
    };
    Ok(incidents_from_items(&items, &statuses, provider, drop_statuses))
}


/// What `url::Url::parse` makes of `text`: its scheme and host text, or the
/// text of the parse error.
pub uninterp spec fn parsed_url(text: Seq<char>) -> Result<(Seq<char>, Option<Seq<char>>), Seq<char>>;

/// What `format!("{:?}", list)` writes for a list of strings.
pub uninterp spec fn debug_text_list(items: Seq<Seq<char>>) -> Seq<char>;

/// The parts of a URL the validation reads.
pub struct UrlParts {
    pub scheme: String,
    pub host: Option<String>,
}

/// Calls `url::Url::parse` and copies out the scheme and the host text (or
/// renders the parse error); the result is named by `parsed_url` and depends
/// on the text alone.
#[verifier::external_body]
fn parse_url(text: &str) -> (r: Result<UrlParts, String>)
    ensures
        match r {
            Ok(p) => parsed_url(text@) == Ok::<(Seq<char>, Option<Seq<char>>), Seq<char>>(
                (p.scheme@, opt_text(p.host)),
            ),
            Err(m) => parsed_url(text@) == Err::<(Seq<char>, Option<Seq<char>>), Seq<char>>(m@),
        },
{
    match url::Url::parse(text) {
        Ok(u) => Ok(UrlParts { scheme: u.scheme().to_string(), host: u.host_str().map(|h| h.to_string()) }),
        Err(e) => Err(e.to_string()),
    }
}

/// Calls `format!("{:?}", items)`; the result is named by `debug_text_list`
/// and depends on the strings alone.
#[verifier::external_body]
fn debug_list(items: &[&str]) -> (s: String)
    ensures
        s@ == debug_text_list(texts_of(items@)),
{
    format!("{:?}", items)
}

/// Whether `s` ends with `suffix`.
pub open spec fn ends_with(s: Seq<char>, suffix: Seq<char>) -> bool {
    s.len() >= suffix.len() && s.skip(s.len() - suffix.len()) == suffix
}

/// Whether `host` is one of `allowed` or a subdomain of one.
pub open spec fn host_allowed(host: Seq<char>, allowed: Seq<Seq<char>>) -> bool {
    exists|i: int|
        0 <= i < allowed.len() && (host == allowed[i] || ends_with(
            host,
            seq!['.'] + #[trigger] allowed[i],
        ))
}

/// Whether `p` is one decimal octet of a dotted-quad address as the standard
/// library reads it: one to three digits, no leading zero, at most 255.
pub open spec fn is_octet(p: Seq<char>) -> bool {
    &&& 1 <= p.len() <= 3
    &&& forall|i: int| 0 <= i < p.len() ==> is_digit(#[trigger] p[i])
    &&& (p.len() == 1 || p[0] != '0')
    &&& digits_value(p) <= 255
}

/// The four octets of `host` when it is a dotted-quad IPv4 address.
pub open spec fn ipv4_octets(host: Seq<char>) -> Option<Seq<nat>> {
    let parts = split_on(host, seq!['.']);
    if parts.len() == 4 && is_octet(parts[0]) && is_octet(parts[1]) && is_octet(parts[2])
        && is_octet(parts[3]) {
        Some(seq![digits_value(parts[0]), digits_value(parts[1]), digits_value(parts[2]), digits_value(parts[3])])
    } else {
        None
    }
}

/// Loopback, private, link-local, unspecified or broadcast.
pub open spec fn is_internal_ipv4(o: Seq<nat>) -> bool {
    ||| o[0] == 127
    ||| o[0] == 10
    ||| o[0] == 172 && 16 <= o[1] <= 31
    ||| o[0] == 192 && o[1] == 168
    ||| o[0] == 169 && o[1] == 254
    ||| o[0] == 0 && o[1] == 0 && o[2] == 0 && o[3] == 0
    ||| o[0] == 255 && o[1] == 255 && o[2] == 255 && o[3] == 255
}

/// Whether every character of `s` is `0` or `:`.
pub open spec fn zeros_and_colons(s: Seq<char>) -> bool {
    forall|i: int| 0 <= i < s.len() ==> (#[trigger] s[i] == '0' || s[i] == ':')
}

/// Whether `host` is a bracketed IPv6 address, written in hex groups, that
/// is the unspecified address `::` (every group zero) or the loopback `::1`
/// (every group zero but the last, which is one). `url` writes IPv6 hosts
/// this way, in brackets and in compressed hex form (`[::]`, `[::1]`).
pub open spec fn is_internal_ipv6(host: Seq<char>) -> bool {
    &&& host.len() >= 2
    &&& host[0] == '['
    &&& host.last() == ']'
    &&& {
        let t = host.subrange(1, host.len() - 1);
        &&& t.contains(':')
        &&& (zeros_and_colons(t) || (t.last() == '1' && zeros_and_colons(t.drop_last())))
    }
}

/// Whether `host` is an internal address: a loopback, private, link-local,
/// unspecified or broadcast IPv4 address, or the loopback or unspecified
/// IPv6 address.
pub open spec fn is_internal_host(host: Seq<char>) -> bool {
    ||| (ipv4_octets(host) matches Some(o) && is_internal_ipv4(o))
    ||| is_internal_ipv6(host)
}

/// The verdict on `url`, given what parsing it gave: accepted, or refused
/// with the message of the first check that fails (parse, scheme, host,
/// allow-list, internal address).
pub open spec fn url_verdict(
    url: Seq<char>,
    allowed: Seq<Seq<char>>,
    parsed: Result<(Seq<char>, Option<Seq<char>>), Seq<char>>,
) -> Result<(), Seq<char>> {
    match parsed {
        Err(e) => Err(url + " (parse error: "@ + e + ")"@),
        Ok((scheme, host)) => if scheme != "https"@ && scheme != "http"@ {
            Err(url + " (invalid scheme: "@ + scheme + ")"@)
        } else {
            match host {
                None => Err(url + " (no host)"@),
                Some(h) => if !host_allowed(h, allowed) {
                    Err(
                        url + " (host '"@ + h + "' not in allowed domains: "@ + debug_text_list(
                            allowed,
                        ) + ")"@,
                    )
                } else if is_internal_host(h) {
                    Err(url + " (private/internal IP not allowed)"@)
                } else {
                    Ok(())
                },
            }
        },
    }
}

/// Whether `r` is the result `url_verdict` gives, under configuration key `key`.
pub open spec fn matches_verdict(r: Result<(), AppError>, key: Seq<char>, verdict: Result<(), Seq<char>>) -> bool {
    match verdict {
        Ok(()) => r is Ok,
        Err(m) => r matches Err(e) && is_invalid_config(e, key, m),
    }
}

fn ends_with_dot_domain(host: &str, domain: &str) -> (r: bool)
    ensures
        r == ends_with(host@, seq!['.'] + domain@),
{
    let h = chars_of(host);
    let d = chars_of(domain);
    let ghost suffix = seq!['.'] + domain@;
    if h.len() <= d.len() {
        return false;
    }
    let start = h.len() - d.len() - 1;
    if h[start] != '.' {
        assert(h@.skip(start as int)[0] != suffix[0]);
        return false;
    }
    let mut i: usize = 0;
    while i < d.len()
        invariant
            h@ == host@,
            d@ == domain@,
            suffix == seq!['.'] + domain@,
            start + d.len() + 1 == h.len(),
            0 <= i <= d.len(),
            forall|j: int| 0 <= j < i ==> h@[start + 1 + j] == d@[j],
        decreases d.len() - i,
    {
        if h[start + 1 + i] != d[i] {
            assert(suffix[i + 1] == d@[i as int]);
            assert(h@.skip(start as int)[i + 1] == h@[start + 1 + i]);
            return false;
        }
        i += 1;
    }
    assert(h@.skip(start as int) =~= suffix);
    true
}

fn host_is_allowed(host: &str, allowed: &[&str]) -> (r: bool)
    ensures
        r == host_allowed(host@, texts_of(allowed@)),
{
    let mut i: usize = 0;
    while i < allowed.len()
        invariant
            0 <= i <= allowed@.len(),
            forall|j: int|
                0 <= j < i ==> !(host@ == #[trigger] texts_of(allowed@)[j] || ends_with(
                    host@,
                    seq!['.'] + texts_of(allowed@)[j],
                )),
        decreases allowed.len() - i,
    {
        assert(texts_of(allowed@)[i as int] == allowed@[i as int]@);
        if same_text(host, allowed[i]) || ends_with_dot_domain(host, allowed[i]) {
            return true;
        }
        i += 1;
    }
    false
}

fn digits_to_value(p: &Vec<char>) -> (r: u32)
    requires
        p.len() <= 3,
        forall|i: int| 0 <= i < p.len() ==> is_digit(#[trigger] p@[i]),
    ensures
        r == digits_value(p@),
        r < 1000,
{
    let mut v: u32 = 0;
    let mut i: usize = 0;
    assert(p@.take(0) =~= Seq::<char>::empty());
    while i < p.len()
        invariant
            p.len() <= 3,
            forall|k: int| 0 <= k < p.len() ==> is_digit(#[trigger] p@[k]),
            0 <= i <= p.len(),
            v == digits_value(p@.take(i as int)),
            v < 1000,
            i == 0 ==> v == 0,
            i == 1 ==> v < 10,
            i == 2 ==> v < 100,
        decreases p.len() - i,
    {
        assert(p@.take(i + 1).drop_last() =~= p@.take(i as int));
        assert(is_digit(p@[i as int]));
        v = v * 10 + ((p[i] as u32) - 48);
        i += 1;
    }
    assert(p@.take(i as int) =~= p@);
    v
}

fn octet_value(p: &Vec<char>) -> (r: Option<u32>)
    ensures
        is_octet(p@) ==> r == Some(digits_value(p@) as u32),
        !is_octet(p@) ==> r is None,
{
    if p.len() < 1 || p.len() > 3 {
        return None;
    }
    let mut i: usize = 0;
    while i < p.len()
        invariant
            0 <= i <= p.len(),
            forall|k: int| 0 <= k < i ==> is_digit(#[trigger] p@[k]),
        decreases p.len() - i,
    {
        if !(p[i] >= '0' && p[i] <= '9') {
            return None;
        }
        i += 1;
    }
    if p.len() > 1 && p[0] == '0' {
        return None;
    }
    let v = digits_to_value(p);
    if v > 255 {
        return None;
    }
    Some(v)
}

fn split_dots(v: &Vec<char>) -> (r: Vec<Vec<char>>)
    ensures
        r@.map_values(|p: Vec<char>| p@) == split_on(v@, seq!['.']),
{
    let dot = vec!['.'];
    assert(dot@ =~= seq!['.']);
    split_on_chars(v, &dot)
}

fn all_zeros_and_colons(v: &Vec<char>, start: usize, end: usize) -> (b: bool)
    requires
        start <= end <= v.len(),
    ensures
        b == zeros_and_colons(v@.subrange(start as int, end as int)),
{
    let ghost t = v@.subrange(start as int, end as int);
    let mut i = start;
    while i < end
        invariant
            start <= i <= end <= v.len(),
            t == v@.subrange(start as int, end as int),
            forall|k: int| start <= k < i ==> v@[k] == '0' || v@[k] == ':',
        decreases end - i,
    {
        if v[i] != '0' && v[i] != ':' {
            assert(t[i - start] == v@[i as int]);
            return false;
        }
        i += 1;
    }
    assert forall|k: int| 0 <= k < t.len() implies (#[trigger] t[k] == '0' || t[k] == ':') by {
        assert(t[k] == v@[start + k]);
    }
    true
}

fn host_is_internal_ipv6(host: &str) -> (r: bool)
    ensures
        r == is_internal_ipv6(host@),
{
    let h = chars_of(host);
    if h.len() < 2 || h[0] != '[' || h[h.len() - 1] != ']' {
        return false;
    }
    let end = h.len() - 1;
    let ghost t = h@.subrange(1, end as int);
    let mut has_colon = false;
    let mut i: usize = 1;
    while i < end
        invariant
            1 <= i <= end,
            end == h.len() - 1,
            t == h@.subrange(1, end as int),
            has_colon == exists|k: int| 1 <= k < i && h@[k] == ':',
        decreases end - i,
    {
        if h[i] == ':' {
            has_colon = true;
        }
        i += 1;
    }
    assert(has_colon == t.contains(':')) by {
        if has_colon {
            let k = choose|k: int| 1 <= k < end && h@[k] == ':';
            assert(t[k - 1] == ':');
        }
        if t.contains(':') {
            let j = choose|j: int| 0 <= j < t.len() && t[j] == ':';
            assert(h@[j + 1] == ':');
        }
    }
    if !has_colon {
        return false;
    }
    if all_zeros_and_colons(&h, 1, end) {
        return true;
    }
    assert(t.len() > 0);
    assert(t.last() == h@[end - 1]);
    assert(t.drop_last() =~= h@.subrange(1, end - 1));
    h[end - 1] == '1' && all_zeros_and_colons(&h, 1, end - 1)
}

fn host_is_internal(host: &str) -> (r: bool)
    ensures
        r == is_internal_host(host@),
{
    if host_is_internal_ipv6(host) {
        return true;
    }
    let h = chars_of(host);
    let parts = split_dots(&h);
    let ghost pv = parts@.map_values(|p: Vec<char>| p@);
    if parts.len() != 4 {
        return false;
    }
    assert(pv[0] == parts@[0]@ && pv[1] == parts@[1]@ && pv[2] == parts@[2]@ && pv[3] == parts@[3]@);
    let o0 = match octet_value(&parts[0]) {
        Some(v) => v,
        None => return false,
    };
    let o1 = match octet_value(&parts[1]) {
        Some(v) => v,
        None => return false,
    };
    let o2 = match octet_value(&parts[2]) {
        Some(v) => v,
        None => return false,
    };
    let o3 = match octet_value(&parts[3]) {
        Some(v) => v,
        None => return false,
    };
    o0 == 127 || o0 == 10 || (o0 == 172 && 16 <= o1 && o1 <= 31) || (o0 == 192 && o1 == 168) || (
    o0 == 169 && o1 == 254) || (o0 == 0 && o1 == 0 && o2 == 0 && o3 == 0) || (o0 == 255 && o1
        == 255 && o2 == 255 && o3 == 255)
}

fn refusal(url: &str, key: &'static str, detail_start: &str, detail: &str, detail_end: &str) -> (r:
    Result<(), AppError>)
    ensures
        r matches Err(e) && is_invalid_config(e, key@, url@ + detail_start@ + detail@ + detail_end@),
{
    let mut m = url.to_owned();
    m.append(detail_start);
    m.append(detail);
    m.append(detail_end);
    Err(AppError::InvalidConfig { key, value: m })
}

/// Applies the URL checks to what parsing `url` gave: `http` or `https`
/// scheme, a host, a host on the allow-list (or a subdomain of an entry),
/// and not an internal address (`is_internal_host`).
pub fn check_parsed_url(url: &str, key: &'static str, allowed: &[&str], parsed: Result<UrlParts, String>) -> (r:
    Result<(), AppError>)
    ensures
        matches_verdict(
            r,
            key@,
            url_verdict(
                url@,
                texts_of(allowed@),
                match parsed {
                    Ok(p) => Ok((p.scheme@, opt_text(p.host))),
                    Err(m) => Err(m@),
                },
            ),
        ),
{
    let parts = match parsed {
        Ok(p) => p,
        Err(m) => return refusal(url, key, " (parse error: ", m.as_str(), ")"),
    };
    if !same_text(parts.scheme.as_str(), "https") && !same_text(parts.scheme.as_str(), "http") {
        return refusal(url, key, " (invalid scheme: ", parts.scheme.as_str(), ")");
    }
    let host = match &parts.host {
        Some(h) => h.as_str(),
        None => {
            proof {
                reveal_strlit("");
                assert(url@ + " (no host)"@ + ""@ + ""@ =~= url@ + " (no host)"@);
            }
            return refusal(url, key, " (no host)", "", "");
        },
    };
    if !host_is_allowed(host, allowed) {
        let mut detail = host.to_owned();
        detail.append("' not in allowed domains: ");
        let listed = debug_list(allowed);
        detail.append(listed.as_str());
        assert(url@ + " (host '"@ + detail@ + ")"@ =~= url@ + " (host '"@ + host@
            + "' not in allowed domains: "@ + listed@ + ")"@);
        return refusal(url, key, " (host '", detail.as_str(), ")");
    }
    if host_is_internal(host) {
        proof {
            reveal_strlit("");
            assert(url@ + " (private/internal IP not allowed)"@ + ""@ + ""@ =~= url@
                + " (private/internal IP not allowed)"@);
        }
        return refusal(url, key, " (private/internal IP not allowed)", "", "");
    }
    Ok(())
}

/// Validates `url` for configuration key `key` against the allow-list.
pub fn validate_url_for(url: &str, key: &'static str, allowed: &[&str]) -> (r: Result<(), AppError>)
    ensures
        matches_verdict(r, key@, url_verdict(url@, texts_of(allowed@), parsed_url(url@))),
{
    let parsed = parse_url(url);
    check_parsed_url(url, key, allowed, parsed)
}


/// The declared body length of a response, 0 when it declares none.
pub open spec fn declared_length(content_length: Option<u64>) -> nat {
    match content_length {
        Some(n) => n as nat,
        None => 0,
    }
}

/// An RSS status feed of one provider.
pub struct RssProvider {
    name: &'static str,
    feed_url: String,
    config_key: &'static str,
    allowed_domains: &'static [&'static str],
    skip_validation: bool,
    /// Item `<status>` values to treat as "not an incident" and drop. Some
    /// feeds carry a steady-state placeholder item whose status is healthy
    /// and whose date moves every poll; providers backed by such feeds list
    /// the healthy values here. Empty for feeds without a `<status>`.
    drop_statuses: &'static [&'static str],
}

impl RssProvider {
    pub closed spec fn name_text(&self) -> Seq<char> {
        self.name@
    }

    pub closed spec fn feed_url_text(&self) -> Seq<char> {
        self.feed_url@
    }

    pub closed spec fn config_key_text(&self) -> Seq<char> {
        self.config_key@
    }

    pub closed spec fn allowed_texts(&self) -> Seq<Seq<char>> {
        texts_of(self.allowed_domains@)
    }

    pub closed spec fn skips_validation(&self) -> bool {
        self.skip_validation
    }

    pub closed spec fn dropped_texts(&self) -> Seq<Seq<char>> {
        texts_of(self.drop_statuses@)
    }

    /// A provider whose feed URL is validated before every fetch.
    pub fn new(
        name: &'static str,
        feed_url: String,
        config_key: &'static str,
        allowed_domains: &'static [&'static str],
    ) -> (p: Self)
        ensures
            p.name_text() == name@,
            p.feed_url_text() == feed_url@,
            p.config_key_text() == config_key@,
            p.allowed_texts() == texts_of(allowed_domains@),
            !p.skips_validation(),
            p.dropped_texts().len() == 0,
    {
        let p = RssProvider {
            name,
            feed_url,
            config_key,
            allowed_domains,
            skip_validation: false,
            drop_statuses: &[],
        };
        assert(p.dropped_texts() =~= Seq::<Seq<char>>::empty());
        p
    }

    /// A provider that skips URL validation (for feeds served locally).
    pub fn new_unvalidated(
        name: &'static str,
        feed_url: String,
        config_key: &'static str,
        allowed_domains: &'static [&'static str],
    ) -> (p: Self)
        ensures
            p.name_text() == name@,
            p.feed_url_text() == feed_url@,
            p.config_key_text() == config_key@,
            p.allowed_texts() == texts_of(allowed_domains@),
            p.skips_validation(),
            p.dropped_texts().len() == 0,
    {
        let p = RssProvider {
            name,
            feed_url,
            config_key,
            allowed_domains,
            skip_validation: true,
            drop_statuses: &[],
        };
        assert(p.dropped_texts() =~= Seq::<Seq<char>>::empty());
        p
    }

    /// Drops items whose `<status>` matches, ignoring ASCII case, one of `statuses`.
    pub fn with_dropped_statuses(self, statuses: &'static [&'static str]) -> (p: Self)
        ensures
            p.name_text() == self.name_text(),
            p.feed_url_text() == self.feed_url_text(),
            p.config_key_text() == self.config_key_text(),
            p.allowed_texts() == self.allowed_texts(),
            p.skips_validation() == self.skips_validation(),
            p.dropped_texts() == texts_of(statuses@),
    {
        RssProvider { drop_statuses: statuses, ..self }
    }

    /// The provider's name.
    pub fn name(&self) -> (n: &'static str)
        ensures
            n@ == self.name_text(),
    {
        self.name
    }

    /// The feed URL.
    pub fn feed_url(&self) -> (u: &str)
        ensures
            u@ == self.feed_url_text(),
    {
        self.feed_url.as_str()
    }

    /// Checks the feed URL unless validation is skipped.
    pub fn validate_feed_url(&self) -> (r: Result<(), AppError>)
        ensures
            self.skips_validation() ==> r is Ok,
            !self.skips_validation() ==> matches_verdict(
                r,
                self.config_key_text(),
                url_verdict(self.feed_url_text(), self.allowed_texts(), parsed_url(self.feed_url_text())),
            ),
    {
        if self.skip_validation {
            return Ok(());
        }
        validate_url_for(self.feed_url.as_str(), self.config_key, self.allowed_domains)
    }

    /// Checks a response before its body is read: a redirect is refused
    /// (redirects are not followed), and so is a declared length above
    /// `MAX_FEED_SIZE`.
    pub fn check_response(&self, redirect_status: Option<&str>, content_length: Option<u64>) -> (r:
        Result<(), AppError>)
        ensures
            redirect_status matches Some(st) ==> (r matches Err(e) && is_invalid_config(
                e,
                self.config_key_text(),
                self.feed_url_text() + " returned "@ + st@ + " — redirects are not followed"@,
            )),
            redirect_status is None && declared_length(content_length) > MAX_FEED_SIZE ==> (
            r matches Err(e) && is_invalid_config(
                e,
                self.config_key_text(),
                self.feed_url_text() + " response too large: "@ + decimal(
                    declared_length(content_length),
                ) + " bytes"@,
            )),
            redirect_status is None && declared_length(content_length) <= MAX_FEED_SIZE ==> r is Ok,
    {
        match redirect_status {
            Some(st) => {
                let mut m = self.feed_url.clone();
                m.append(" returned ");
                m.append(st);
                m.append(" — redirects are not followed");
                return Err(AppError::InvalidConfig { key: self.config_key, value: m });
            },
            None => {},
        }
        let length = match content_length {
            Some(n) => n,
            None => 0,
        };
        if length > 10 * 1024 * 1024 {
            let mut m = self.feed_url.clone();
            m.append(" response too large: ");
            let digits = format_decimal(length);
            m.append(digits.as_str());
            m.append(" bytes");
            return Err(AppError::InvalidConfig { key: self.config_key, value: m });
        }
        Ok(())
    }

    /// Turns a fetched body into incidents: a body above `MAX_FEED_SIZE`
    /// bytes is refused, any other is parsed as RSS.
    pub fn incidents_from_body(&self, body: &[u8]) -> (r: Result<Vec<Incident>, AppError>)
        ensures
            body@.len() > MAX_FEED_SIZE ==> (r matches Err(e) && is_invalid_config(
                e,
                self.config_key_text(),
                self.feed_url_text() + " response too large: "@ + decimal(body@.len()) + " bytes"@,
            )),
            body@.len() <= MAX_FEED_SIZE ==> match rss_feed_items(body@) {
                None => r matches Err(AppError::Rss(_)),
                Some(items) => r matches Ok(v) && v@.map_values(|i: Incident| i@) == feed_incidents(
                    items,
                    self.name_text(),
                    self.dropped_texts(),
                    if self.dropped_texts().len() == 0 {
                        Seq::empty()
                    } else {
                        item_statuses(utf8_lossy(body@))
                    },
                ),
            },
    {
        if body.len() > MAX_FEED_SIZE {
            let mut m = self.feed_url.clone();
            m.append(" response too large: ");
            let digits = format_decimal(body.len() as u64);
            m.append(digits.as_str());
            m.append(" bytes");
            return Err(AppError::InvalidConfig { key: self.config_key, value: m });
        }
        parse_incidents_from_bytes(body, self.name, self.drop_statuses)
    }
}

} // verus!
