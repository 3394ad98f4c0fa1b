use vstd::prelude::*;
use vstd::string::StringExecFns;
use crate::error::EpubError;
use crate::package::{hash_pos, opt_text, resolved, split_anchor};
use crate::path::normalize_path;
use crate::text::{chars_of, string_of};
use crate::xml::{xml_events, attr_of, attrs_view, event_view, events_view, find_attr, read_events, same_text, EventView, XmlEvent, XmlTag};

verus! {

/// A navigation entry of one document: its label and the anchor it targets, if any.
pub struct TocEntry {
    pub text: String,
    pub anchor: Option<String>,
}

/// A navigation entry together with the normalized document it targets.
pub struct TocRecord {
    pub href: String,
    pub entry: TocEntry,
}

pub type TocEntryView = (Seq<char>, Option<Seq<char>>);

pub open spec fn entry_view(e: TocEntry) -> TocEntryView {
    (e.text@, opt_text(e.anchor))
}

pub open spec fn record_view(r: TocRecord) -> (Seq<char>, TocEntryView) {
    (r.href@, entry_view(r.entry))
}

pub open spec fn records_view(rs: Seq<TocRecord>) -> Seq<(Seq<char>, TocEntryView)> {
    rs.map_values(|r: TocRecord| record_view(r))
}

pub open spec fn entries_view(es: Seq<TocEntry>) -> Seq<TocEntryView> {
    es.map_values(|e: TocEntry| entry_view(e))
}

/// Whether `c` has the Unicode `White_Space` property.
pub open spec fn is_white(c: char) -> bool {
    let u = c as u32;
    (0x9 <= u && u <= 0xd) || u == 0x20 || u == 0x85 || u == 0xa0 || u == 0x1680 || (0x2000 <= u && u <= 0x200a)
        || u == 0x2028 || u == 0x2029 || u == 0x202f || u == 0x205f || u == 0x3000
}

fn char_is_white(c: char) -> (r: bool)
    ensures
        r == is_white(c),
{
    let u = c as u32;
    (0x9 <= u && u <= 0xd) || u == 0x20 || u == 0x85 || u == 0xa0 || u == 0x1680 || (0x2000 <= u && u <= 0x200a)
        || u == 0x2028 || u == 0x2029 || u == 0x202f || u == 0x205f || u == 0x3000
}

/// How many white-space characters `s` starts with.
pub open spec fn leading_white(s: Seq<char>) -> nat
    decreases s.len(),
{
    if s.len() == 0 || !is_white(s[0]) {
        0
    } else {
        1 + leading_white(s.drop_first())
    }
}

/// How many white-space characters `s` ends with.
pub open spec fn trailing_white(s: Seq<char>) -> nat
    decreases s.len(),
{
    if s.len() == 0 || !is_white(s.last()) {
        0
    } else {
        1 + trailing_white(s.drop_last())
    }
}

/// `s` without leading and trailing white space.
pub open spec fn trimmed(s: Seq<char>) -> Seq<char> {
    if leading_white(s) >= s.len() {
        Seq::empty()
    } else {
        s.subrange(leading_white(s) as int, s.len() - trailing_white(s))
    }
}

proof fn lemma_trailing_stops(s: Seq<char>, k: int)
    requires
        0 < k <= s.len(),
        !is_white(s[k - 1]),
        forall|j: int| k <= j < s.len() ==> is_white(#[trigger] s[j]),
    ensures
        trailing_white(s) == s.len() - k,
    decreases s.len(),
{
    if s.len() > k {
        assert(is_white(s[s.len() - 1]));
        assert forall|j: int| k <= j < s.drop_last().len() implies is_white(#[trigger] s.drop_last()[j]) by {
            assert(s.drop_last()[j] == s[j]);
        }
        lemma_trailing_stops(s.drop_last(), k);
    }
}

proof fn lemma_leading_bounds(s: Seq<char>)
    ensures
        leading_white(s) <= s.len(),
        leading_white(s) < s.len() ==> !is_white(s[leading_white(s) as int]),
    decreases s.len(),
{
    if s.len() > 0 && is_white(s[0]) {
        lemma_leading_bounds(s.drop_first());
    }
}

/// The text without leading and trailing white space, as `str::trim` gives it.
fn trim_text(s: &str) -> (r: String)
    ensures
        r@ == trimmed(s@),
{
    let cs = chars_of(s);
    let n = cs.len();
    let mut lo: usize = 0;
    assert(cs@.skip(0) =~= cs@);
    while lo < n && char_is_white(cs[lo])
        invariant
            n == cs@.len(),
            lo <= n,
            leading_white(cs@) == lo + leading_white(cs@.skip(lo as int)),
        decreases n - lo,
    {
        assert(cs@.skip(lo as int).drop_first() =~= cs@.skip(lo + 1));
        lo = lo + 1;
    }
    assert(leading_white(cs@) == lo) by {
        if lo < n {
            assert(cs@.skip(lo as int)[0] == cs@[lo as int]);
        }
    }
    if lo == n {
        return String::new();
    }
    let mut hi: usize = n;
    while hi > lo + 1 && char_is_white(cs[hi - 1])
        invariant
            n == cs@.len(),
            lo < hi <= n,
            !is_white(cs@[lo as int]),
            forall|j: int| hi <= j < n ==> is_white(#[trigger] cs@[j]),
        decreases hi,
    {
        hi = hi - 1;
    }
    proof {
        lemma_leading_bounds(cs@);
        lemma_trailing_stops(cs@, hi as int);
    }
    let mut out: Vec<char> = Vec::new();
    let mut k: usize = lo;
    while k < hi
        invariant
            lo <= k <= hi <= n,
            n == cs@.len(),
            out@ == cs@.subrange(lo as int, k as int),
        decreases hi - k,
    {
        out.push(cs[k]);
        k = k + 1;
        assert(out@ =~= cs@.subrange(lo as int, k as int));
    }
    string_of(&out)
}

/// The navigation reader's state: inside a label, the label of the innermost open
/// navigation point, how many points are open, and the entries so far.
pub type NavState = (bool, Seq<char>, nat, Seq<(Seq<char>, TocEntryView)>);

/// The entry that a navigation point with target `src` and label `text` records.
pub open spec fn record_of(src: Seq<char>, text: Seq<char>) -> (Seq<char>, TocEntryView) {
    let k = hash_pos(src);
    if k < src.len() {
        (src.take(k), (text, Some(src.skip(k + 1))))
    } else {
        (src, (text, None))
    }
}

/// The entries after a `content` element (attributes `a`) of the innermost open point
/// with label `label`: one entry for its target, when it names a non-empty one.
pub open spec fn content_entry(
    recs: Seq<(Seq<char>, TocEntryView)>,
    a: Seq<(Seq<char>, Seq<char>)>,
    base: Seq<char>,
    label: Seq<char>,
) -> Seq<(Seq<char>, TocEntryView)> {
    match attr_of(a, "src"@) {
        Some(v) => if resolved(base, v).len() > 0 {
            recs.push(record_of(resolved(base, v), label))
        } else {
            recs
        },
        None => recs,
    }
}

/// One step of the navigation reader. A point's entry is recorded at its `content`
/// element, with the label the point's `navLabel` (which precedes it) gave; points
/// nested in it come after that element, so every point, at any depth, gets its own
/// entry with its own label, in document order.
pub open spec fn nav_step(st: NavState, e: EventView, base: Seq<char>) -> NavState {
    let (in_text, label, depth, recs) = st;
    match e {
        EventView::Start(n, a) => {
            if n == "navPoint"@ {
                (in_text, Seq::empty(), depth + 1, recs)
            } else if n == "text"@ && depth > 0 {
                (true, label, depth, recs)
            } else if n == "content"@ && depth > 0 {
                (in_text, label, depth, content_entry(recs, a, base, label))
            } else {
                st
            }
        },
        EventView::Empty(n, a) => {
            if n == "content"@ && depth > 0 {
                (in_text, label, depth, content_entry(recs, a, base, label))
            } else {
                st
            }
        },
        EventView::Text(x) => {
            if in_text {
                (in_text, trimmed(x), depth, recs)
            } else {
                st
            }
        },
        EventView::End(n) => {
            if n == "navPoint"@ {
                (in_text, label, if depth > 0 { (depth - 1) as nat } else { 0 }, recs)
            } else if n == "text"@ {
                (false, label, depth, recs)
            } else {
                st
            }
        },
        _ => st,
    }
}

pub open spec fn nav_run(ev: Seq<EventView>, base: Seq<char>) -> NavState
    decreases ev.len(),
{
    if ev.len() == 0 {
        (false, Seq::empty(), 0, seq![])
    } else {
        nav_step(nav_run(ev.drop_last(), base), ev.last(), base)
    }
}

/// The entry of every navigation point, at any depth, in document order.
pub open spec fn nav_records(ev: Seq<EventView>, base: Seq<char>) -> Seq<(Seq<char>, TocEntryView)> {
    nav_run(ev, base).3
}

/// Records the entry of a `content` element of the innermost open point.
fn push_content_entry(recs: &mut Vec<TocRecord>, t: &XmlTag, base: &str, label: &String)
    ensures
        records_view(final(recs)@) == content_entry(records_view(old(recs)@), attrs_view(t.attrs@), base@, label@),
{
    match find_attr(t, "src") {
        Some(v) => {
            let mut s = String::from_str(base);
            s.append(v.as_str());
            let src = normalize_path(s.as_str());
            if !src.as_str().is_empty() {
                let (href, anchor) = split_anchor(src.as_str());
                let ghost prev = records_view(recs@);
                proof {
                    if anchor is None {
                        assert(src@.take(src@.len() as int) =~= src@);
                    }
                }
                let rec = TocRecord { href, entry: TocEntry { text: label.clone(), anchor } };
                assert(record_view(rec) == record_of(src@, label@));
                recs.push(rec);
                assert(records_view(recs@) =~= prev.push(record_of(src@, label@)));
            }
        },
        None => {},
    }
}

/// The navigation entries of a navigation document's events; targets are resolved
/// against `base`, the navigation document's directory.
pub fn toc_from_events(ev: &Vec<XmlEvent>, base: &str) -> (r: Vec<TocRecord>)
    ensures
        records_view(r@) == nav_records(events_view(ev@), base@),
{
    let ghost evv = events_view(ev@);
    let mut in_text = false;
    let mut label = String::new();
    let mut depth: usize = 0;
    let mut recs: Vec<TocRecord> = Vec::new();
    let mut i: usize = 0;
    assert(records_view(recs@) =~= seq![]);
    while i < ev.len()
        invariant
            evv == events_view(ev@),
            i <= evv.len(),
            depth <= i,
            (in_text, label@, depth as nat, records_view(recs@)) == nav_run(evv.take(i as int), base@),
        decreases ev.len() - i,
    {
        assert(evv.take(i + 1).drop_last() =~= evv.take(i as int));
        match &ev[i] {
            XmlEvent::Start(t) => {
                if same_text(t.name.as_str(), "navPoint") {
                    depth = depth + 1;
                    label = String::new();
                } else if same_text(t.name.as_str(), "text") && depth > 0 {
                    in_text = true;
                } else if same_text(t.name.as_str(), "content") && depth > 0 {
                    push_content_entry(&mut recs, t, base, &label);
                }
            },
            XmlEvent::Empty(t) => {
                if same_text(t.name.as_str(), "content") && depth > 0 {
                    push_content_entry(&mut recs, t, base, &label);
                }
            },
            XmlEvent::Text(x) => {
                if in_text {
                    label = trim_text(x.as_str());
                }
            },
            XmlEvent::End(n) => {
                if same_text(n.as_str(), "navPoint") {
                    if depth > 0 {
                        depth = depth - 1;
                    }
                } else if same_text(n.as_str(), "text") {
                    in_text = false;
                }
            },
            _ => {},
        }
        i = i + 1;
    }
    assert(evv.take(i as int) =~= evv);
    recs
}

/// Parses a navigation document into the entries of all its navigation points.
pub fn parse_toc(toc_xml: &str, toc_relpath: &str) -> (r: Result<Vec<TocRecord>, EpubError>)
    ensures
        xml_events(toc_xml@) is None ==> r is Err,
        xml_events(toc_xml@) matches Some(ev) ==> r matches Ok(v) && records_view(v@) == nav_records(ev, toc_relpath@),
        r matches Err(e) ==> e is Structure,
{
    match read_events(toc_xml) {
        Ok(ev) => Ok(toc_from_events(&ev, toc_relpath)),
        Err(msg) => Err(EpubError::Structure(msg)),
    }
}

/// How many entries at the front of `list` have no anchor.
pub open spec fn leading_whole(list: Seq<TocEntryView>) -> nat
    decreases list.len(),
{
    if list.len() == 0 || list[0].1 is Some {
        0
    } else {
        1 + leading_whole(list.drop_first())
    }
}

/// Adds an entry to a document's list: an entry without anchor goes right after the
/// entries without anchor already there, one with an anchor goes last.
pub open spec fn insert_entry(list: Seq<TocEntryView>, e: TocEntryView) -> Seq<TocEntryView> {
    if e.1 is None {
        list.insert(leading_whole(list) as int, e)
    } else {
        list.push(e)
    }
}

/// The ordered navigation entries of the document `href`.
pub open spec fn entries_for(recs: Seq<(Seq<char>, TocEntryView)>, href: Seq<char>) -> Seq<TocEntryView>
    decreases recs.len(),
{
    if recs.len() == 0 {
        seq![]
    } else {
        let prev = entries_for(recs.drop_last(), href);
        if recs.last().0 == href {
            insert_entry(prev, recs.last().1)
        } else {
            prev
        }
    }
}

pub proof fn lemma_leading_whole_bound(list: Seq<TocEntryView>)
    ensures
        leading_whole(list) <= list.len(),
    decreases list.len(),
{
    if list.len() > 0 && list[0].1 is None {
        lemma_leading_whole_bound(list.drop_first());
    }
}

fn clone_entry(e: &TocEntry) -> (r: TocEntry)
    ensures
        entry_view(r) == entry_view(*e),
{
    let anchor = match &e.anchor {
        Some(a) => Some(a.clone()),
        None => None,
    };
    TocEntry { text: e.text.clone(), anchor }
}

/// The navigation entries recorded for one document, entries that target the whole
/// document first.
pub fn toc_entries_for(recs: &Vec<TocRecord>, href: &String) -> (r: Vec<TocEntry>)
    ensures
        entries_view(r@) == entries_for(records_view(recs@), href@),
{
    let ghost rv = records_view(recs@);
    let mut out: Vec<TocEntry> = Vec::new();
    let mut i: usize = 0;
    assert(entries_view(out@) =~= seq![]);
    while i < recs.len()
        invariant
            i <= recs@.len(),
            rv == records_view(recs@),
            entries_view(out@) == entries_for(rv.take(i as int), href@),
        decreases recs.len() - i,
    {
        assert(rv.take(i + 1).drop_last() =~= rv.take(i as int));
        assert(rv.take(i + 1).last() == record_view(recs@[i as int]));
        if same_text(recs[i].href.as_str(), href.as_str()) {
            let e = clone_entry(&recs[i].entry);
            let ghost prev = entries_view(out@);
            if e.anchor.is_none() {
                let mut k: usize = 0;
                assert(prev.skip(0) =~= prev);
                while k < out.len() && out[k].anchor.is_none()
                    invariant
                        k <= out@.len(),
                        prev == entries_view(out@),
                        leading_whole(prev) == k + leading_whole(prev.skip(k as int)),
                    decreases out.len() - k,
                {
                    assert(prev.skip(k as int).drop_first() =~= prev.skip(k + 1));
                    k = k + 1;
                }
                proof {
                    lemma_leading_whole_bound(prev);
                }
                out.insert(k, e);
                assert(entries_view(out@) =~= prev.insert(k as int, entry_view(e)));
            } else {
                out.push(e);
                assert(entries_view(out@) =~= prev.push(entry_view(e)));
            }
        }
        i = i + 1;
    }
    assert(rv.take(i as int) =~= rv);
    out
}

} // verus!
