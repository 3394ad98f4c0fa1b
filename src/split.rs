use vstd::prelude::*;
use crate::archive::{text_in, Archive};
use crate::error::EpubError;
use crate::nav::{entries_for, entries_view, records_view, toc_entries_for, TocEntryView, TocRecord};
use crate::package::{
    entry_with_id, guide_for, guide_view, item_view, lookup_guide, lookup_item, or_empty, texts,
    GuideItem, ManifestItem,
};
use crate::text::{append_chars, chars_of, prefix_of, string_of};
use vstd::string::StringExecFns;

verus! {

/// How many characters of a document a preview sample keeps.
pub const SAMPLE_CHARS: usize = 1500;

/// One addressable split point of a book.
pub struct SplitLine {
    /// Labels of the navigation entries that describe this point.
    pub toc: Vec<String>,
    /// The guide landmark (type, title) of the document, on its first point only.
    pub guide: Option<(String, String)>,
    /// The in-document anchor where this point starts; none for a document's start.
    pub anchor: Option<String>,
    pub id: String,
    pub href: String,
    pub media_type: String,
    pub sample: String,
}

/// A split point as plain values.
pub struct LineView {
    pub toc: Seq<Seq<char>>,
    pub guide: Option<(Seq<char>, Seq<char>)>,
    pub anchor: Option<Seq<char>>,
    pub id: Seq<char>,
    pub href: Seq<char>,
    pub media_type: Seq<char>,
    pub sample: Seq<char>,
}

pub open spec fn pair_view(p: Option<(String, String)>) -> Option<(Seq<char>, Seq<char>)> {
    match p {
        Some(g) => Some((g.0@, g.1@)),
        None => None,
    }
}

pub open spec fn line_view(l: SplitLine) -> LineView {
    LineView {
        toc: texts(l.toc@),
        guide: pair_view(l.guide),
        anchor: match l.anchor {
            Some(a) => Some(a@),
            None => None,
        },
        id: l.id@,
        href: l.href@,
        media_type: l.media_type@,
        sample: l.sample@,
    }
}

pub open spec fn lines_view(ls: Seq<SplitLine>) -> Seq<LineView> {
    ls.map_values(|l: SplitLine| line_view(l))
}

/// A preview: the text itself, or its first characters followed by `...`.
pub open spec fn sample_of(c: Seq<char>) -> Seq<char> {
    if c.len() > SAMPLE_CHARS {
        c.take(SAMPLE_CHARS as int) + seq!['.', '.', '.']
    } else {
        c
    }
}

/// Whether `p` occurs in `h` at position `i`.
pub open spec fn occurs_at(h: Seq<char>, p: Seq<char>, i: int) -> bool {
    0 <= i && i + p.len() <= h.len() && h.subrange(i, i + p.len()) == p
}

/// The first position at or after `i` where `p` occurs in `h`.
pub open spec fn first_at(h: Seq<char>, p: Seq<char>, i: int) -> Option<int>
    decreases h.len() + 1 - i,
{
    if i < 0 || i + p.len() > h.len() {
        None
    } else if occurs_at(h, p, i) {
        Some(i)
    } else {
        first_at(h, p, i + 1)
    }
}

/// An attribute pattern such as `id="a"`: key, `=`, quote, value, quote.
pub open spec fn attr_pattern(key: Seq<char>, q: char, a: Seq<char>) -> Seq<char> {
    key + seq!['=', q] + a + seq![q]
}

/// Where the element carrying anchor `a` starts: the first `id="a"`, else the first
/// `id='a'`, else `name="a"`, else `name='a'`.
pub open spec fn anchor_start(h: Seq<char>, a: Seq<char>) -> Option<int> {
    let id_double = first_at(h, attr_pattern("id"@, '"', a), 0);
    let id_single = first_at(h, attr_pattern("id"@, '\'', a), 0);
    let name_double = first_at(h, attr_pattern("name"@, '"', a), 0);
    let name_single = first_at(h, attr_pattern("name"@, '\'', a), 0);
    if id_double is Some {
        id_double
    } else if id_single is Some {
        id_single
    } else if name_double is Some {
        name_double
    } else {
        name_single
    }
}

/// The preview of the point that starts at anchor `a`; empty when it is not found.
pub open spec fn anchor_sample(h: Seq<char>, a: Seq<char>) -> Seq<char> {
    match anchor_start(h, a) {
        Some(k) => sample_of(h.skip(k)),
        None => Seq::empty(),
    }
}

fn sample_chars(c: &Vec<char>) -> (r: String)
    ensures
        r@ == sample_of(c@),
{
    if c.len() > SAMPLE_CHARS {
        let mut v = prefix_of(c, SAMPLE_CHARS);
        v.push('.');
        v.push('.');
        v.push('.');
        assert(v@ =~= c@.take(SAMPLE_CHARS as int) + seq!['.', '.', '.']);
        string_of(&v)
    } else {
        string_of(c)
    }
}

fn occurs_here(h: &Vec<char>, p: &Vec<char>, i: usize) -> (r: bool)
    requires
        i + p@.len() <= h@.len(),
    ensures
        r == occurs_at(h@, p@, i as int),
{
    let n = h.len();
    let mut k: usize = 0;
    while k < p.len()
        invariant
            n == h@.len(),
            k <= p@.len(),
            i + p@.len() <= h@.len(),
            h@.subrange(i as int, i + k) == p@.take(k as int),
        decreases p.len() - k,
    {
        assert(i + k < h@.len());
        if h[i + k] != p[k] {
            assert(h@.subrange(i as int, i + p@.len())[k as int] != p@[k as int]);
            return false;
        }
        assert(h@.subrange(i as int, i + k + 1) =~= h@.subrange(i as int, i + k).push(h@[i + k]));
        assert(p@.take(k + 1) =~= p@.take(k as int).push(p@[k as int]));
        k = k + 1;
    }
    assert(p@.take(k as int) =~= p@);
    true
}

/// The first position where `p` occurs in `h`.
pub fn find_chars(h: &Vec<char>, p: &Vec<char>) -> (r: Option<usize>)
    ensures
        r matches Some(k) ==> first_at(h@, p@, 0) == Some(k as int),
        r is None ==> first_at(h@, p@, 0) is None,
{
    if p.len() > h.len() {
        return None;
    }
    let last = h.len() - p.len();
    let mut i: usize = 0;
    loop
        invariant
            p@.len() <= h@.len(),
            last == h@.len() - p@.len(),
            i <= last,
            first_at(h@, p@, 0) == first_at(h@, p@, i as int),
        decreases last - i,
    {
        if occurs_here(h, p, i) {
            return Some(i);
        }
        if i == last {
            assert(first_at(h@, p@, i + 1) is None);
            return None;
        }
        i = i + 1;
    }
}

fn attr_pattern_chars(key: &str, q: char, a: &Vec<char>) -> (r: Vec<char>)
    ensures
        r@ == attr_pattern(key@, q, a@),
{
    let mut v = chars_of(key);
    v.push('=');
    v.push(q);
    append_chars(&mut v, a);
    v.push(q);
    assert(v@ =~= attr_pattern(key@, q, a@));
    v
}

/// Where the element carrying anchor `a` starts in `h`, if it is found.
pub fn split_html_at_anchor(h: &Vec<char>, a: &Vec<char>) -> (r: Option<usize>)
    ensures
        r matches Some(k) ==> anchor_start(h@, a@) == Some(k as int),
        r is None ==> anchor_start(h@, a@) is None,
{
    let id_double = find_chars(h, &attr_pattern_chars("id", '"', a));
    if id_double.is_some() {
        return id_double;
    }
    let id_single = find_chars(h, &attr_pattern_chars("id", '\'', a));
    if id_single.is_some() {
        return id_single;
    }
    let name_double = find_chars(h, &attr_pattern_chars("name", '"', a));
    if name_double.is_some() {
        return name_double;
    }
    find_chars(h, &attr_pattern_chars("name", '\'', a))
}

fn anchor_sample_of(h: &Vec<char>, a: &String) -> (r: String)
    ensures
        r@ == anchor_sample(h@, a@),
{
    let ac = chars_of(a.as_str());
    match split_html_at_anchor(h, &ac) {
        Some(k) => {
            let mut rest: Vec<char> = Vec::new();
            let mut j: usize = k;
            proof {
                lemma_first_at_bound(h@, attr_pattern("id"@, '"', a@), 0);
                lemma_first_at_bound(h@, attr_pattern("id"@, '\'', a@), 0);
                lemma_first_at_bound(h@, attr_pattern("name"@, '"', a@), 0);
                lemma_first_at_bound(h@, attr_pattern("name"@, '\'', a@), 0);
            }
            while j < h.len()
                invariant
                    k <= j <= h@.len(),
                    rest@ == h@.subrange(k as int, j as int),
                decreases h.len() - j,
            {
                rest.push(h[j]);
                j = j + 1;
                assert(rest@ =~= h@.subrange(k as int, j as int));
            }
            assert(h@.subrange(k as int, h@.len() as int) =~= h@.skip(k as int));
            sample_chars(&rest)
        },
        None => String::new(),
    }
}

proof fn lemma_first_at_bound(h: Seq<char>, p: Seq<char>, i: int)
    ensures
        first_at(h, p, i) matches Some(k) ==> i <= k <= h.len(),
    decreases h.len() + 1 - i,
{
    if !(i < 0 || i + p.len() > h.len()) && !occurs_at(h, p, i) {
        lemma_first_at_bound(h, p, i + 1);
    }
}

/// The point that a navigation entry with anchor `a` opens inside a document.
pub open spec fn anchored_line(label: Seq<char>, a: Seq<char>, start: LineView, content: Seq<char>) -> LineView {
    LineView {
        toc: seq![label],
        guide: None,
        anchor: Some(a),
        id: start.id,
        href: start.href,
        media_type: start.media_type,
        sample: anchor_sample(content, a),
    }
}

/// Walks a document's navigation entries from its starting point: the points closed
/// so far, and the one still open. An entry without anchor adds its label to the open
/// point; one with an anchor closes it and opens a new one.
pub open spec fn walk(start: LineView, es: Seq<TocEntryView>, content: Seq<char>) -> (Seq<LineView>, LineView)
    decreases es.len(),
{
    if es.len() == 0 {
        (seq![], start)
    } else {
        let (done, cur) = walk(start, es.drop_last(), content);
        let e = es.last();
        match e.1 {
            None => (done, LineView { toc: cur.toc.push(e.0), ..cur }),
            Some(a) => (done.push(cur), anchored_line(e.0, a, start, content)),
        }
    }
}

pub open spec fn item_lines(start: LineView, es: Seq<TocEntryView>, content: Seq<char>) -> Seq<LineView> {
    walk(start, es, content).0.push(walk(start, es, content).1)
}

/// The text of a document, or nothing when it cannot be read.
pub open spec fn content_of(files: Seq<crate::archive::ArchiveEntry>, href: Seq<char>) -> Seq<char> {
    or_empty(text_in(files, href))
}

/// A document's own starting point.
pub open spec fn first_line(
    item: (Seq<char>, Seq<char>, Seq<char>),
    guide: Seq<(Seq<char>, Seq<char>, Seq<char>)>,
    content: Seq<char>,
) -> LineView {
    LineView {
        toc: seq![],
        guide: guide_for(guide, item.1),
        anchor: None,
        id: item.0,
        href: item.1,
        media_type: item.2,
        sample: sample_of(content),
    }
}

/// The split points of one spine item.
pub open spec fn lines_of_item(
    item: (Seq<char>, Seq<char>, Seq<char>),
    guide: Seq<(Seq<char>, Seq<char>, Seq<char>)>,
    recs: Seq<(Seq<char>, TocEntryView)>,
    files: Seq<crate::archive::ArchiveEntry>,
) -> Seq<LineView> {
    let c = content_of(files, item.1);
    item_lines(first_line(item, guide, c), entries_for(recs, item.1), c)
}

/// The split points of a whole spine, in spine order; none when a spine id has no
/// manifest entry.
pub open spec fn spine_lines(
    ids: Seq<Seq<char>>,
    m: Seq<(Seq<char>, Seq<char>, Seq<char>)>,
    guide: Seq<(Seq<char>, Seq<char>, Seq<char>)>,
    recs: Seq<(Seq<char>, TocEntryView)>,
    files: Seq<crate::archive::ArchiveEntry>,
) -> Option<Seq<LineView>>
    decreases ids.len(),
{
    if ids.len() == 0 {
        Some(seq![])
    } else {
        match spine_lines(ids.drop_last(), m, guide, recs, files) {
            None => None,
            Some(prev) => match entry_with_id(m, ids.last()) {
                None => None,
                Some(item) => Some(prev + lines_of_item(item, guide, recs, files)),
            },
        }
    }
}

/// The first spine id without a manifest entry.
pub open spec fn first_unknown(ids: Seq<Seq<char>>, m: Seq<(Seq<char>, Seq<char>, Seq<char>)>) -> Option<Seq<char>>
    decreases ids.len(),
{
    if ids.len() == 0 {
        None
    } else if entry_with_id(m, ids[0]) is None {
        Some(ids[0])
    } else {
        first_unknown(ids.drop_first(), m)
    }
}

/// The message of a spine id without a manifest entry.
pub open spec fn unknown_id_message(id: Seq<char>) -> Seq<char> {
    "spine reference not found in manifest: "@ + id
}

proof fn lemma_first_unknown(ids: Seq<Seq<char>>, m: Seq<(Seq<char>, Seq<char>, Seq<char>)>, i: int)
    requires
        0 <= i < ids.len(),
        entry_with_id(m, ids[i]) is None,
        forall|j: int| 0 <= j < i ==> (#[trigger] entry_with_id(m, ids[j])) is Some,
    ensures
        first_unknown(ids, m) == Some(ids[i]),
    decreases i,
{
    if i > 0 {
        assert forall|j: int| 0 <= j < i - 1 implies (#[trigger] entry_with_id(m, ids.drop_first()[j])) is Some by {
            assert(ids.drop_first()[j] == ids[j + 1]);
        }
        assert(entry_with_id(m, ids[0]) is Some);
        lemma_first_unknown(ids.drop_first(), m, i - 1);
    }
}

pub proof fn lemma_first_unknown_none(ids: Seq<Seq<char>>, m: Seq<(Seq<char>, Seq<char>, Seq<char>)>)
    requires
        forall|i: int| 0 <= i < ids.len() ==> (#[trigger] entry_with_id(m, ids[i])) is Some,
    ensures
        first_unknown(ids, m) is None,
    decreases ids.len(),
{
    if ids.len() > 0 {
        assert(entry_with_id(m, ids[0]) is Some);
        assert forall|i: int| 0 <= i < ids.drop_first().len() implies (#[trigger] entry_with_id(m, ids.drop_first()[i])) is Some by {
            assert(ids.drop_first()[i] == ids[i + 1]);
        }
        lemma_first_unknown_none(ids.drop_first(), m);
    }
}

pub proof fn lemma_spine_lines_resolved(
    ids: Seq<Seq<char>>,
    m: Seq<(Seq<char>, Seq<char>, Seq<char>)>,
    guide: Seq<(Seq<char>, Seq<char>, Seq<char>)>,
    recs: Seq<(Seq<char>, TocEntryView)>,
    files: Seq<crate::archive::ArchiveEntry>,
)
    requires
        spine_lines(ids, m, guide, recs, files) is Some,
    ensures
        forall|i: int| 0 <= i < ids.len() ==> (#[trigger] entry_with_id(m, ids[i])) is Some,
    decreases ids.len(),
{
    if ids.len() > 0 {
        lemma_spine_lines_resolved(ids.drop_last(), m, guide, recs, files);
        assert forall|i: int| 0 <= i < ids.len() implies (#[trigger] entry_with_id(m, ids[i])) is Some by {
            if i < ids.len() - 1 {
                assert(ids[i] == ids.drop_last()[i]);
            }
        }
    }
}

proof fn lemma_spine_lines_none(
    ids: Seq<Seq<char>>,
    j: int,
    m: Seq<(Seq<char>, Seq<char>, Seq<char>)>,
    guide: Seq<(Seq<char>, Seq<char>, Seq<char>)>,
    recs: Seq<(Seq<char>, TocEntryView)>,
    files: Seq<crate::archive::ArchiveEntry>,
)
    requires
        0 <= j <= ids.len(),
        spine_lines(ids.take(j), m, guide, recs, files) is None,
    ensures
        spine_lines(ids, m, guide, recs, files) is None,
    decreases ids.len() - j,
{
    if j < ids.len() {
        assert(ids.take(j + 1).drop_last() =~= ids.take(j));
        lemma_spine_lines_none(ids, j + 1, m, guide, recs, files);
    } else {
        assert(ids.take(j) =~= ids);
    }
}

/// Appends the split points of one spine item to `out`.
fn push_item_lines(
    item: &ManifestItem,
    guide: &Vec<GuideItem>,
    toc: &Vec<TocRecord>,
    archive: &Archive,
    out: &mut Vec<SplitLine>,
)
    ensures
        lines_view(final(out)@) == lines_view(old(out)@) + lines_of_item(
            item_view(*item),
            crate::package::guides_view(guide@),
            records_view(toc@),
            archive.entries@,
        ),
{
    let ghost gv = crate::package::guides_view(guide@);
    let content = match archive.read_text(item.href.as_str()) {
        Some(t) => t.clone(),
        None => String::new(),
    };
    let ghost c = content_of(archive.entries@, item.href@);
    assert(content@ == c);
    let cs = chars_of(content.as_str());
    let ghost start = first_line(item_view(*item), gv, c);
    let mut cur = SplitLine {
        toc: Vec::new(),
        guide: lookup_guide(guide, &item.href),
        anchor: None,
        id: item.id.clone(),
        href: item.href.clone(),
        media_type: item.media_type.clone(),
        sample: sample_chars(&cs),
    };
    assert(line_view(cur) =~= start) by {
        assert(texts(cur.toc@) =~= Seq::<Seq<char>>::empty());
    }
    let entries = toc_entries_for(toc, &item.href);
    let ghost es = entries_view(entries@);
    let ghost base = lines_view(out@);
    let mut j: usize = 0;
    assert(lines_view(out@) =~= base + walk(start, es.take(0), c).0);
    while j < entries.len()
        invariant
            j <= entries@.len(),
            es == entries_view(entries@),
            es == entries_for(records_view(toc@), item.href@),
            cs@ == c,
            start == first_line(item_view(*item), gv, c),
            lines_view(out@) == base + walk(start, es.take(j as int), c).0,
            line_view(cur) == walk(start, es.take(j as int), c).1,
        decreases entries.len() - j,
    {
        assert(es.take(j + 1).drop_last() =~= es.take(j as int));
        let e = &entries[j];
        match &e.anchor {
            Some(a) => {
                let next = SplitLine {
                    toc: vec![e.text.clone()],
                    guide: None,
                    anchor: Some(a.clone()),
                    id: item.id.clone(),
                    href: item.href.clone(),
                    media_type: item.media_type.clone(),
                    sample: anchor_sample_of(&cs, a),
                };
                let ghost prev_out = lines_view(out@);
                let closed = cur;
                let ghost closed_view = line_view(closed);
                out.push(closed);
                assert(lines_view(out@) =~= prev_out.push(closed_view));
                cur = next;
                assert(texts(cur.toc@) =~= seq![e.text@]);
                assert(line_view(cur) =~= anchored_line(e.text@, a@, start, c));
            },
            None => {
                let ghost before = line_view(cur);
                cur.toc.push(e.text.clone());
                assert(texts(cur.toc@) =~= before.toc.push(e.text@));
                assert(line_view(cur) =~= LineView { toc: before.toc.push(e.text@), ..before });
            },
        }
        j = j + 1;
    }
    assert(es.take(j as int) =~= es);
    let ghost prev_out = lines_view(out@);
    let ghost last = line_view(cur);
    out.push(cur);
    assert(lines_view(out@) =~= prev_out.push(last));
}

/// The split points of the spine `spine`: each id must have a manifest entry.
pub fn split_lines_for(
    spine: &Vec<String>,
    manifest: &Vec<ManifestItem>,
    guide: &Vec<GuideItem>,
    toc: &Vec<TocRecord>,
    archive: &Archive,
) -> (r: Result<Vec<SplitLine>, EpubError>)
    ensures
        r matches Ok(ls) ==> spine_lines(
            texts(spine@),
            crate::package::items_view(manifest@),
            crate::package::guides_view(guide@),
            records_view(toc@),
            archive.entries@,
        ) == Some(lines_view(ls@)),
        r matches Err(e) ==> e matches EpubError::Structure(msg) && first_unknown(texts(spine@), crate::package::items_view(manifest@))
            matches Some(id) && msg@ == unknown_id_message(id),
        r matches Err(e) ==> e is Structure && spine_lines(
            texts(spine@),
            crate::package::items_view(manifest@),
            crate::package::guides_view(guide@),
            records_view(toc@),
            archive.entries@,
        ) is None,
{
    let ghost ids = texts(spine@);
    let ghost mv = crate::package::items_view(manifest@);
    let ghost gv = crate::package::guides_view(guide@);
    let ghost rv = records_view(toc@);
    let ghost fs = archive.entries@;
    let mut out: Vec<SplitLine> = Vec::new();
    let mut i: usize = 0;
    assert(lines_view(out@) =~= seq![]);
    assert(ids.take(0) =~= seq![]);
    while i < spine.len()
        invariant
            i <= spine@.len(),
            ids == texts(spine@),
            mv == crate::package::items_view(manifest@),
            gv == crate::package::guides_view(guide@),
            rv == records_view(toc@),
            fs == archive.entries@,
            spine_lines(ids.take(i as int), mv, gv, rv, fs) == Some(lines_view(out@)),
        decreases spine.len() - i,
    {
        assert(ids.take(i + 1).drop_last() =~= ids.take(i as int));
        assert(ids.take(i + 1).last() == spine@[i as int]@);
        match lookup_item(manifest, &spine[i]) {
            Some(item) => {
                push_item_lines(item, guide, toc, archive, &mut out);
            },
            None => {
                proof {
                    lemma_spine_lines_none(ids, i + 1, mv, gv, rv, fs);
                    lemma_spine_lines_resolved(ids.take(i as int), mv, gv, rv, fs);
                    assert forall|j: int| 0 <= j < i implies (#[trigger] entry_with_id(mv, ids[j])) is Some by {
                        assert(ids.take(i as int)[j] == ids[j]);
                    }
                    lemma_first_unknown(ids, mv, i as int);
                    reveal_strlit("spine reference not found in manifest: ");
                }
                let mut msg = String::from_str("spine reference not found in manifest: ");
                msg.append(spine[i].as_str());
                return Err(EpubError::Structure(msg));
            },
        }
        i = i + 1;
    }
    assert(ids.take(i as int) =~= ids);
    Ok(out)
}

} // verus!
