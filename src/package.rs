use vstd::prelude::*;
use vstd::string::StringExecFns;
use crate::error::EpubError;
use crate::path::{normalize_path, normalized};
use crate::text::{chars_of, prefix_of, string_of};
use crate::xml::{xml_events, attr_of, attrs_view, event_view, events_view, find_attr, opened, opened_tag, read_events, same_text, EventView, XmlEvent};

verus! {

/// One file declared in the package manifest.
pub struct ManifestItem {
    pub id: String,
    pub href: String,
    pub media_type: String,
}

/// A semantic landmark of the guide, keyed by the normalized path it names.
pub struct GuideItem {
    pub href: String,
    pub kind: String,
    pub title: String,
}

pub open spec fn item_view(m: ManifestItem) -> (Seq<char>, Seq<char>, Seq<char>) {
    (m.id@, m.href@, m.media_type@)
}

pub open spec fn guide_view(g: GuideItem) -> (Seq<char>, Seq<char>, Seq<char>) {
    (g.href@, g.kind@, g.title@)
}

pub open spec fn items_view(m: Seq<ManifestItem>) -> Seq<(Seq<char>, Seq<char>, Seq<char>)> {
    m.map_values(|x: ManifestItem| item_view(x))
}

pub open spec fn guides_view(g: Seq<GuideItem>) -> Seq<(Seq<char>, Seq<char>, Seq<char>)> {
    g.map_values(|x: GuideItem| guide_view(x))
}

pub open spec fn or_empty(o: Option<Seq<char>>) -> Seq<char> {
    match o {
        Some(v) => v,
        None => Seq::empty(),
    }
}

/// The first `full-path` of a `rootfile` element, in document order.
pub open spec fn first_rootfile(ev: Seq<EventView>) -> Option<Seq<char>>
    decreases ev.len(),
{
    if ev.len() == 0 {
        None
    } else {
        let here = match opened(ev[0], "rootfile"@) {
            Some(a) => attr_of(a, "full-path"@),
            None => None,
        };
        if here is Some {
            here
        } else {
            first_rootfile(ev.drop_first())
        }
    }
}

/// The package document path that the container descriptor's events name.
pub fn rootfile_from_events(ev: &Vec<XmlEvent>) -> (r: Option<String>)
    ensures
        r matches Some(p) ==> first_rootfile(events_view(ev@)) == Some(p@),
        r is None ==> first_rootfile(events_view(ev@)) is None,
{
    let ghost evv = events_view(ev@);
    let mut i: usize = 0;
    assert(evv.skip(0) =~= evv);
    while i < ev.len()
        invariant
            evv == events_view(ev@),
            i <= evv.len(),
            first_rootfile(evv.skip(i as int)) == first_rootfile(evv),
        decreases ev.len() - i,
    {
        assert(evv.skip(i as int).drop_first() =~= evv.skip(i + 1));
        if let Some(t) = opened_tag(&ev[i], "rootfile") {
            if let Some(p) = find_attr(t, "full-path") {
                return Some(p);
            }
        }
        i = i + 1;
    }
    None
}

/// Reads the container descriptor and returns the package document's path.
pub fn parse_container_xml(xml: &str) -> (r: Result<String, EpubError>)
    ensures
        xml_events(xml@) is None ==> r is Err,
        xml_events(xml@) matches Some(ev) ==> (r is Ok <==> first_rootfile(ev) is Some),
        xml_events(xml@) matches Some(ev) ==> (first_rootfile(ev) is None ==> (r matches Err(EpubError::Structure(m))
            && m@ == "no rootfile in container.xml"@)),
        r matches Ok(p) ==> xml_events(xml@) matches Some(ev) && first_rootfile(ev) == Some(p@),
        r matches Err(e) ==> e is Structure,
{
    match read_events(xml) {
        Ok(ev) => match rootfile_from_events(&ev) {
            Some(p) => Ok(p),
            None => Err(EpubError::Structure(String::from_str("no rootfile in container.xml"))),
        },
        Err(msg) => Err(EpubError::Structure(msg)),
    }
}

/// `base` followed by `raw`, normalized.
pub open spec fn resolved(base: Seq<char>, raw: Seq<char>) -> Seq<char> {
    normalized(base + raw)
}

fn resolve_against(base: &str, raw: &str) -> (r: String)
    ensures
        r@ == resolved(base@, raw@),
{
    let mut s = String::from_str(base);
    s.append(raw);
    normalize_path(s.as_str())
}

/// Whether some event opens an element named `name`.
pub open spec fn has_element(ev: Seq<EventView>, name: Seq<char>) -> bool {
    exists|i: int| 0 <= i < ev.len() && (#[trigger] opened(ev[i], name)) is Some
}

/// Whether the events open an element named `name`.
pub fn find_element(ev: &Vec<XmlEvent>, name: &str) -> (r: bool)
    ensures
        r == has_element(events_view(ev@), name@),
{
    let ghost evv = events_view(ev@);
    let mut i: usize = 0;
    while i < ev.len()
        invariant
            evv == events_view(ev@),
            i <= evv.len(),
            forall|k: int| 0 <= k < i ==> (#[trigger] opened(evv[k], name@)) is None,
        decreases ev.len() - i,
    {
        assert(evv[i as int] == event_view(ev@[i as int]));
        if opened_tag(&ev[i], name).is_some() {
            return true;
        }
        i = i + 1;
    }
    false
}

/// The manifest entry that an `item` element declares, if it has a non-empty id.
pub open spec fn manifest_entry(e: EventView, base: Seq<char>) -> Option<(Seq<char>, Seq<char>, Seq<char>)> {
    match opened(e, "item"@) {
        Some(a) => {
            let id = or_empty(attr_of(a, "id"@));
            let href = match attr_of(a, "href"@) {
                Some(h) => resolved(base, h),
                None => Seq::empty(),
            };
            if id.len() > 0 {
                Some((id, href, or_empty(attr_of(a, "media-type"@))))
            } else {
                None
            }
        },
        None => None,
    }
}

/// Every manifest entry, in document order.
pub open spec fn manifest_entries(ev: Seq<EventView>, base: Seq<char>) -> Seq<(Seq<char>, Seq<char>, Seq<char>)>
    decreases ev.len(),
{
    if ev.len() == 0 {
        seq![]
    } else {
        let prev = manifest_entries(ev.drop_last(), base);
        match manifest_entry(ev.last(), base) {
            Some(m) => prev.push(m),
            None => prev,
        }
    }
}

fn text_or_empty(o: Option<String>) -> (r: String)
    ensures
        r@ == or_empty(match o { Some(s) => Some(s@), None => None }),
{
    match o {
        Some(s) => s,
        None => String::new(),
    }
}

/// The manifest entries of a package document's events; hrefs are resolved against
/// `base`, the package document's directory.
pub fn manifest_from_events(ev: &Vec<XmlEvent>, base: &str) -> (r: Vec<ManifestItem>)
    ensures
        items_view(r@) == manifest_entries(events_view(ev@), base@),
{
    let ghost evv = events_view(ev@);
    let mut out: Vec<ManifestItem> = Vec::new();
    let mut i: usize = 0;
    while i < ev.len()
        invariant
            evv == events_view(ev@),
            i <= evv.len(),
            items_view(out@) == manifest_entries(evv.take(i as int), base@),
        decreases ev.len() - i,
    {
        assert(evv.take(i + 1).drop_last() =~= evv.take(i as int));
        let ghost before = out@;
        if let Some(t) = opened_tag(&ev[i], "item") {
            let id = text_or_empty(find_attr(t, "id"));
            let href = match find_attr(t, "href") {
                Some(h) => resolve_against(base, h.as_str()),
                None => String::new(),
            };
            let media_type = text_or_empty(find_attr(t, "media-type"));
            if !id.as_str().is_empty() {
                out.push(ManifestItem { id, href, media_type });
            }
        }
        i = i + 1;
        proof {
            assert(items_view(out@) =~= manifest_entries(evv.take(i as int), base@));
        }
    }
    assert(evv.take(i as int) =~= evv);
    out
}

/// Every string of `v`, as character sequences.
pub open spec fn texts(v: Seq<String>) -> Seq<Seq<char>> {
    v.map_values(|x: String| x@)
}

/// Whether `v` holds a string with the characters of `s`.
pub fn contains_text(v: &Vec<String>, s: &String) -> (r: bool)
    ensures
        r == texts(v@).contains(s@),
{
    let mut i: usize = 0;
    while i < v.len()
        invariant
            i <= v@.len(),
            forall|j: int| 0 <= j < i ==> v@[j]@ != s@,
        decreases v.len() - i,
    {
        if same_text(v[i].as_str(), s.as_str()) {
            assert(texts(v@)[i as int] == s@);
            return true;
        }
        i = i + 1;
    }
    proof {
        if texts(v@).contains(s@) {
            let j = choose|j: int| 0 <= j < texts(v@).len() && texts(v@)[j] == s@;
            assert(v@[j]@ == s@);
        }
    }
    false
}

/// The manifest entry with id `id`; a later declaration of an id overrides an earlier one.
pub open spec fn entry_with_id(m: Seq<(Seq<char>, Seq<char>, Seq<char>)>, id: Seq<char>) -> Option<(Seq<char>, Seq<char>, Seq<char>)>
    decreases m.len(),
{
    if m.len() == 0 {
        None
    } else if m.last().0 == id {
        Some(m.last())
    } else {
        entry_with_id(m.drop_last(), id)
    }
}

/// Looks up a manifest item by id (the last declaration of that id wins).
pub fn lookup_item<'a>(items: &'a Vec<ManifestItem>, id: &String) -> (r: Option<&'a ManifestItem>)
    ensures
        r matches Some(m) ==> entry_with_id(items_view(items@), id@) == Some(item_view(*m)),
        r is None ==> entry_with_id(items_view(items@), id@) is None,
{
    let ghost mv = items_view(items@);
    let mut n: usize = items.len();
    assert(mv.take(n as int) =~= mv);
    while n > 0
        invariant
            n <= items@.len(),
            mv == items_view(items@),
            entry_with_id(mv.take(n as int), id@) == entry_with_id(mv, id@),
        decreases n,
    {
        assert(mv.take(n as int).drop_last() =~= mv.take(n - 1));
        assert(mv.take(n as int).last() == item_view(items@[n - 1]));
        if same_text(items[n - 1].id.as_str(), id.as_str()) {
            return Some(&items[n - 1]);
        }
        n = n - 1;
    }
    None
}

/// The href of the last manifest entry whose media type marks the legacy
/// navigation document.
pub open spec fn ncx_href(m: Seq<(Seq<char>, Seq<char>, Seq<char>)>) -> Option<Seq<char>>
    decreases m.len(),
{
    if m.len() == 0 {
        None
    } else if m.last().2 == "application/x-dtbncx+xml"@ {
        Some(m.last().1)
    } else {
        ncx_href(m.drop_last())
    }
}

/// The navigation document that the manifest declares, if any.
pub fn toc_href(items: &Vec<ManifestItem>) -> (r: Option<String>)
    ensures
        r matches Some(h) ==> ncx_href(items_view(items@)) == Some(h@),
        r is None ==> ncx_href(items_view(items@)) is None,
{
    let ghost mv = items_view(items@);
    let mut n: usize = items.len();
    assert(mv.take(n as int) =~= mv);
    while n > 0
        invariant
            n <= items@.len(),
            mv == items_view(items@),
            ncx_href(mv.take(n as int)) == ncx_href(mv),
        decreases n,
    {
        assert(mv.take(n as int).drop_last() =~= mv.take(n - 1));
        assert(mv.take(n as int).last() == item_view(items@[n - 1]));
        if same_text(items[n - 1].media_type.as_str(), "application/x-dtbncx+xml") {
            return Some(items[n - 1].href.clone());
        }
        n = n - 1;
    }
    None
}

/// Parses the manifest of a package document: its entries in document order, and
/// the navigation document it declares.
pub fn parse_manifest(opf: &str, content_relpath: &str) -> (r: Result<(Vec<ManifestItem>, Option<String>), EpubError>)
    ensures
        xml_events(opf@) is None ==> r is Err,
        xml_events(opf@) matches Some(ev) ==> (r is Ok <==> has_element(ev, "manifest"@)),
        xml_events(opf@) matches Some(ev) ==> (!has_element(ev, "manifest"@) ==> (r matches Err(EpubError::Structure(m))
            && m@ == "the package document has no manifest"@)),
        r matches Ok((m, t)) ==> xml_events(opf@) matches Some(ev) && items_view(m@) == manifest_entries(ev, content_relpath@),
        r matches Ok((m, t)) ==> (t matches Some(h) ==> ncx_href(items_view(m@)) == Some(h@)),
        r matches Ok((m, t)) ==> (t is None ==> ncx_href(items_view(m@)) is None),
        r matches Err(e) ==> e is Structure,
{
    match read_events(opf) {
        Ok(ev) => {
            if !find_element(&ev, "manifest") {
                return Err(EpubError::Structure(String::from_str("the package document has no manifest")));
            }
            let m = manifest_from_events(&ev, content_relpath);
            let t = toc_href(&m);
            Ok((m, t))
        },
        Err(msg) => Err(EpubError::Structure(msg)),
    }
}

/// Position of the first `#` in `s`, or its length when there is none.
pub open spec fn hash_pos(s: Seq<char>) -> int
    decreases s.len(),
{
    if s.len() == 0 || s[0] == '#' {
        0
    } else {
        1 + hash_pos(s.drop_first())
    }
}

proof fn lemma_hash_pos_bounds(s: Seq<char>)
    ensures
        0 <= hash_pos(s) <= s.len(),
        hash_pos(s) < s.len() ==> s[hash_pos(s)] == '#',
    decreases s.len(),
{
    if s.len() > 0 && s[0] != '#' {
        lemma_hash_pos_bounds(s.drop_first());
    }
}

/// Splits a reference at its first `#`: the part before it, and the anchor after it
/// when there is one.
pub fn split_anchor(s: &str) -> (r: (String, Option<String>))
    ensures
        r.0@ == s@.take(hash_pos(s@)),
        r.1 matches Some(a) ==> hash_pos(s@) < s@.len() && a@ == s@.skip(hash_pos(s@) + 1),
        r.1 is None ==> hash_pos(s@) == s@.len(),
{
    let cs = chars_of(s);
    let mut i: usize = 0;
    proof { lemma_hash_pos_bounds(cs@); }
    assert(cs@.skip(0) =~= cs@);
    while i < cs.len() && cs[i] != '#'
        invariant
            i <= cs@.len(),
            hash_pos(cs@) == i + hash_pos(cs@.skip(i as int)),
        decreases cs.len() - i,
    {
        assert(cs@.skip(i as int).drop_first() =~= cs@.skip(i + 1));
        i = i + 1;
    }
    let before = string_of(&prefix_of(&cs, i));
    if i < cs.len() {
        let mut rest: Vec<char> = Vec::new();
        let mut k: usize = i + 1;
        while k < cs.len()
            invariant
                i + 1 <= k <= cs@.len(),
                rest@ == cs@.subrange(i + 1, k as int),
            decreases cs.len() - k,
        {
            rest.push(cs[k]);
            k = k + 1;
            assert(rest@ =~= cs@.subrange(i + 1, k as int));
        }
        assert(cs@.subrange(i + 1, cs@.len() as int) =~= cs@.skip(i + 1));
        (before, Some(string_of(&rest)))
    } else {
        (before, None)
    }
}

/// The guide landmark that a `reference` element declares, keyed by its target
/// document (the anchor dropped), if that target is not empty.
pub open spec fn guide_entry(e: EventView, base: Seq<char>) -> Option<(Seq<char>, Seq<char>, Seq<char>)> {
    match opened(e, "reference"@) {
        Some(a) => {
            let href = match attr_of(a, "href"@) {
                Some(h) => resolved(base, h.take(hash_pos(h))),
                None => Seq::empty(),
            };
            if href.len() > 0 {
                Some((href, or_empty(attr_of(a, "type"@)), or_empty(attr_of(a, "title"@))))
            } else {
                None
            }
        },
        None => None,
    }
}

/// Every guide landmark, in document order.
pub open spec fn guide_entries(ev: Seq<EventView>, base: Seq<char>) -> Seq<(Seq<char>, Seq<char>, Seq<char>)>
    decreases ev.len(),
{
    if ev.len() == 0 {
        seq![]
    } else {
        let prev = guide_entries(ev.drop_last(), base);
        match guide_entry(ev.last(), base) {
            Some(g) => prev.push(g),
            None => prev,
        }
    }
}

/// The guide landmarks of a package document's events.
pub fn guide_from_events(ev: &Vec<XmlEvent>, base: &str) -> (r: Vec<GuideItem>)
    ensures
        guides_view(r@) == guide_entries(events_view(ev@), base@),
{
    let ghost evv = events_view(ev@);
    let mut out: Vec<GuideItem> = Vec::new();
    let mut i: usize = 0;
    while i < ev.len()
        invariant
            evv == events_view(ev@),
            i <= evv.len(),
            guides_view(out@) == guide_entries(evv.take(i as int), base@),
        decreases ev.len() - i,
    {
        assert(evv.take(i + 1).drop_last() =~= evv.take(i as int));
        if let Some(t) = opened_tag(&ev[i], "reference") {
            let href = match find_attr(t, "href") {
                Some(h) => {
                    let (doc, _anchor) = split_anchor(h.as_str());
                    resolve_against(base, doc.as_str())
                },
                None => String::new(),
            };
            let kind = text_or_empty(find_attr(t, "type"));
            let title = text_or_empty(find_attr(t, "title"));
            if !href.as_str().is_empty() {
                out.push(GuideItem { href, kind, title });
            }
        }
        i = i + 1;
        proof {
            assert(guides_view(out@) =~= guide_entries(evv.take(i as int), base@));
        }
    }
    assert(evv.take(i as int) =~= evv);
    out
}

/// The landmark recorded for a document; a later one for the same document wins.
pub open spec fn guide_for(g: Seq<(Seq<char>, Seq<char>, Seq<char>)>, href: Seq<char>) -> Option<(Seq<char>, Seq<char>)>
    decreases g.len(),
{
    if g.len() == 0 {
        None
    } else if g.last().0 == href {
        Some((g.last().1, g.last().2))
    } else {
        guide_for(g.drop_last(), href)
    }
}

/// Looks up the guide landmark of a document.
pub fn lookup_guide(guide: &Vec<GuideItem>, href: &String) -> (r: Option<(String, String)>)
    ensures
        r matches Some(p) ==> guide_for(guides_view(guide@), href@) == Some((p.0@, p.1@)),
        r is None ==> guide_for(guides_view(guide@), href@) is None,
{
    let ghost gv = guides_view(guide@);
    let mut n: usize = guide.len();
    assert(gv.take(n as int) =~= gv);
    while n > 0
        invariant
            n <= guide@.len(),
            gv == guides_view(guide@),
            guide_for(gv.take(n as int), href@) == guide_for(gv, href@),
        decreases n,
    {
        assert(gv.take(n as int).drop_last() =~= gv.take(n - 1));
        assert(gv.take(n as int).last() == guide_view(guide@[n - 1]));
        if same_text(guide[n - 1].href.as_str(), href.as_str()) {
            return Some((guide[n - 1].kind.clone(), guide[n - 1].title.clone()));
        }
        n = n - 1;
    }
    None
}

/// Parses the guide of a package document.
pub fn parse_guide(opf: &str, content_relpath: &str) -> (r: Result<Vec<GuideItem>, EpubError>)
    ensures
        xml_events(opf@) is None ==> r is Err,
        xml_events(opf@) matches Some(ev) ==> r matches Ok(g) && guides_view(g@) == guide_entries(ev, content_relpath@),
        r matches Err(e) ==> e is Structure,
{
    match read_events(opf) {
        Ok(ev) => Ok(guide_from_events(&ev, content_relpath)),
        Err(msg) => Err(EpubError::Structure(msg)),
    }
}

/// The reading order: the `idref` of every `itemref`, in document order.
pub open spec fn spine_ids(ev: Seq<EventView>) -> Seq<Seq<char>>
    decreases ev.len(),
{
    if ev.len() == 0 {
        seq![]
    } else {
        let prev = spine_ids(ev.drop_last());
        match opened(ev.last(), "itemref"@) {
            Some(a) => match attr_of(a, "idref"@) {
                Some(id) => prev.push(id),
                None => prev,
            },
            None => prev,
        }
    }
}

/// The spine ids of a package document's events.
pub fn spine_from_events(ev: &Vec<XmlEvent>) -> (r: Vec<String>)
    ensures
        texts(r@) == spine_ids(events_view(ev@)),
{
    let ghost evv = events_view(ev@);
    let mut out: Vec<String> = Vec::new();
    let mut i: usize = 0;
    while i < ev.len()
        invariant
            evv == events_view(ev@),
            i <= evv.len(),
            texts(out@) == spine_ids(evv.take(i as int)),
        decreases ev.len() - i,
    {
        assert(evv.take(i + 1).drop_last() =~= evv.take(i as int));
        if let Some(t) = opened_tag(&ev[i], "itemref") {
            if let Some(id) = find_attr(t, "idref") {
                out.push(id);
            }
        }
        i = i + 1;
        proof {
            assert(texts(out@) =~= spine_ids(evv.take(i as int)));
        }
    }
    assert(evv.take(i as int) =~= evv);
    out
}

/// Parses the spine of a package document.
pub fn parse_spine(opf: &str) -> (r: Result<Vec<String>, EpubError>)
    ensures
        xml_events(opf@) is None ==> r is Err,
        xml_events(opf@) matches Some(ev) ==> (r is Ok <==> has_element(ev, "spine"@)),
        xml_events(opf@) matches Some(ev) ==> (!has_element(ev, "spine"@) ==> (r matches Err(EpubError::Structure(m))
            && m@ == "the package document has no spine"@)),
        r matches Ok(s) ==> xml_events(opf@) matches Some(ev) && texts(s@) == spine_ids(ev),
        r matches Err(e) ==> e is Structure,
{
    match read_events(opf) {
        Ok(ev) => {
            if !find_element(&ev, "spine") {
                return Err(EpubError::Structure(String::from_str("the package document has no spine")));
            }
            Ok(spine_from_events(&ev))
        },
        Err(msg) => Err(EpubError::Structure(msg)),
    }
}

/// Whether every role attribute of a creator marks an author (`aut` or `author`).
pub open spec fn roles_author(attrs: Seq<(Seq<char>, Seq<char>)>) -> bool
    decreases attrs.len(),
{
    if attrs.len() == 0 {
        true
    } else {
        let k = attrs[0].0;
        let v = attrs[0].1;
        let ok = !(k == "opf:role"@ || k == "role"@) || v == "aut"@ || v == "author"@;
        ok && roles_author(attrs.drop_first())
    }
}

fn creator_is_author(attrs: &Vec<(String, String)>) -> (r: bool)
    ensures
        r == roles_author(attrs_view(attrs@)),
{
    let ghost av = attrs_view(attrs@);
    let mut i: usize = 0;
    assert(av.skip(0) =~= av);
    while i < attrs.len()
        invariant
            i <= attrs@.len(),
            av == attrs_view(attrs@),
            roles_author(av) == roles_author(av.skip(i as int)),
        decreases attrs.len() - i,
    {
        assert(av.skip(i as int).drop_first() =~= av.skip(i + 1));
        assert(av.skip(i as int)[0] == (attrs@[i as int].0@, attrs@[i as int].1@));
        let k = attrs[i].0.as_str();
        let v = attrs[i].1.as_str();
        if same_text(k, "opf:role") || same_text(k, "role") {
            if !(same_text(v, "aut") || same_text(v, "author")) {
                return false;
            }
        }
        i = i + 1;
    }
    true
}

/// The metadata reader's state: title found so far, authors so far, and whether it
/// is inside a title, inside a creator, and whether that creator is an author.
pub type MetaState = (Option<Seq<char>>, Seq<Seq<char>>, bool, bool, bool);

pub open spec fn meta_step(st: MetaState, e: EventView) -> MetaState {
    let (title, authors, in_title, in_creator, is_author) = st;
    match e {
        EventView::Start(n, a) => {
            if n == "title"@ || n == "dc:title"@ {
                (title, authors, true, in_creator, is_author)
            } else if n == "creator"@ || n == "dc:creator"@ {
                (title, authors, in_title, true, roles_author(a))
            } else {
                st
            }
        },
        EventView::Text(x) => {
            if in_title {
                (if title is None { Some(x) } else { title }, authors, false, in_creator, is_author)
            } else if in_creator && is_author {
                let added = if x.len() > 0 && !authors.contains(x) {
                    authors.push(x)
                } else {
                    authors
                };
                (title, added, in_title, false, is_author)
            } else {
                st
            }
        },
        EventView::End(_) => (title, authors, false, false, is_author),
        _ => st,
    }
}

pub open spec fn meta_run(ev: Seq<EventView>) -> MetaState
    decreases ev.len(),
{
    if ev.len() == 0 {
        (None, seq![], false, false, true)
    } else {
        meta_step(meta_run(ev.drop_last()), ev.last())
    }
}

/// The book's title: the text of the first title element, or `(Title Missing)`.
pub open spec fn meta_title(ev: Seq<EventView>) -> Seq<char> {
    match meta_run(ev).0 {
        Some(t) => t,
        None => "(Title Missing)"@,
    }
}

/// The book's authors: the distinct non-empty texts of author creators in order, or
/// the single entry `(Authors Missing)`.
pub open spec fn meta_authors(ev: Seq<EventView>) -> Seq<Seq<char>> {
    if meta_run(ev).1.len() == 0 {
        seq!["(Authors Missing)"@]
    } else {
        meta_run(ev).1
    }
}

pub open spec fn opt_text(o: Option<String>) -> Option<Seq<char>> {
    match o {
        Some(s) => Some(s@),
        None => None,
    }
}

/// Title and authors from a package document's events.
pub fn metadata_from_events(ev: &Vec<XmlEvent>) -> (r: (String, Vec<String>))
    ensures
        r.0@ == meta_title(events_view(ev@)),
        texts(r.1@) == meta_authors(events_view(ev@)),
{
    let ghost evv = events_view(ev@);
    let mut title: Option<String> = None;
    let mut authors: Vec<String> = Vec::new();
    let mut in_title = false;
    let mut in_creator = false;
    let mut is_author = true;
    let mut i: usize = 0;
    assert(texts(authors@) =~= Seq::<Seq<char>>::empty());
    while i < ev.len()
        invariant
            evv == events_view(ev@),
            i <= evv.len(),
            (opt_text(title), texts(authors@), in_title, in_creator, is_author) == meta_run(evv.take(i as int)),
        decreases ev.len() - i,
    {
        assert(evv.take(i + 1).drop_last() =~= evv.take(i as int));
        match &ev[i] {
            XmlEvent::Start(t) => {
                if same_text(t.name.as_str(), "title") || same_text(t.name.as_str(), "dc:title") {
                    in_title = true;
                } else if same_text(t.name.as_str(), "creator") || same_text(t.name.as_str(), "dc:creator") {
                    in_creator = true;
                    is_author = creator_is_author(&t.attrs);
                }
            },
            XmlEvent::Text(x) => {
                if in_title {
                    if title.is_none() {
                        title = Some(x.clone());
                    }
                    in_title = false;
                } else if in_creator && is_author {
                    if !x.as_str().is_empty() && !contains_text(&authors, x) {
                        let ghost prev = texts(authors@);
                        authors.push(x.clone());
                        assert(texts(authors@) =~= prev.push(x@));
                    }
                    in_creator = false;
                }
            },
            XmlEvent::End(_) => {
                in_title = false;
                in_creator = false;
            },
            _ => {},
        }
        i = i + 1;
    }
    assert(evv.take(i as int) =~= evv);
    let title = match title {
        Some(t) => t,
        None => String::from_str("(Title Missing)"),
    };
    if authors.len() == 0 {
        authors.push(String::from_str("(Authors Missing)"));
        assert(texts(authors@) =~= seq!["(Authors Missing)"@]);
    }
    (title, authors)
}

/// Parses title and authors of a package document; absent metadata gives defaults.
pub fn parse_metadata(opf: &str) -> (r: Result<(String, Vec<String>), EpubError>)
    ensures
        xml_events(opf@) is None ==> r is Err,
        xml_events(opf@) matches Some(ev) ==> r matches Ok((t, a)) && t@ == meta_title(ev) && texts(a@) == meta_authors(ev),
        r matches Err(e) ==> e is Structure,
{
    match read_events(opf) {
        Ok(ev) => Ok(metadata_from_events(&ev)),
        Err(msg) => Err(EpubError::Structure(msg)),
    }
}

} // verus!
