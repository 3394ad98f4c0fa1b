use vstd::prelude::*;
use vstd::string::StringExecFns;
use crate::archive::{bytes_in, text_in, Archive};
use crate::error::EpubError;
use crate::nav::{parse_toc, TocRecord};
use crate::package::{
    contains_text, parse_container_xml, parse_guide, parse_manifest, parse_metadata, parse_spine, texts, GuideItem,
    ManifestItem,
};
use crate::path::get_path_part;
use crate::xml::{xml_events, EventView};
use crate::package::{first_rootfile, has_element, meta_authors, meta_title, spine_ids};
use crate::scan::{is_closure, scan_for_linked_files, Resources};
use crate::split::{line_view, lines_view, split_lines_for, LineView, SplitLine};
use crate::generate::{
    cover_text, container_text, decimal, decimal_text, generate_container_xml, generate_content_opf, generate_cover_xhtml,
    generate_toc_ncx, guess_media_type, media_type_of, ncx_text, opf_text, pairs, triples,
};

verus! {

/// The first index of `indices` that is not below `count`.
pub open spec fn first_bad(indices: Seq<usize>, count: nat) -> Option<usize>
    decreases indices.len(),
{
    if indices.len() == 0 {
        None
    } else if indices[0] >= count {
        Some(indices[0])
    } else {
        first_bad(indices.drop_first(), count)
    }
}

/// Checks that every requested index names an existing split point.
pub fn validate_indices(indices: &Vec<usize>, count: usize) -> (r: Result<(), EpubError>)
    ensures
        r is Ok <==> first_bad(indices@, count as nat) is None,
        r matches Err(e) ==> e == (EpubError::IndexOutOfRange { index: first_bad(indices@, count as nat)->0, available: count }),
{
    let mut i: usize = 0;
    assert(indices@.skip(0) =~= indices@);
    while i < indices.len()
        invariant
            i <= indices@.len(),
            first_bad(indices@.skip(i as int), count as nat) == first_bad(indices@, count as nat),
        decreases indices.len() - i,
    {
        assert(indices@.skip(i as int).drop_first() =~= indices@.skip(i + 1));
        if indices[i] >= count {
            return Err(EpubError::IndexOutOfRange { index: indices[i], available: count });
        }
        i = i + 1;
    }
    Ok(())
}

/// The label of a split point's navigation entry: its first label, or `title`.
pub open spec fn point_label(l: LineView, title: Seq<char>) -> Seq<char> {
    if l.toc.len() > 0 {
        l.toc[0]
    } else {
        title
    }
}

/// Where a split point's navigation entry leads: its document, and its anchor if any.
pub open spec fn point_target(l: LineView) -> Seq<char> {
    match l.anchor {
        Some(a) => l.href + seq!['#'] + a,
        None => l.href,
    }
}

/// What a selection of split points stages: the distinct documents (href, media
/// type) in the order first selected, and one navigation entry per selected point.
pub open spec fn selection(
    lines: Seq<LineView>,
    indices: Seq<usize>,
    title: Seq<char>,
) -> (Seq<(Seq<char>, Seq<char>)>, Seq<(Seq<char>, Seq<char>)>)
    decreases indices.len(),
{
    if indices.len() == 0 {
        (seq![], seq![])
    } else {
        let (docs, toc) = selection(lines, indices.drop_last(), title);
        let l = lines[indices.last() as int];
        let docs2 = if docs.map_values(|d: (Seq<char>, Seq<char>)| d.0).contains(l.href) {
            docs
        } else {
            docs.push((l.href, l.media_type))
        };
        (docs2, toc.push((point_label(l, title), point_target(l))))
    }
}

pub open spec fn str_pairs(v: Seq<(String, String)>) -> Seq<(Seq<char>, Seq<char>)> {
    v.map_values(|t: (String, String)| (t.0@, t.1@))
}

fn contains_href(docs: &Vec<(String, String)>, href: &String) -> (r: bool)
    ensures
        r == str_pairs(docs@).map_values(|d: (Seq<char>, Seq<char>)| d.0).contains(href@),
{
    let ghost hs = str_pairs(docs@).map_values(|d: (Seq<char>, Seq<char>)| d.0);
    let mut i: usize = 0;
    while i < docs.len()
        invariant
            i <= docs@.len(),
            hs == str_pairs(docs@).map_values(|d: (Seq<char>, Seq<char>)| d.0),
            forall|j: int| 0 <= j < i ==> hs[j] != href@,
        decreases docs.len() - i,
    {
        assert(hs[i as int] == docs@[i as int].0@);
        if crate::xml::same_text(docs[i].0.as_str(), href.as_str()) {
            return true;
        }
        i = i + 1;
    }
    false
}

/// The documents and navigation entries that a selection of split points stages.
pub fn select_points(lines: &Vec<SplitLine>, indices: &Vec<usize>, title: &String) -> (r: (
    Vec<(String, String)>,
    Vec<(String, String)>,
))
    requires
        first_bad(indices@, lines@.len()) is None,
    ensures
        (str_pairs(r.0@), str_pairs(r.1@)) == selection(lines_view(lines@), indices@, title@),
{
    let ghost lv = lines_view(lines@);
    let mut docs: Vec<(String, String)> = Vec::new();
    let mut toc: Vec<(String, String)> = Vec::new();
    let mut i: usize = 0;
    proof {
        lemma_first_bad_none(indices@, lines@.len());
    }
    assert(str_pairs(docs@) =~= seq![]);
    assert(str_pairs(toc@) =~= seq![]);
    while i < indices.len()
        invariant
            i <= indices@.len(),
            lv == lines_view(lines@),
            forall|k: int| 0 <= k < indices@.len() ==> #[trigger] indices@[k] < lines@.len(),
            (str_pairs(docs@), str_pairs(toc@)) == selection(lv, indices@.take(i as int), title@),
        decreases indices.len() - i,
    {
        assert(indices@.take(i + 1).drop_last() =~= indices@.take(i as int));
        let idx = indices[i];
        assert(idx < lines@.len());
        let l = &lines[idx];
        assert(lv[idx as int] == line_view(*l));
        if !contains_href(&docs, &l.href) {
            let ghost before = str_pairs(docs@);
            docs.push((l.href.clone(), l.media_type.clone()));
            assert(str_pairs(docs@) =~= before.push((l.href@, l.media_type@)));
        }
        let label = if l.toc.len() > 0 {
            assert(texts(l.toc@)[0] == l.toc@[0]@);
            l.toc[0].clone()
        } else {
            title.clone()
        };
        let target = match &l.anchor {
            Some(a) => {
                let mut t = l.href.clone();
                t.append("#");
                t.append(a.as_str());
                proof { reveal_strlit("#"); }
                t
            },
            None => l.href.clone(),
        };
        assert(label@ == point_label(lv[idx as int], title@));
        proof { reveal_strlit("#"); }
        assert(target@ =~= point_target(lv[idx as int]));
        let ghost tb = str_pairs(toc@);
        toc.push((label, target));
        assert(str_pairs(toc@) =~= tb.push((point_label(lv[idx as int], title@), point_target(lv[idx as int]))));
        i = i + 1;
    }
    assert(indices@.take(i as int) =~= indices@);
    (docs, toc)
}

pub proof fn lemma_first_bad_none(indices: Seq<usize>, count: nat)
    requires
        first_bad(indices, count) is None,
    ensures
        forall|k: int| 0 <= k < indices.len() ==> #[trigger] indices[k] < count,
    decreases indices.len(),
{
    if indices.len() > 0 {
        lemma_first_bad_none(indices.drop_first(), count);
        assert forall|k: int| 0 <= k < indices.len() implies #[trigger] indices[k] < count by {
            if k > 0 {
                assert(indices[k] == indices.drop_first()[k - 1]);
            }
        }
    }
}

/// Whether `p` is a file of one of the per-document closures.
pub open spec fn in_some_closure(cls: Seq<Resources>, p: Seq<char>) -> bool {
    exists|k: int| 0 <= k < cls.len() && #[trigger] texts(cls[k].files@).contains(p)
}

/// The documents staged for a split book: their texts, the resource closure of each,
/// and all those resources together, each once, in the order found.
pub struct Staged {
    pub texts: Vec<String>,
    pub closures: Vec<Resources>,
    pub resources: Vec<String>,
}

pub open spec fn staged_ok(fs: Seq<crate::archive::ArchiveEntry>, docs: Seq<(Seq<char>, Seq<char>)>, st: Staged) -> bool {
    &&& st.texts@.len() == docs.len()
    &&& st.closures@.len() == docs.len()
    &&& forall|k: int| 0 <= k < docs.len() ==> text_in(fs, #[trigger] docs[k].0) == Some(st.texts@[k]@)
    &&& forall|k: int| 0 <= k < docs.len() ==> is_closure(fs, st.texts@[k]@, docs[k].0,
            texts(#[trigger] st.closures@[k].files@), texts(st.closures@[k].sheets@))
    &&& texts(st.resources@).no_duplicates()
    &&& forall|p: Seq<char>| texts(st.resources@).contains(p) <==> #[trigger] in_some_closure(st.closures@, p)
}

/// Whether every staged document can be read as text.
pub open spec fn all_readable(fs: Seq<crate::archive::ArchiveEntry>, docs: Seq<(Seq<char>, Seq<char>)>) -> bool {
    forall|k: int| 0 <= k < docs.len() ==> text_in(fs, #[trigger] docs[k].0) is Some
}

/// Reads every staged document and computes what it depends on.
pub fn stage_documents(docs: &Vec<(String, String)>, archive: &Archive) -> (r: Result<Staged, EpubError>)
    ensures
        r matches Ok(st) ==> staged_ok(archive.entries@, str_pairs(docs@), st),
        r matches Ok(_) ==> all_readable(archive.entries@, str_pairs(docs@)),
        r is Ok <==> all_readable(archive.entries@, str_pairs(docs@)),
        r matches Err(e) ==> e is ResourceRead,
{
    let ghost fs = archive.entries@;
    let ghost dv = str_pairs(docs@);
    let mut doc_texts: Vec<String> = Vec::new();
    let mut closures: Vec<Resources> = Vec::new();
    let mut resources: Vec<String> = Vec::new();
    let mut i: usize = 0;
    assert(texts(resources@) =~= seq![]);
    while i < docs.len()
        invariant
            i <= docs@.len(),
            fs == archive.entries@,
            dv == str_pairs(docs@),
            doc_texts@.len() == i,
            closures@.len() == i,
            forall|k: int| 0 <= k < i ==> text_in(fs, #[trigger] dv[k].0) == Some(doc_texts@[k]@),
            forall|k: int| 0 <= k < i ==> is_closure(fs, doc_texts@[k]@, dv[k].0,
                texts(#[trigger] closures@[k].files@), texts(closures@[k].sheets@)),
            texts(resources@).no_duplicates(),
            forall|p: Seq<char>| texts(resources@).contains(p) <==> #[trigger] in_some_closure(closures@, p),
        decreases docs.len() - i,
    {
        let href = &docs[i].0;
        assert(dv[i as int].0 == href@);
        let text = match archive.read_text(href.as_str()) {
            Some(t) => t.clone(),
            None => {
                assert(text_in(fs, dv[i as int].0) is None);
                return Err(EpubError::ResourceRead(href.clone()));
            },
        };
        let res = scan_for_linked_files(&text, href, archive);
        let ghost cl_before = closures@;
        let ghost r0 = texts(resources@);
        let mut j: usize = 0;
        while j < res.files.len()
            invariant
                j <= res.files@.len(),
                texts(resources@).no_duplicates(),
                forall|q: Seq<char>| r0.contains(q) ==> #[trigger] texts(resources@).contains(q),
                forall|m: int| 0 <= m < j ==> texts(resources@).contains(#[trigger] texts(res.files@)[m]),
                forall|q: Seq<char>| #[trigger] texts(resources@).contains(q) ==> r0.contains(q) || texts(res.files@).contains(q),
            decreases res.files.len() - j,
        {
            let p = res.files[j].clone();
            assert(texts(res.files@)[j as int] == p@);
            let ghost rb = texts(resources@);
            add_unique_path(&mut resources, p);
            j = j + 1;
        }
        doc_texts.push(text);
        closures.push(res);
        proof {
            let cls = closures@;
            assert forall|p: Seq<char>| texts(resources@).contains(p) <==> #[trigger] in_some_closure(cls, p) by {
                if texts(resources@).contains(p) {
                    if r0.contains(p) {
                        assert(in_some_closure(cl_before, p));
                        let k = choose|k: int| 0 <= k < cl_before.len() && #[trigger] texts(cl_before[k].files@).contains(p);
                        assert(cls[k] == cl_before[k]);
                    } else {
                        assert(texts(cls[i as int].files@).contains(p));
                    }
                }
                if in_some_closure(cls, p) {
                    let k = choose|k: int| 0 <= k < cls.len() && #[trigger] texts(cls[k].files@).contains(p);
                    if k < i {
                        assert(cls[k] == cl_before[k]);
                        assert(in_some_closure(cl_before, p));
                    } else {
                        let m = choose|m: int| 0 <= m < texts(cls[k].files@).len() && texts(cls[k].files@)[m] == p;
                        assert(texts(resources@).contains(texts(res.files@)[m]));
                    }
                }
            }
        }
        i = i + 1;
    }
    Ok(Staged { texts: doc_texts, closures, resources })
}

fn add_unique_path(v: &mut Vec<String>, s: String)
    requires
        texts(old(v)@).no_duplicates(),
    ensures
        texts(final(v)@).no_duplicates(),
        texts(final(v)@).contains(s@),
        forall|q: Seq<char>| texts(old(v)@).contains(q) ==> #[trigger] texts(final(v)@).contains(q),
        forall|q: Seq<char>| #[trigger] texts(final(v)@).contains(q) ==> texts(old(v)@).contains(q) || q == s@,
{
    if !contains_text(v, &s) {
        let ghost before = texts(v@);
        v.push(s);
        assert(texts(v@) =~= before.push(s@));
        assert(texts(v@)[before.len() as int] == s@);
        assert forall|q: Seq<char>| before.contains(q) implies #[trigger] texts(v@).contains(q) by {
            let k = choose|k: int| 0 <= k < before.len() && before[k] == q;
            assert(texts(v@)[k] == q);
        }
        assert forall|q: Seq<char>| #[trigger] texts(v@).contains(q) implies before.contains(q) || q == s@ by {
            let k = choose|k: int| 0 <= k < texts(v@).len() && texts(v@)[k] == q;
            if k < before.len() {
                assert(before[k] == q);
            }
        }
    }
}

/// The resources that can be read as bytes, in order.
pub open spec fn readable_resources(fs: Seq<crate::archive::ArchiveEntry>, res: Seq<Seq<char>>) -> Seq<Seq<char>>
    decreases res.len(),
{
    if res.len() == 0 {
        seq![]
    } else if bytes_in(fs, res.last()) is Some {
        readable_resources(fs, res.drop_last()).push(res.last())
    } else {
        readable_resources(fs, res.drop_last())
    }
}

pub open spec fn content_id(k: nat) -> Seq<char> {
    "content"@ + decimal(k)
}

pub open spec fn resource_id(k: nat) -> Seq<char> {
    "resource"@ + decimal(k)
}

/// The manifest of a split book: the navigation file, the cover files if any, the
/// staged documents, then the readable resources.
pub open spec fn plan_manifest(docs: Seq<(Seq<char>, Seq<char>)>, res: Seq<Seq<char>>, has_cover: bool) -> Seq<(Seq<char>, Seq<char>, Seq<char>)> {
    seq![("ncx"@, "toc.ncx"@, "application/x-dtbncx+xml"@)]
        + (if has_cover {
            seq![("coverimageid"@, "cover.jpg"@, "image/jpeg"@), ("cover"@, "cover.xhtml"@, "application/xhtml+xml"@)]
        } else {
            seq![]
        })
        + Seq::new(docs.len(), |k: int| (content_id(k as nat), docs[k].0, docs[k].1))
        + Seq::new(res.len(), |k: int| (resource_id((docs.len() + k) as nat), res[k], media_type_of(res[k])))
}

/// The reading order of a split book: the cover page if any, then the documents.
pub open spec fn plan_spine(n: nat, has_cover: bool) -> Seq<Seq<char>> {
    (if has_cover { seq!["cover"@] } else { seq![] }) + Seq::new(n, |k: int| content_id(k as nat))
}

fn content_id_text(k: usize) -> (r: String)
    ensures
        r@ == content_id(k as nat),
{
    let mut s = String::from_str("content");
    let d = decimal_text(k);
    s.append(d.as_str());
    s
}

fn resource_id_text(k: usize) -> (r: String)
    ensures
        r@ == resource_id(k as nat),
{
    let mut s = String::from_str("resource");
    let d = decimal_text(k);
    s.append(d.as_str());
    s
}

fn text_pair(a: &str, b: &str, c: &str) -> (r: (String, String, String))
    ensures
        r.0@ == a@ && r.1@ == b@ && r.2@ == c@,
{
    (String::from_str(a), String::from_str(b), String::from_str(c))
}

/// The manifest items and spine of a split book.
pub fn build_manifest(docs: &Vec<(String, String)>, res: &Vec<String>, has_cover: bool) -> (r: (
    Vec<(String, String, String)>,
    Vec<String>,
))
    requires
        docs@.len() + res@.len() <= usize::MAX,
    ensures
        triples(r.0@) == plan_manifest(str_pairs(docs@), texts(res@), has_cover),
        texts(r.1@) == plan_spine(docs@.len() as nat, has_cover),
{
    let ghost dv = str_pairs(docs@);
    let ghost rv = texts(res@);
    let mut items: Vec<(String, String, String)> = Vec::new();
    let mut spine: Vec<String> = Vec::new();
    items.push(text_pair("ncx", "toc.ncx", "application/x-dtbncx+xml"));
    if has_cover {
        items.push(text_pair("coverimageid", "cover.jpg", "image/jpeg"));
        items.push(text_pair("cover", "cover.xhtml", "application/xhtml+xml"));
        spine.push(String::from_str("cover"));
    }
    let ghost head = triples(items@);
    let ghost shead = texts(spine@);
    assert(head =~= seq![("ncx"@, "toc.ncx"@, "application/x-dtbncx+xml"@)] + (if has_cover {
        seq![("coverimageid"@, "cover.jpg"@, "image/jpeg"@), ("cover"@, "cover.xhtml"@, "application/xhtml+xml"@)]
    } else {
        seq![]
    }));
    assert(shead =~= (if has_cover { seq!["cover"@] } else { seq![] }));
    let mut k: usize = 0;
    while k < docs.len()
        invariant
            k <= docs@.len(),
            dv == str_pairs(docs@),
            triples(items@) == head + Seq::new(k as nat, |j: int| (content_id(j as nat), dv[j].0, dv[j].1)),
            texts(spine@) == shead + Seq::new(k as nat, |j: int| content_id(j as nat)),
        decreases docs.len() - k,
    {
        let id = content_id_text(k);
        let id2 = id.clone();
        let ghost ib = triples(items@);
        let ghost sb = texts(spine@);
        let t = (id, docs[k].0.clone(), docs[k].1.clone());
        assert(dv[k as int] == (docs@[k as int].0@, docs@[k as int].1@));
        let ghost tv = (t.0@, t.1@, t.2@);
        items.push(t);
        spine.push(id2);
        assert(triples(items@) =~= ib.push(tv));
        assert(texts(spine@) =~= sb.push(content_id(k as nat)));
        assert(triples(items@) =~= head + Seq::new((k + 1) as nat, |j: int| (content_id(j as nat), dv[j].0, dv[j].1)));
        assert(texts(spine@) =~= shead + Seq::new((k + 1) as nat, |j: int| content_id(j as nat)));
        k = k + 1;
    }
    let ghost mid = triples(items@);
    let mut m: usize = 0;
    assert(triples(items@) =~= mid + Seq::new(0, |j: int| (resource_id((dv.len() + j) as nat), rv[j], media_type_of(rv[j]))));
    while m < res.len()
        invariant
            m <= res@.len(),
            docs@.len() + res@.len() <= usize::MAX,
            dv == str_pairs(docs@),
            rv == texts(res@),
            triples(items@) == mid + Seq::new(m as nat, |j: int| (resource_id((dv.len() + j) as nat), rv[j], media_type_of(rv[j]))),
        decreases res.len() - m,
    {
        let id = resource_id_text(docs.len() + m);
        let mt = guess_media_type(res[m].as_str());
        let ghost ib = triples(items@);
        let t = (id, res[m].clone(), mt);
        assert(rv[m as int] == res@[m as int]@);
        let ghost tv = (t.0@, t.1@, t.2@);
        items.push(t);
        assert(triples(items@) =~= ib.push(tv));
        assert(triples(items@) =~= mid + Seq::new((m + 1) as nat, |j: int| (resource_id((dv.len() + j) as nat), rv[j], media_type_of(rv[j]))));
        m = m + 1;
    }
    assert(triples(items@) =~= plan_manifest(dv, rv, has_cover));
    assert(texts(spine@) =~= plan_spine(docs@.len() as nat, has_cover));
    (items, spine)
}

/// What one file of a split book holds.
pub enum EntryData {
    Text(String),
    Bytes(Vec<u8>),
}

/// One file of a split book, in the order it is written; `stored` files are written
/// without compression.
pub struct OutputEntry {
    pub name: String,
    pub data: EntryData,
    pub stored: bool,
}

pub open spec fn is_text_entry(e: OutputEntry, name: Seq<char>, text: Seq<char>, stored: bool) -> bool {
    e.name@ == name && e.stored == stored && (e.data matches EntryData::Text(t) && t@ == text)
}

pub open spec fn is_bytes_entry(e: OutputEntry, name: Seq<char>, bytes: Seq<u8>) -> bool {
    e.name@ == name && !e.stored && (e.data matches EntryData::Bytes(b) && b@ == bytes)
}

/// `vs` joined with `sep` between them.
pub open spec fn joined(vs: Seq<Seq<char>>, sep: Seq<char>) -> Seq<char>
    decreases vs.len(),
{
    if vs.len() == 0 {
        Seq::empty()
    } else if vs.len() == 1 {
        vs[0]
    } else {
        joined(vs.drop_last(), sep) + sep + vs.last()
    }
}

fn join_texts(vs: &Vec<String>, sep: &str) -> (r: String)
    ensures
        r@ == joined(texts(vs@), sep@),
{
    let ghost tv = texts(vs@);
    let mut out = String::new();
    let mut i: usize = 0;
    while i < vs.len()
        invariant
            i <= vs@.len(),
            tv == texts(vs@),
            out@ == joined(tv.take(i as int), sep@),
        decreases vs.len() - i,
    {
        assert(tv.take(i + 1).drop_last() =~= tv.take(i as int));
        if i > 0 {
            out.append(sep);
        }
        out.append(vs[i].as_str());
        assert(tv[i as int] == vs@[i as int]@);
        i = i + 1;
        assert(out@ =~= joined(tv.take(i as int), sep@));
    }
    assert(tv.take(i as int) =~= tv);
    out
}

/// The title of a split book when none is given.
pub open spec fn default_title(orig: Seq<char>) -> Seq<char> {
    orig + " Split"@
}

/// The description of a split book when none is given.
pub open spec fn default_description(orig: Seq<char>, authors: Seq<Seq<char>>) -> Seq<char> {
    "Split from "@ + orig + " by "@ + joined(authors, ", "@) + "."@
}

pub open spec fn opt_or(o: Option<String>, d: Seq<char>) -> Seq<char> {
    match o {
        Some(s) => s@,
        None => d,
    }
}

/// The files of a split book, in the order they are written: the stored mimetype,
/// the container descriptor, the staged documents, the readable resources `rr`, the
/// package document, the navigation document, and the cover image and page if a
/// cover is given.
pub open spec fn book_layout(
    fs: Seq<crate::archive::ArchiveEntry>,
    docs: Seq<(Seq<char>, Seq<char>)>,
    toc: Seq<(Seq<char>, Seq<char>)>,
    rr: Seq<Seq<char>>,
    uid: Seq<char>,
    title: Seq<char>,
    authors: Seq<Seq<char>>,
    description: Seq<char>,
    tags: Seq<Seq<char>>,
    languages: Seq<Seq<char>>,
    cover: Option<Seq<u8>>,
    out: Seq<OutputEntry>,
) -> bool {
    let d: int = docs.len() as int;
    let base: int = 2 + d + rr.len();
    let has_cover = cover is Some;
    &&& out.len() == base + 2 + (if has_cover { 2int } else { 0int })
    &&& is_text_entry(out[0], "mimetype"@, "application/epub+zip"@, true)
    &&& is_text_entry(out[1], "META-INF/container.xml"@, container_text(), false)
    &&& forall|k: int| 0 <= k < d ==> is_text_entry(#[trigger] out[2 + k], docs[k].0, text_in(fs, docs[k].0)->0, false)
    &&& forall|j: int| 0 <= j < rr.len() ==> is_bytes_entry(#[trigger] out[2 + d + j], rr[j], bytes_in(fs, rr[j])->0)
    &&& is_text_entry(out[base], "content.opf"@, opf_text(uid, title, authors, description, tags, languages,
            plan_manifest(docs, rr, has_cover), plan_spine(d as nat, has_cover), has_cover), false)
    &&& is_text_entry(out[base + 1], "toc.ncx"@, ncx_text(uid, title, toc), false)
    &&& (cover matches Some(b) ==> is_bytes_entry(out[base + 2], "cover.jpg"@, b)
            && is_text_entry(out[base + 3], "cover.xhtml"@, cover_text(), false))
}

/// Whether `rr` is the readable part of the union of the staged documents' closures.
pub open spec fn resources_of(fs: Seq<crate::archive::ArchiveEntry>, docs: Seq<(Seq<char>, Seq<char>)>, rr: Seq<Seq<char>>) -> bool {
    exists|st: Staged| #[trigger] staged_ok(fs, docs, st) && rr == readable_resources(fs, texts(st.resources@))
}

pub open spec fn bytes_opt(o: Option<Vec<u8>>) -> Option<Seq<u8>> {
    match o {
        Some(b) => Some(b@),
        None => None,
    }
}

fn copy_bytes(b: &Vec<u8>) -> (r: Vec<u8>)
    ensures
        r@ == b@,
{
    let mut out: Vec<u8> = Vec::new();
    let mut i: usize = 0;
    while i < b.len()
        invariant
            i <= b@.len(),
            out@ == b@.take(i as int),
        decreases b.len() - i,
    {
        out.push(b[i]);
        i = i + 1;
        assert(out@ =~= b@.take(i as int));
    }
    assert(b@.take(i as int) =~= b@);
    out
}

fn text_entry(name: &str, text: String, stored: bool) -> (r: OutputEntry)
    ensures
        is_text_entry(r, name@, text@, stored),
{
    OutputEntry { name: String::from_str(name), data: EntryData::Text(text), stored }
}

/// What loading a book yields: its split points, title and authors, and the parsed
/// package data they come from.
pub struct LoadView {
    pub points: Seq<LineView>,
    pub title: Seq<char>,
    pub authors: Seq<Seq<char>>,
    pub opf_path: Seq<char>,
    pub manifest: Seq<(Seq<char>, Seq<char>, Seq<char>)>,
    pub guide: Seq<(Seq<char>, Seq<char>, Seq<char>)>,
    pub toc: Seq<(Seq<char>, crate::nav::TocEntryView)>,
}

/// The navigation entries of the navigation document `m` declares: none when it
/// declares none; nothing when the declared one cannot be read or parsed.
pub open spec fn declared_nav(fs: Seq<crate::archive::ArchiveEntry>, m: Seq<(Seq<char>, Seq<char>, Seq<char>)>) -> Option<Seq<(Seq<char>, crate::nav::TocEntryView)>> {
    match crate::package::ncx_href(m) {
        None => Some(seq![]),
        Some(tp) => match text_in(fs, tp) {
            None => None,
            Some(t) => match xml_events(t) {
                None => None,
                Some(nev) => Some(crate::nav::nav_records(nev, crate::path::dir_part(tp))),
            },
        },
    }
}

/// The book that the package document at `opf_path`, with events `ev`, describes.
pub open spec fn load_package(fs: Seq<crate::archive::ArchiveEntry>, opf_path: Seq<char>, ev: Seq<EventView>) -> Option<LoadView> {
    let dir = crate::path::dir_part(opf_path);
    let m = crate::package::manifest_entries(ev, dir);
    if !has_element(ev, "manifest"@) || !has_element(ev, "spine"@) {
        None
    } else {
        match declared_nav(fs, m) {
            None => None,
            Some(recs) => match crate::split::spine_lines(spine_ids(ev), m, crate::package::guide_entries(ev, dir), recs, fs) {
                None => None,
                Some(pts) => Some(LoadView {
                    points: pts,
                    title: meta_title(ev),
                    authors: meta_authors(ev),
                    opf_path,
                    manifest: m,
                    guide: crate::package::guide_entries(ev, dir),
                    toc: recs,
                }),
            },
        }
    }
}

/// The message of a file that should be in the archive and is not.
pub open spec fn missing_file(p: Seq<char>) -> Seq<char> {
    "missing file: "@ + p
}

/// The message owed when loading the package document at `opf_path` (events `ev`)
/// fails for a reason of the book's own; none where it succeeds or a parser's own
/// message is reported.
pub open spec fn package_failure(fs: Seq<crate::archive::ArchiveEntry>, opf_path: Seq<char>, ev: Seq<EventView>) -> Option<Seq<char>> {
    let m = crate::package::manifest_entries(ev, crate::path::dir_part(opf_path));
    let nav = crate::package::ncx_href(m);
    if !has_element(ev, "manifest"@) {
        Some("the package document has no manifest"@)
    } else if nav is Some && text_in(fs, nav->0) is None {
        Some(missing_file(nav->0))
    } else if nav is Some && xml_events(text_in(fs, nav->0)->0) is None {
        None
    } else if !has_element(ev, "spine"@) {
        Some("the package document has no spine"@)
    } else {
        match crate::split::first_unknown(spine_ids(ev), m) {
            Some(id) => Some(crate::split::unknown_id_message(id)),
            None => None,
        }
    }
}

/// The message owed when loading a book fails for a reason of the book's own: a
/// missing container descriptor, rootfile, package or navigation document, a package
/// without manifest or spine, or a spine id without manifest entry.
pub open spec fn load_failure(fs: Seq<crate::archive::ArchiveEntry>) -> Option<Seq<char>> {
    match text_in(fs, "META-INF/container.xml"@) {
        None => Some(missing_file("META-INF/container.xml"@)),
        Some(c) => match xml_events(c) {
            None => None,
            Some(cev) => match first_rootfile(cev) {
                None => Some("no rootfile in container.xml"@),
                Some(opf_path) => match text_in(fs, opf_path) {
                    None => Some(missing_file(opf_path)),
                    Some(opf) => match xml_events(opf) {
                        None => None,
                        Some(ev) => package_failure(fs, opf_path, ev),
                    },
                },
            },
        },
    }
}

/// The book that an archive's files describe: the container descriptor names the
/// package document, which declares the content and the navigation document.
pub open spec fn load_book(fs: Seq<crate::archive::ArchiveEntry>) -> Option<LoadView> {
    match text_in(fs, "META-INF/container.xml"@) {
        None => None,
        Some(c) => match xml_events(c) {
            None => None,
            Some(cev) => match first_rootfile(cev) {
                None => None,
                Some(opf_path) => match text_in(fs, opf_path) {
                    None => None,
                    Some(opf) => match xml_events(opf) {
                        None => None,
                        Some(ev) => load_package(fs, opf_path, ev),
                    },
                },
            },
        },
    }
}

/// A loaded book: its archive, parsed package data, and its split points.
pub struct SplitEpub {
    pub archive: Archive,
    pub content_opf_path: String,
    pub manifest: Vec<ManifestItem>,
    pub guide: Vec<GuideItem>,
    pub toc: Vec<TocRecord>,
    pub orig_title: String,
    pub orig_authors: Vec<String>,
    pub lines: Vec<SplitLine>,
}

impl SplitEpub {
    /// A loaded book holds what its archive's files describe.
    pub open spec fn wf(&self) -> bool {
        load_book(self.files()) == Some(self.loaded_view())
    }

    pub open spec fn loaded_view(&self) -> LoadView {
        LoadView {
            points: self.points(),
            title: self.title_view(),
            authors: self.authors_view(),
            opf_path: self.content_opf_path@,
            manifest: crate::package::items_view(self.manifest@),
            guide: crate::package::guides_view(self.guide@),
            toc: crate::nav::records_view(self.toc@),
        }
    }

    pub open spec fn files(&self) -> Seq<crate::archive::ArchiveEntry> {
        self.archive.entries@
    }

    pub open spec fn points(&self) -> Seq<LineView> {
        lines_view(self.lines@)
    }

    pub open spec fn title_view(&self) -> Seq<char> {
        self.orig_title@
    }

    pub open spec fn authors_view(&self) -> Seq<Seq<char>> {
        texts(self.orig_authors@)
    }

    /// Loads a book: resolves the container descriptor, parses the package document
    /// and the navigation document it declares, and derives the split points. It
    /// succeeds exactly when all of these can be read and parsed.
    pub fn new(archive: Archive) -> (r: Result<SplitEpub, EpubError>)
        ensures
            r is Ok <==> load_book(archive.entries@) is Some,
            r matches Ok(m) ==> m.files() == archive.entries@ && load_book(archive.entries@) == Some(m.loaded_view()),
            r matches Err(e) ==> e is Structure,
            load_failure(archive.entries@) matches Some(msg) ==> (r matches Err(EpubError::Structure(m)) && m@ == msg),
    {
        let ghost fs = archive.entries@;
        let container = match archive.read_text("META-INF/container.xml") {
            Some(t) => t.clone(),
            None => {
                proof { reveal_strlit("missing file: META-INF/container.xml"); reveal_strlit("missing file: "); reveal_strlit("META-INF/container.xml"); }
                return Err(EpubError::Structure(String::from_str("missing file: META-INF/container.xml")));
            },
        };
        let content_opf_path = match parse_container_xml(container.as_str()) {
            Ok(p) => p,
            Err(e) => {
                return Err(e);
            },
        };
        let ghost cev = xml_events(container@)->0;
        let content_relpath = get_path_part(content_opf_path.as_str());
        let opf = match archive.read_text(content_opf_path.as_str()) {
            Some(t) => t.clone(),
            None => {
                let mut msg = String::from_str("missing file: ");
                msg.append(content_opf_path.as_str());
                return Err(EpubError::Structure(msg));
            },
        };
        let (manifest, toc_path) = match parse_manifest(opf.as_str(), content_relpath.as_str()) {
            Ok(x) => x,
            Err(e) => {
                return Err(e);
            },
        };
        let ghost ev = xml_events(opf@)->0;
        let guide = match parse_guide(opf.as_str(), content_relpath.as_str()) {
            Ok(x) => x,
            Err(e) => {
                return Err(e);
            },
        };
        let (orig_title, orig_authors) = match parse_metadata(opf.as_str()) {
            Ok(x) => x,
            Err(e) => {
                return Err(e);
            },
        };
        let ghost mv = crate::package::items_view(manifest@);
        let toc = match toc_path {
            Some(tp) => {
                let toc_relpath = get_path_part(tp.as_str());
                let toc_text = match archive.read_text(tp.as_str()) {
                    Some(t) => t.clone(),
                    None => {
                        assert(declared_nav(fs, mv) is None);
                        let mut msg = String::from_str("missing file: ");
                        msg.append(tp.as_str());
                        return Err(EpubError::Structure(msg));
                    },
                };
                match parse_toc(toc_text.as_str(), toc_relpath.as_str()) {
                    Ok(x) => x,
                    Err(e) => {
                        assert(declared_nav(fs, mv) is None);
                        return Err(e);
                    },
                }
            },
            None => Vec::new(),
        };
        assert(declared_nav(fs, mv) == Some(crate::nav::records_view(toc@))) by {
            if toc_path is None {
                assert(crate::nav::records_view(toc@) =~= seq![]);
            }
        }
        let spine = match parse_spine(opf.as_str()) {
            Ok(x) => x,
            Err(e) => {
                return Err(e);
            },
        };
        let lines = match split_lines_for(&spine, &manifest, &guide, &toc, &archive) {
            Ok(x) => x,
            Err(e) => {
                assert(load_package(fs, content_opf_path@, ev) is None);
                return Err(e);
            },
        };
        let m = SplitEpub { archive, content_opf_path, manifest, guide, toc, orig_title, orig_authors, lines };
        assert(load_package(fs, m.content_opf_path@, ev) == Some(m.loaded_view()));
        proof {
            let dir = crate::path::dir_part(m.content_opf_path@);
            crate::split::lemma_spine_lines_resolved(spine_ids(ev), mv, crate::package::guide_entries(ev, dir),
                crate::nav::records_view(m.toc@), fs);
            crate::split::lemma_first_unknown_none(spine_ids(ev), mv);
            assert(load_failure(fs) is None);
        }
        Ok(m)
    }

    /// The split points, in order; selection is by index into this sequence.
    pub fn get_split_lines(&self) -> (r: &Vec<SplitLine>)
        ensures
            lines_view(r@) == self.points(),
    {
        &self.lines
    }

    pub fn get_orig_title(&self) -> (r: &String)
        ensures
            r@ == self.title_view(),
    {
        &self.orig_title
    }

    pub fn get_orig_authors(&self) -> (r: &Vec<String>)
        ensures
            texts(r@) == self.authors_view(),
    {
        &self.orig_authors
    }

    /// The title of a split book: the one given, or the source book's title followed by
    /// ` Split`.
    pub fn split_title(&self, given: &Option<String>) -> (r: String)
        ensures
            r@ == opt_or(*given, default_title(self.title_view())),
    {
        match given {
            Some(t) => t.clone(),
            None => {
                let mut t = self.orig_title.clone();
                t.append(" Split");
                proof { reveal_strlit(" Split"); }
                t
            },
        }
    }

    /// The authors of a split book: the ones given, or the source book's authors when none are.
    pub fn split_authors(&self, given: &Vec<String>) -> (r: Vec<String>)
        ensures
            given@.len() > 0 ==> texts(r@) == texts(given@),
            given@.len() == 0 ==> texts(r@) == self.authors_view(),
    {
        let src = if given.len() > 0 { given } else { &self.orig_authors };
        let mut out: Vec<String> = Vec::new();
        let mut i: usize = 0;
        while i < src.len()
            invariant
                i <= src@.len(),
                texts(out@) == texts(src@).take(i as int),
            decreases src.len() - i,
        {
            let ghost before = texts(out@);
            let c = src[i].clone();
            assert(c@ == texts(src@)[i as int]);
            out.push(c);
            assert(texts(out@) =~= before.push(c@));
            assert(texts(src@).take(i + 1) =~= texts(src@).take(i as int).push(texts(src@)[i as int]));
            i = i + 1;
        }
        assert(texts(src@).take(i as int) =~= texts(src@));
        out
    }

    /// The archive-internal path of the package document.
    pub fn content_opf_path(&self) -> (r: &String)
        ensures
            r@ == self.content_opf_path@,
    {
        &self.content_opf_path
    }
}

impl SplitEpub {
    /// Assembles a split book from the split points at `section_indices` (in the
    /// given order): every index must exist; each selected document is staged once,
    /// with everything it depends on, and each selected point gets a navigation entry.
    /// `title` and `description` default to ones derived from the source book.
    pub fn write_split_epub(
        &self,
        section_indices: &Vec<usize>,
        authors: &Vec<String>,
        title: Option<String>,
        description: Option<String>,
        tags: &Vec<String>,
        languages: &Vec<String>,
        cover: Option<Vec<u8>>,
        unique_id: &String,
    ) -> (r: Result<Vec<OutputEntry>, EpubError>)
        ensures
            first_bad(section_indices@, self.lines@.len()) matches Some(i) ==> r == Err::<Vec<OutputEntry>, EpubError>(
                EpubError::IndexOutOfRange { index: i, available: self.lines@.len() as usize },
            ),
            ({
                let t = opt_or(title, default_title(self.title_view()));
                let sel = selection(self.points(), section_indices@, t);
                first_bad(section_indices@, self.lines@.len()) is None ==> {
                    &&& (r is Ok <==> all_readable(self.files(), sel.0))
                    &&& (r matches Err(e) ==> e is ResourceRead)
                    &&& (r matches Ok(out) ==> exists|rr: Seq<Seq<char>>| #[trigger] resources_of(self.files(), sel.0, rr)
                        && book_layout(self.files(), sel.0, sel.1, rr, unique_id@, t, texts(authors@),
                        opt_or(description, default_description(self.title_view(), self.authors_view())),
                        texts(tags@), texts(languages@), bytes_opt(cover), out@))
                }
            }),
    {
        match validate_indices(section_indices, self.lines.len()) {
            Ok(()) => {},
            Err(e) => {
                return Err(e);
            },
        }
        let final_title = match title {
            Some(t) => t,
            None => {
                let mut t = self.orig_title.clone();
                t.append(" Split");
                t
            },
        };
        let final_description = match description {
            Some(d) => d,
            None => {
                let mut d = String::from_str("Split from ");
                d.append(self.orig_title.as_str());
                d.append(" by ");
                let j = join_texts(&self.orig_authors, ", ");
                d.append(j.as_str());
                d.append(".");
                d
            },
        };
        proof {
            reveal_strlit(" Split");
            reveal_strlit("Split from ");
            reveal_strlit(" by ");
            reveal_strlit(", ");
            reveal_strlit(".");
        }
        assert(final_title@ =~= opt_or(title, default_title(self.title_view())));
        assert(final_description@ =~= opt_or(description, default_description(self.title_view(), self.authors_view())));
        let (docs, toc) = select_points(&self.lines, section_indices, &final_title);
        let ghost fs = self.archive.entries@;
        let ghost dv = str_pairs(docs@);
        let st = match stage_documents(&docs, &self.archive) {
            Ok(st) => st,
            Err(e) => {
                return Err(e);
            },
        };
        let mut out: Vec<OutputEntry> = Vec::new();
        out.push(text_entry("mimetype", String::from_str("application/epub+zip"), true));
        out.push(text_entry("META-INF/container.xml", generate_container_xml(), false));
        let mut k: usize = 0;
        while k < docs.len()
            invariant
                k <= docs@.len(),
                dv == str_pairs(docs@),
                fs == self.archive.entries@,
                staged_ok(fs, dv, st),
                out@.len() == 2 + k,
                is_text_entry(out@[0], "mimetype"@, "application/epub+zip"@, true),
                is_text_entry(out@[1], "META-INF/container.xml"@, container_text(), false),
                forall|m: int| 0 <= m < k ==> is_text_entry(#[trigger] out@[2 + m], dv[m].0, text_in(fs, dv[m].0)->0, false),
            decreases docs.len() - k,
        {
            assert(text_in(fs, dv[k as int].0) == Some(st.texts@[k as int]@));
            let name = docs[k].0.clone();
            let e = OutputEntry { name, data: EntryData::Text(st.texts[k].clone()), stored: false };
            assert(dv[k as int].0 == docs@[k as int].0@);
            out.push(e);
            k = k + 1;
        }
        let mut rr: Vec<String> = Vec::new();
        let ghost rv = texts(st.resources@);
        let mut j: usize = 0;
        assert(texts(rr@) =~= readable_resources(fs, rv.take(0)));
        while j < st.resources.len()
            invariant
                j <= st.resources@.len(),
                rv == texts(st.resources@),
                dv == str_pairs(docs@),
                fs == self.archive.entries@,
                out@.len() == 2 + dv.len() + texts(rr@).len(),
                texts(rr@) == readable_resources(fs, rv.take(j as int)),
                is_text_entry(out@[0], "mimetype"@, "application/epub+zip"@, true),
                is_text_entry(out@[1], "META-INF/container.xml"@, container_text(), false),
                forall|m: int| 0 <= m < dv.len() ==> is_text_entry(#[trigger] out@[2 + m], dv[m].0, text_in(fs, dv[m].0)->0, false),
                forall|m: int| 0 <= m < texts(rr@).len() ==> is_bytes_entry(#[trigger] out@[2 + dv.len() + m], texts(rr@)[m],
                    bytes_in(fs, texts(rr@)[m])->0),
            decreases st.resources.len() - j,
        {
            assert(rv.take(j + 1).drop_last() =~= rv.take(j as int));
            assert(rv[j as int] == st.resources@[j as int]@);
            match self.archive.read_bytes(st.resources[j].as_str()) {
                Some(b) => {
                    let e = OutputEntry { name: st.resources[j].clone(), data: EntryData::Bytes(copy_bytes(b)), stored: false };
                    let ghost rb = texts(rr@);
                    out.push(e);
                    rr.push(st.resources[j].clone());
                    assert(texts(rr@) =~= rb.push(rv[j as int]));
                },
                None => {},
            }
            j = j + 1;
        }
        assert(rv.take(j as int) =~= rv);
        let _count = out.len();
        let has_cover = cover.is_some();
        let ghost cv = bytes_opt(cover);
        let (items, spine) = build_manifest(&docs, &rr, has_cover);
        let opf = generate_content_opf(unique_id.as_str(), final_title.as_str(), authors, final_description.as_str(),
            tags, languages, &items, &spine, has_cover);
        let ncx = generate_toc_ncx(unique_id.as_str(), final_title.as_str(), &toc);
        out.push(text_entry("content.opf", opf, false));
        out.push(text_entry("toc.ncx", ncx, false));
        match cover {
            Some(b) => {
                out.push(OutputEntry { name: String::from_str("cover.jpg"), data: EntryData::Bytes(b), stored: false });
                out.push(text_entry("cover.xhtml", generate_cover_xhtml(), false));
            },
            None => {},
        }
        assert(resources_of(fs, dv, texts(rr@)));
        assert(book_layout(fs, dv, str_pairs(toc@), texts(rr@), unique_id@, final_title@, texts(authors@),
            final_description@, texts(tags@), texts(languages@), cv, out@));
        let ghost sel = selection(self.points(), section_indices@, final_title@);
        assert(sel.0 == dv && sel.1 == str_pairs(toc@));
        assert(resources_of(self.files(), sel.0, texts(rr@)) && book_layout(self.files(), sel.0, sel.1, texts(rr@),
            unique_id@, final_title@, texts(authors@), final_description@, texts(tags@), texts(languages@), cv, out@));
        Ok(out)
    }
}

} // verus!
