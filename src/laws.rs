use vstd::prelude::*;
use crate::archive::ArchiveEntry;
use crate::nav::{entries_for, insert_entry, leading_whole, TocEntryView};
use crate::package::entry_with_id;
use crate::split::{first_line, item_lines, lines_of_item, spine_lines, walk, LineView};
use crate::epub::{content_id, declared_nav, load_package, plan_manifest, plan_spine, selection};
use crate::package::{guide_entries, manifest_entries, ncx_href, spine_ids};
use crate::path::dir_part;
use crate::xml::EventView;

verus! {

/// The anchors of a list of navigation entries, in order.
pub open spec fn anchors_of(es: Seq<TocEntryView>) -> Seq<Seq<char>>
    decreases es.len(),
{
    if es.len() == 0 {
        seq![]
    } else {
        match es.last().1 {
            Some(a) => anchors_of(es.drop_last()).push(a),
            None => anchors_of(es.drop_last()),
        }
    }
}

/// The anchors of the navigation entries that target `href`, in navigation order.
pub open spec fn record_anchors(recs: Seq<(Seq<char>, TocEntryView)>, href: Seq<char>) -> Seq<Seq<char>>
    decreases recs.len(),
{
    if recs.len() == 0 {
        seq![]
    } else {
        let prev = record_anchors(recs.drop_last(), href);
        if recs.last().0 == href {
            match recs.last().1.1 {
                Some(a) => prev.push(a),
                None => prev,
            }
        } else {
            prev
        }
    }
}

proof fn lemma_insert_whole_keeps_anchors(list: Seq<TocEntryView>, k: int, e: TocEntryView)
    requires
        0 <= k <= list.len(),
        e.1 is None,
    ensures
        anchors_of(list.insert(k, e)) == anchors_of(list),
    decreases list.len(),
{
    if k == list.len() {
        assert(list.insert(k, e) =~= list.push(e));
        assert(list.push(e).drop_last() =~= list);
    } else {
        let l2 = list.insert(k, e);
        assert(l2.drop_last() =~= list.drop_last().insert(k, e));
        assert(l2.last() == list.last());
        lemma_insert_whole_keeps_anchors(list.drop_last(), k, e);
    }
}

proof fn lemma_entries_anchors(recs: Seq<(Seq<char>, TocEntryView)>, href: Seq<char>)
    ensures
        anchors_of(entries_for(recs, href)) == record_anchors(recs, href),
    decreases recs.len(),
{
    if recs.len() > 0 {
        lemma_entries_anchors(recs.drop_last(), href);
        let prev = entries_for(recs.drop_last(), href);
        let e = recs.last().1;
        if recs.last().0 == href {
            if e.1 is None {
                crate::nav::lemma_leading_whole_bound(prev);
                lemma_insert_whole_keeps_anchors(prev, leading_whole(prev) as int, e);
            } else {
                assert(insert_entry(prev, e) == prev.push(e));
                assert(prev.push(e).drop_last() =~= prev);
            }
        }
    }
}

proof fn lemma_walk_anchors(start: LineView, es: Seq<TocEntryView>, content: Seq<char>)
    ensures
        walk(start, es, content).0.len() == anchors_of(es).len(),
        item_lines(start, es, content)[0].anchor == start.anchor,
        forall|k: int| 0 <= k < anchors_of(es).len() ==>
            (#[trigger] item_lines(start, es, content)[k + 1]).anchor == Some(anchors_of(es)[k]),
    decreases es.len(),
{
    if es.len() > 0 {
        let pre = es.drop_last();
        lemma_walk_anchors(start, pre, content);
        let (d, c) = walk(start, pre, content);
        let old_lines = d.push(c);
        let e = es.last();
        let lines = item_lines(start, es, content);
        match e.1 {
            None => {
                assert forall|k: int| 0 <= k < anchors_of(es).len() implies (
                #[trigger] lines[k + 1]).anchor == Some(anchors_of(es)[k]) by {
                    assert(old_lines[k + 1].anchor == Some(anchors_of(pre)[k]));
                }
            },
            Some(a) => {
                assert forall|k: int| 0 <= k < anchors_of(es).len() implies (
                #[trigger] lines[k + 1]).anchor == Some(anchors_of(es)[k]) by {
                    if k < anchors_of(pre).len() {
                        assert(old_lines[k + 1].anchor == Some(anchors_of(pre)[k]));
                        assert(lines[k + 1] == old_lines[k + 1]);
                    }
                }
            },
        }
    }
}

/// Every navigation entry with an anchor becomes a split point of its document:
/// the document's first point has no anchor, and its following points carry the
/// anchors of the entries that target it, one each, in navigation order.
pub proof fn lemma_anchored_entries_become_points(
    item: (Seq<char>, Seq<char>, Seq<char>),
    guide: Seq<(Seq<char>, Seq<char>, Seq<char>)>,
    recs: Seq<(Seq<char>, TocEntryView)>,
    files: Seq<ArchiveEntry>,
)
    ensures
        ({
            let lines = lines_of_item(item, guide, recs, files);
            let anchors = record_anchors(recs, item.1);
            &&& lines.len() == anchors.len() + 1
            &&& lines[0].anchor is None
            &&& forall|k: int| 0 <= k < anchors.len() ==> (#[trigger] lines[k + 1]).anchor == Some(anchors[k])
        }),
{
    let c = crate::split::content_of(files, item.1);
    let es = entries_for(recs, item.1);
    lemma_entries_anchors(recs, item.1);
    lemma_walk_anchors(first_line(item, guide, c), es, c);
}

/// A book without navigation entries has exactly one split point per spine item,
/// none of them with an anchor.
pub proof fn lemma_no_navigation_one_point_per_item(
    ids: Seq<Seq<char>>,
    m: Seq<(Seq<char>, Seq<char>, Seq<char>)>,
    guide: Seq<(Seq<char>, Seq<char>, Seq<char>)>,
    files: Seq<ArchiveEntry>,
)
    requires
        forall|i: int| 0 <= i < ids.len() ==> (#[trigger] entry_with_id(m, ids[i])) is Some,
    ensures
        spine_lines(ids, m, guide, seq![], files) matches Some(lines) && lines.len() == ids.len()
            && forall|k: int| 0 <= k < lines.len() ==> (#[trigger] lines[k]).anchor is None,
    decreases ids.len(),
{
    if ids.len() > 0 {
        let pre = ids.drop_last();
        assert forall|i: int| 0 <= i < pre.len() implies (#[trigger] entry_with_id(m, pre[i])) is Some by {
            assert(pre[i] == ids[i]);
        }
        lemma_no_navigation_one_point_per_item(pre, m, guide, files);
        assert(entry_with_id(m, ids[ids.len() - 1]) is Some);
        let item = entry_with_id(m, ids.last())->0;
        let no_recs: Seq<(Seq<char>, TocEntryView)> = seq![];
        assert(entries_for(no_recs, item.1) =~= seq![]);
        let prev = spine_lines(pre, m, guide, no_recs, files)->0;
        let add = lines_of_item(item, guide, no_recs, files);
        assert(add.len() == 1);
        let all = prev + add;
        assert forall|k: int| 0 <= k < all.len() implies (#[trigger] all[k]).anchor is None by {
            if k < prev.len() {
                assert(all[k] == prev[k]);
            } else {
                assert(all[k] == add[0]);
            }
        }
    }
}

/// A book written from one split point stages exactly that point's document: its
/// manifest lists the navigation file, the document, then the resources of the
/// document's closure (`rr`) and nothing else, and its spine holds the document alone.
pub proof fn lemma_single_point_manifest(lines: Seq<LineView>, i: usize, title: Seq<char>, rr: Seq<Seq<char>>)
    requires
        i < lines.len(),
    ensures
        selection(lines, seq![i], title).0 == seq![(lines[i as int].href, lines[i as int].media_type)],
        plan_manifest(selection(lines, seq![i], title).0, rr, false).map_values(
            |t: (Seq<char>, Seq<char>, Seq<char>)| t.1,
        ) == seq!["toc.ncx"@, lines[i as int].href] + rr,
        plan_spine(1, false) == seq![content_id(0)],
{
    let one = seq![i];
    assert(one.drop_last() =~= Seq::<usize>::empty());
    let empty_docs: Seq<(Seq<char>, Seq<char>)> = seq![];
    assert(!empty_docs.map_values(|d: (Seq<char>, Seq<char>)| d.0).contains(lines[i as int].href));
    assert(one.last() == i);
    assert(selection(lines, one.drop_last(), title) == (empty_docs, empty_docs));
    let docs = selection(lines, one, title).0;
    assert(docs =~= seq![(lines[i as int].href, lines[i as int].media_type)]);
    let m = plan_manifest(docs, rr, false);
    assert(m.map_values(|t: (Seq<char>, Seq<char>, Seq<char>)| t.1) =~= seq!["toc.ncx"@, lines[i as int].href] + rr);
    assert(plan_spine(1, false) =~= seq![content_id(0)]);
}

/// A loaded book whose package declares no navigation document has exactly one split
/// point per spine item, none of them with an anchor.
pub proof fn lemma_loaded_without_navigation(fs: Seq<ArchiveEntry>, opf_path: Seq<char>, ev: Seq<EventView>)
    requires
        load_package(fs, opf_path, ev) is Some,
        ncx_href(manifest_entries(ev, dir_part(opf_path))) is None,
    ensures
        load_package(fs, opf_path, ev)->0.points.len() == spine_ids(ev).len(),
        forall|k: int| 0 <= k < load_package(fs, opf_path, ev)->0.points.len()
            ==> (#[trigger] load_package(fs, opf_path, ev)->0.points[k]).anchor is None,
{
    let dir = dir_part(opf_path);
    let m = manifest_entries(ev, dir);
    let g = guide_entries(ev, dir);
    let no_recs: Seq<(Seq<char>, TocEntryView)> = seq![];
    assert(declared_nav(fs, m) == Some(no_recs));
    crate::split::lemma_spine_lines_resolved(spine_ids(ev), m, g, no_recs, fs);
    lemma_no_navigation_one_point_per_item(spine_ids(ev), m, g, fs);
}

/// Whether `block` stands in `pts` from position `o` on.
pub open spec fn block_at(pts: Seq<LineView>, block: Seq<LineView>, o: int) -> bool {
    0 <= o && o + block.len() <= pts.len() && forall|t: int| 0 <= t < block.len() ==> #[trigger] pts[o + t] == block[t]
}

proof fn lemma_item_block(
    ids: Seq<Seq<char>>,
    m: Seq<(Seq<char>, Seq<char>, Seq<char>)>,
    guide: Seq<(Seq<char>, Seq<char>, Seq<char>)>,
    recs: Seq<(Seq<char>, TocEntryView)>,
    files: Seq<ArchiveEntry>,
    k: int,
)
    requires
        spine_lines(ids, m, guide, recs, files) is Some,
        0 <= k < ids.len(),
    ensures
        entry_with_id(m, ids[k]) is Some,
        ({
            let pts = spine_lines(ids, m, guide, recs, files)->0;
            let block = lines_of_item(entry_with_id(m, ids[k])->0, guide, recs, files);
            exists|o: int| #[trigger] block_at(pts, block, o)
        }),
    decreases ids.len(),
{
    let pre = ids.drop_last();
    let prev = spine_lines(pre, m, guide, recs, files)->0;
    let pts = spine_lines(ids, m, guide, recs, files)->0;
    let block = lines_of_item(entry_with_id(m, ids[k])->0, guide, recs, files);
    if k == ids.len() - 1 {
        let o = prev.len() as int;
        assert forall|t: int| 0 <= t < block.len() implies #[trigger] pts[o + t] == block[t] by {}
        assert(block_at(pts, block, o));
    } else {
        assert(ids[k] == pre[k]);
        lemma_item_block(pre, m, guide, recs, files, k);
        let o = choose|o: int| #[trigger] block_at(prev, block, o);
        assert forall|t: int| 0 <= t < block.len() implies #[trigger] pts[o + t] == block[t] by {
            assert(prev[o + t] == block[t]);
        }
        assert(block_at(pts, block, o));
    }
}

/// In a book's whole split-point sequence, each spine item's points stand together:
/// first its own point without anchor, then one point for each anchored navigation
/// entry that targets its document, in navigation order.
pub proof fn lemma_anchored_entries_in_sequence(
    ids: Seq<Seq<char>>,
    m: Seq<(Seq<char>, Seq<char>, Seq<char>)>,
    guide: Seq<(Seq<char>, Seq<char>, Seq<char>)>,
    recs: Seq<(Seq<char>, TocEntryView)>,
    files: Seq<ArchiveEntry>,
    k: int,
)
    requires
        spine_lines(ids, m, guide, recs, files) is Some,
        0 <= k < ids.len(),
    ensures
        entry_with_id(m, ids[k]) is Some,
        ({
            let pts = spine_lines(ids, m, guide, recs, files)->0;
            let anchors = record_anchors(recs, (entry_with_id(m, ids[k])->0).1);
            exists|o: int| 0 <= o && o + anchors.len() + 1 <= pts.len() && (#[trigger] pts[o]).anchor is None
                && forall|q: int| 0 <= q < anchors.len() ==> (#[trigger] pts[o + q + 1]).anchor == Some(anchors[q])
        }),
{
    lemma_item_block(ids, m, guide, recs, files, k);
    let item = entry_with_id(m, ids[k])->0;
    lemma_anchored_entries_become_points(item, guide, recs, files);
    let pts = spine_lines(ids, m, guide, recs, files)->0;
    let block = lines_of_item(item, guide, recs, files);
    let anchors = record_anchors(recs, item.1);
    let o = choose|o: int| #[trigger] block_at(pts, block, o);
    assert(pts[o + 0] == block[0]);
    assert(o + 0 == o);
    assert forall|q: int| 0 <= q < anchors.len() implies (#[trigger] pts[o + q + 1]).anchor == Some(anchors[q]) by {
        assert(pts[o + (q + 1)] == block[q + 1]);
        assert(o + (q + 1) == o + q + 1);
    }
}

} // verus!
