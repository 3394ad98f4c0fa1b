use vstd::prelude::*;
use vstd::string::StringExecFns;
use crate::epub::first_bad;
use crate::error::EpubError;
use crate::generate::ends_with_ci;
use crate::package::texts;
use crate::split::{line_view, lines_view, LineView, SplitLine};
use crate::text::chars_of;

verus! {

/// The output name, with `.epub` appended unless it already ends so (in any case).
pub open spec fn with_epub_extension(f: Seq<char>) -> Seq<char> {
    if ends_with_ci(f, ".epub"@) {
        f
    } else {
        f + ".epub"@
    }
}

/// Makes sure an output file name ends in `.epub`.
pub fn ensure_epub_extension(filename: &str) -> (r: String)
    ensures
        r@ == with_epub_extension(filename@),
{
    let cs = chars_of(filename);
    let ok = crate::generate::ends_with_ext(&cs, ".epub");
    if ok {
        String::from_str(filename)
    } else {
        let mut s = String::from_str(filename);
        s.append(".epub");
        s
    }
}

/// What the driver does for a request.
pub enum Mode {
    /// List the split points.
    List,
    /// Write one book holding the given points.
    Extract(Vec<usize>),
    /// Write one book per section of the given points.
    SplitBySection(Vec<usize>),
}

/// Decides what to do: splitting by section works on the requested points, or on
/// all `point_count` of them when none are requested; otherwise requested points are
/// extracted, and with none the points are listed.
pub fn run(requested: &Vec<usize>, split_by_section: bool, point_count: usize) -> (r: Mode)
    ensures
        split_by_section && requested@.len() == 0 ==> (r matches Mode::SplitBySection(v) && v@ == Seq::new(
            point_count as nat,
            |i: int| i as usize,
        )),
        split_by_section && requested@.len() > 0 ==> (r matches Mode::SplitBySection(v) && v@ == requested@),
        !split_by_section && requested@.len() == 0 ==> r is List,
        !split_by_section && requested@.len() > 0 ==> (r matches Mode::Extract(v) && v@ == requested@),
{
    if split_by_section {
        if requested.len() == 0 {
            let mut all: Vec<usize> = Vec::new();
            let mut i: usize = 0;
            while i < point_count
                invariant
                    i <= point_count,
                    all@ == Seq::new(i as nat, |k: int| k as usize),
                decreases point_count - i,
            {
                all.push(i);
                i = i + 1;
                assert(all@ =~= Seq::new(i as nat, |k: int| k as usize));
            }
            Mode::SplitBySection(all)
        } else {
            Mode::SplitBySection(copy_indices(requested))
        }
    } else if requested.len() == 0 {
        Mode::List
    } else {
        Mode::Extract(copy_indices(requested))
    }
}

fn copy_indices(v: &Vec<usize>) -> (r: Vec<usize>)
    ensures
        r@ == v@,
{
    let mut out: Vec<usize> = Vec::new();
    let mut i: usize = 0;
    while i < v.len()
        invariant
            i <= v@.len(),
            out@ == v@.take(i as int),
        decreases v.len() - i,
    {
        out.push(v[i]);
        i = i + 1;
        assert(out@ =~= v@.take(i as int));
    }
    assert(v@.take(i as int) =~= v@);
    out
}

/// Grouping state: the sections closed so far (points, title), the points of the
/// open section and its title.
pub type SectionState = (Seq<(Seq<usize>, Seq<char>)>, Seq<usize>, Seq<char>);

/// Groups the requested points into sections: a point with navigation labels opens a
/// new section titled by its first label (the very first point opens one in any case,
/// titled `default_title` when it has no label); a point without labels joins the
/// open section.
pub open spec fn sections_run(lines: Seq<LineView>, idx: Seq<usize>, default_title: Seq<char>) -> SectionState
    decreases idx.len(),
{
    if idx.len() == 0 {
        (seq![], seq![], default_title)
    } else {
        let (done, cur, t) = sections_run(lines, idx.drop_last(), default_title);
        let i = idx.last();
        let l = lines[i as int];
        if cur.len() > 0 && l.toc.len() == 0 {
            (done, cur.push(i), t)
        } else {
            let done2 = if cur.len() > 0 { done.push((cur, t)) } else { done };
            (done2, seq![i], if l.toc.len() > 0 { l.toc[0] } else { default_title })
        }
    }
}

/// The sections of the requested points, each with its title.
pub open spec fn sections(lines: Seq<LineView>, idx: Seq<usize>, default_title: Seq<char>) -> Seq<(Seq<usize>, Seq<char>)> {
    let (done, cur, t) = sections_run(lines, idx, default_title);
    if cur.len() > 0 {
        done.push((cur, t))
    } else {
        done
    }
}

pub open spec fn sections_view(v: Seq<(Vec<usize>, String)>) -> Seq<(Seq<usize>, Seq<char>)> {
    v.map_values(|s: (Vec<usize>, String)| (s.0@, s.1@))
}

/// Groups the requested points into sections, one split book each; every index must
/// name an existing point.
pub fn split_by_section(lines: &Vec<SplitLine>, section_indices: &Vec<usize>, default_title: &String) -> (r: Result<
    Vec<(Vec<usize>, String)>,
    EpubError,
>)
    ensures
        first_bad(section_indices@, lines@.len()) matches Some(i) ==> r == Err::<Vec<(Vec<usize>, String)>, EpubError>(
            EpubError::IndexOutOfRange { index: i, available: lines@.len() as usize },
        ),
        first_bad(section_indices@, lines@.len()) is None ==> (r matches Ok(v) && sections_view(v@) == sections(
            lines_view(lines@),
            section_indices@,
            default_title@,
        )),
{
    match crate::epub::validate_indices(section_indices, lines.len()) {
        Ok(()) => {},
        Err(e) => {
            return Err(e);
        },
    }
    let ghost lv = lines_view(lines@);
    let mut done: Vec<(Vec<usize>, String)> = Vec::new();
    let mut cur: Vec<usize> = Vec::new();
    let mut title = default_title.clone();
    let mut i: usize = 0;
    proof {
        crate::epub::lemma_first_bad_none(section_indices@, lines@.len());
    }
    assert(sections_view(done@) =~= seq![]);
    while i < section_indices.len()
        invariant
            i <= section_indices@.len(),
            lv == lines_view(lines@),
            forall|k: int| 0 <= k < section_indices@.len() ==> #[trigger] section_indices@[k] < lines@.len(),
            (sections_view(done@), cur@, title@) == sections_run(lv, section_indices@.take(i as int), default_title@),
        decreases section_indices.len() - i,
    {
        assert(section_indices@.take(i + 1).drop_last() =~= section_indices@.take(i as int));
        let idx = section_indices[i];
        assert(idx < lines@.len());
        let l = &lines[idx];
        assert(lv[idx as int] == line_view(*l));
        if cur.len() > 0 && l.toc.len() == 0 {
            cur.push(idx);
        } else {
            if cur.len() > 0 {
                let ghost db = sections_view(done@);
                let closed = (copy_indices(&cur), title.clone());
                done.push(closed);
                assert(sections_view(done@) =~= db.push((cur@, title@)));
            }
            cur = Vec::new();
            cur.push(idx);
            assert(cur@ =~= seq![idx]);
            if l.toc.len() > 0 {
                assert(texts(l.toc@)[0] == l.toc@[0]@);
                title = l.toc[0].clone();
            } else {
                title = default_title.clone();
            }
        }
        i = i + 1;
    }
    assert(section_indices@.take(i as int) =~= section_indices@);
    if cur.len() > 0 {
        let ghost db = sections_view(done@);
        done.push((cur, title));
        assert(sections_view(done@) =~= db.push((cur@, title@)));
    }
    Ok(done)
}

} // verus!
