use vstd::prelude::*;
use vstd::string::StringExecFns;
use crate::archive::{text_in, Archive, ArchiveEntry};
use crate::package::{resolved, texts};
use crate::path::{dir_part, get_path_part, normalize_path};
use crate::text::chars_of;
use crate::xml::same_text;

verus! {

/// The first capture group of every match of `pattern` in `text`, left to right
/// (matches in which that group takes no part are skipped).
pub uninterp spec fn regex_groups(pattern: Seq<char>, text: Seq<char>) -> Seq<Seq<char>>;

/// `text` with every match of `pattern` removed.
pub uninterp spec fn regex_removed(pattern: Seq<char>, text: Seq<char>) -> Seq<char>;

/// Relies on `regex::Regex::new` and `Regex::captures_iter`: the text of capture
/// group 1 of each match, in order; none when the pattern does not compile, which
/// `Regex::new` documents only for invalid patterns and ones over its size limit (the
/// fixed patterns of this crate are neither).
#[verifier::external_body]
fn capture_groups(pattern: &str, text: &str) -> (r: Option<Vec<String>>)
    ensures
        r matches Some(v) ==> texts(v@) == regex_groups(pattern@, text@),
        fixed_pattern(pattern@) ==> r is Some,
{
    let re = regex::Regex::new(pattern).ok()?;
    Some(re.captures_iter(text).filter_map(|c| c.get(1)).map(|m| m.as_str().to_string()).collect())
}

/// Relies on `regex::Regex::new` and `Regex::replace_all` with an empty replacement;
/// none when the pattern does not compile (see `capture_groups`).
#[verifier::external_body]
fn remove_matches(pattern: &str, text: &str) -> (r: Option<String>)
    ensures
        r matches Some(v) ==> v@ == regex_removed(pattern@, text@),
        fixed_pattern(pattern@) ==> r is Some,
{
    let re = regex::Regex::new(pattern).ok()?;
    Some(re.replace_all(text, "").into_owned())
}

pub open spec fn image_pattern() -> Seq<char> {
    "(?:src|xlink:href)=[\"']([^\"']+)[\"']"@
}

pub open spec fn link_pattern() -> Seq<char> {
    "<link[^>]+href=[\"']([^\"']+\\.css)[\"'][^>]*>"@
}

pub open spec fn comment_pattern() -> Seq<char> {
    "(?s)/\\*.*?\\*/"@
}

pub open spec fn import_pattern() -> Seq<char> {
    "@import\\s+(?:url\\()?[\"']?([^\"'\\)]+)[\"']?\\)?"@
}

pub open spec fn url_pattern() -> Seq<char> {
    "url\\([\"']?([^\"'\\)]+)[\"']?\\)"@
}

/// The search patterns this crate uses: valid and small.
pub open spec fn fixed_pattern(p: Seq<char>) -> bool {
    p == image_pattern() || p == link_pattern() || p == comment_pattern() || p == import_pattern() || p == url_pattern()
}

/// Whether `s` starts with `p`.
pub open spec fn starts_with(s: Seq<char>, p: Seq<char>) -> bool {
    s.len() >= p.len() && s.take(p.len() as int) == p
}

/// An absolute web address, which is never an archive entry.
pub open spec fn is_remote(u: Seq<char>) -> bool {
    starts_with(u, "http://"@) || starts_with(u, "https://"@)
}

/// Whether a content document (with directory `base`) references `p` through an
/// image-like attribute or a stylesheet link.
pub open spec fn html_ref(content: Seq<char>, base: Seq<char>, p: Seq<char>) -> bool {
    (exists|i: int| 0 <= i < regex_groups(image_pattern(), content).len()
        && !is_remote(regex_groups(image_pattern(), content)[i])
        && p == #[trigger] resolved(base, regex_groups(image_pattern(), content)[i]))
    || html_link(content, base, p)
}

/// Whether a content document links the stylesheet `p`.
pub open spec fn html_link(content: Seq<char>, base: Seq<char>, p: Seq<char>) -> bool {
    exists|i: int| 0 <= i < regex_groups(link_pattern(), content).len()
        && p == #[trigger] resolved(base, regex_groups(link_pattern(), content)[i])
}

/// Whether `p` is one of the groups `gs` resolved against `dir` (when `skip_data`,
/// groups that are inline `data:` addresses excepted).
pub open spec fn group_ref(dir: Seq<char>, gs: Seq<Seq<char>>, skip_data: bool, p: Seq<char>) -> bool {
    exists|m: int| 0 <= m < gs.len() && (!skip_data || !starts_with(gs[m], "data:"@))
        && p == #[trigger] resolved(dir, gs[m])
}

/// The `@import` targets of a stylesheet's text, comments removed.
pub open spec fn import_groups(t: Seq<char>) -> Seq<Seq<char>> {
    regex_groups(import_pattern(), regex_removed(comment_pattern(), t))
}

/// The `url(...)` targets of a stylesheet's text, comments removed.
pub open spec fn url_groups(t: Seq<char>) -> Seq<Seq<char>> {
    regex_groups(url_pattern(), regex_removed(comment_pattern(), t))
}

/// Whether the stylesheet at `s` (whose text is `t`) imports `p`.
pub open spec fn css_import(s: Seq<char>, t: Seq<char>, p: Seq<char>) -> bool {
    group_ref(dir_part(s), import_groups(t), false, p)
}

/// Whether the stylesheet at `s` (whose text is `t`) imports `p` or refers to it
/// through `url(...)` (inline `data:` addresses excepted).
pub open spec fn css_ref(s: Seq<char>, t: Seq<char>, p: Seq<char>) -> bool {
    css_import(s, t, p) || group_ref(dir_part(s), url_groups(t), true, p)
}

/// What a content document depends on: every file, and the stylesheets among them
/// that were read and scanned.
pub struct Resources {
    pub files: Vec<String>,
    pub sheets: Vec<String>,
}

pub open spec fn readable(fs: Seq<ArchiveEntry>, p: Seq<char>) -> bool {
    text_in(fs, p) is Some
}

/// The closure that `scan_for_linked_files` computes for a content document with text
/// `content` at `href`, over the archive files `fs`.
pub open spec fn is_closure(fs: Seq<ArchiveEntry>, content: Seq<char>, href: Seq<char>, files: Seq<Seq<char>>, sheets: Seq<Seq<char>>) -> bool {
    let base = dir_part(href);
    &&& files.no_duplicates()
    &&& sheets.no_duplicates()
    // every direct reference is there, and every readable linked stylesheet is scanned
    &&& forall|p: Seq<char>| #[trigger] html_ref(content, base, p) ==> files.contains(p)
    &&& forall|p: Seq<char>| #[trigger] html_link(content, base, p) && readable(fs, p) ==> sheets.contains(p)
    // each scanned stylesheet is readable, listed, and all it refers to is there
    &&& forall|j: int| 0 <= j < sheets.len() ==> readable(fs, #[trigger] sheets[j]) && files.contains(sheets[j])
    &&& forall|j: int, p: Seq<char>| 0 <= j < sheets.len() && #[trigger] css_ref(sheets[j], text_in(fs, sheets[j])->0, p) ==> files.contains(p)
    &&& forall|j: int, p: Seq<char>| 0 <= j < sheets.len() && #[trigger] css_import(sheets[j], text_in(fs, sheets[j])->0, p)
            && readable(fs, p) ==> sheets.contains(p)
    // nothing else is there: each stylesheet is linked or imported by an earlier one,
    // and each file is referenced by the document or by a scanned stylesheet
    &&& forall|k: int| 0 <= k < files.len() ==> html_ref(content, base, #[trigger] files[k]) || exists|j: int|
            0 <= j < sheets.len() && #[trigger] css_ref(sheets[j], text_in(fs, sheets[j])->0, files[k])
    &&& forall|k: int| 0 <= k < sheets.len() ==> html_link(content, base, #[trigger] sheets[k]) || exists|j: int|
            0 <= j < k && #[trigger] css_import(sheets[j], text_in(fs, sheets[j])->0, sheets[k])
}

/// Whether `s` starts with `p`.
pub fn text_starts_with(s: &str, p: &str) -> (r: bool)
    ensures
        r == starts_with(s@, p@),
{
    let a = chars_of(s);
    let b = chars_of(p);
    if a.len() < b.len() {
        return false;
    }
    let mut i: usize = 0;
    while i < b.len()
        invariant
            i <= b@.len() <= a@.len(),
            a@ == s@,
            b@ == p@,
            a@.take(i as int) == b@.take(i as int),
        decreases b.len() - i,
    {
        if a[i] != b[i] {
            assert(a@.take(b@.len() as int)[i as int] != b@[i as int]);
            return false;
        }
        assert(a@.take(i + 1) =~= a@.take(i as int).push(a@[i as int]));
        assert(b@.take(i + 1) =~= b@.take(i as int).push(b@[i as int]));
        i = i + 1;
    }
    assert(b@.take(i as int) =~= b@);
    true
}

fn find_text(v: &Vec<String>, s: &String) -> (r: bool)
    ensures
        r == texts(v@).contains(s@),
{
    crate::package::contains_text(v, s)
}

fn push_new(v: &mut Vec<String>, s: String)
    requires
        texts(old(v)@).no_duplicates(),
        !texts(old(v)@).contains(s@),
    ensures
        texts(final(v)@) == texts(old(v)@).push(s@),
        texts(final(v)@).no_duplicates(),
{
    let ghost before = texts(v@);
    v.push(s);
    assert(texts(v@) =~= before.push(s@));
}

fn resolve_ref(base: &String, raw: &String) -> (r: String)
    ensures
        r@ == resolved(base@, raw@),
{
    let mut s = base.clone();
    s.append(raw.as_str());
    normalize_path(s.as_str())
}

fn add_unique(v: &mut Vec<String>, s: String)
    requires
        texts(old(v)@).no_duplicates(),
    ensures
        texts(final(v)@).no_duplicates(),
        texts(final(v)@).contains(s@),
        texts(final(v)@) == texts(old(v)@) || texts(final(v)@) == texts(old(v)@).push(s@),
        !texts(old(v)@).contains(s@) ==> texts(final(v)@) == texts(old(v)@).push(s@),
        forall|q: Seq<char>| texts(old(v)@).contains(q) ==> #[trigger] texts(final(v)@).contains(q),
{
    if !find_text(v, &s) {
        let ghost before = texts(v@);
        push_new(v, s);
        assert(texts(v@)[before.len() as int] == s@);
        assert forall|q: Seq<char>| before.contains(q) implies #[trigger] texts(v@).contains(q) by {
            let k = choose|k: int| 0 <= k < before.len() && before[k] == q;
            assert(texts(v@)[k] == q);
        }
    }
}

proof fn lemma_readable_named(fs: Seq<ArchiveEntry>, p: Seq<char>)
    requires
        readable(fs, p),
    ensures
        fs.map_values(|e: ArchiveEntry| e.name@).contains(p),
    decreases fs.len(),
{
    if fs[0].name@ == p {
        assert(fs.map_values(|e: ArchiveEntry| e.name@)[0] == p);
    } else {
        lemma_readable_named(fs.drop_first(), p);
        let rest = fs.drop_first().map_values(|e: ArchiveEntry| e.name@);
        let k = choose|k: int| 0 <= k < rest.len() && #[trigger] rest[k] == p;
        assert(fs.map_values(|e: ArchiveEntry| e.name@)[k + 1] == p);
    }
}

proof fn lemma_sheets_bound(sheets: Seq<Seq<char>>, fs: Seq<ArchiveEntry>)
    requires
        sheets.no_duplicates(),
        forall|j: int| 0 <= j < sheets.len() ==> readable(fs, #[trigger] sheets[j]),
    ensures
        sheets.len() <= fs.len(),
{
    let names = fs.map_values(|e: ArchiveEntry| e.name@);
    assert forall|x: Seq<char>| sheets.to_set().contains(x) implies names.to_set().contains(x) by {
        let j = choose|j: int| 0 <= j < sheets.len() && sheets[j] == x;
        lemma_readable_named(fs, sheets[j]);
    }
    sheets.unique_seq_to_set();
    names.lemma_cardinality_of_set();
    vstd::set_lib::lemma_len_subset(sheets.to_set(), names.to_set());
}

fn groups_of(pattern: &str, text: &str) -> (r: Vec<String>)
    requires
        fixed_pattern(pattern@),
    ensures
        texts(r@) == regex_groups(pattern@, text@),
{
    match capture_groups(pattern, text) {
        Some(v) => v,
        None => Vec::new(),
    }
}

fn strip_comments(text: &str) -> (r: String)
    ensures
        r@ == regex_removed(comment_pattern(), text@),
{
    proof {
        reveal_strlit("(?s)/\\*.*?\\*/");
    }
    match remove_matches("(?s)/\\*.*?\\*/", text) {
        Some(x) => x,
        None => String::new(),
    }
}

/// Everything that a content document at `href` with text `content` depends on:
/// the targets of its `src=`/`xlink:href=` attributes (web addresses excepted), the
/// stylesheets it links, and, for every stylesheet that can be read, what it imports
/// or names in `url(...)` (comments and `data:` addresses excepted), imported
/// stylesheets being scanned in turn, each once.
pub fn scan_for_linked_files(content: &String, href: &String, archive: &Archive) -> (r: Resources)
    ensures
        is_closure(archive.entries@, content@, href@, texts(r.files@), texts(r.sheets@)),
{
    let ghost fs = archive.entries@;
    let ghost c = content@;
    let base = get_path_part(href.as_str());
    let ghost b = base@;
    proof {
        reveal_strlit("(?:src|xlink:href)=[\"']([^\"']+)[\"']");
        reveal_strlit("<link[^>]+href=[\"']([^\"']+\\.css)[\"'][^>]*>");
    }
    let imgs = groups_of("(?:src|xlink:href)=[\"']([^\"']+)[\"']", content.as_str());
    let links = groups_of("<link[^>]+href=[\"']([^\"']+\\.css)[\"'][^>]*>", content.as_str());
    let ghost ig = regex_groups(image_pattern(), c);
    let ghost lg = regex_groups(link_pattern(), c);
    assert(texts(imgs@) == ig);
    assert(texts(links@) == lg);
    let mut files: Vec<String> = Vec::new();
    let mut sheets: Vec<String> = Vec::new();
    assert(texts(files@) =~= seq![]);
    assert(texts(sheets@) =~= seq![]);
    let mut i: usize = 0;
    while i < imgs.len()
        invariant
            i <= imgs@.len(),
            texts(imgs@) == ig,
            ig == regex_groups(image_pattern(), c),
            b == dir_part(href@),
            base@ == b,
            texts(files@).no_duplicates(),
            texts(sheets@) == Seq::<Seq<char>>::empty(),
            forall|k: int| 0 <= k < i && !is_remote(ig[k]) ==> texts(files@).contains(#[trigger] resolved(b, ig[k])),
            forall|k: int| 0 <= k < texts(files@).len() ==> html_ref(c, b, #[trigger] texts(files@)[k]),
        decreases imgs.len() - i,
    {
        if !text_starts_with(imgs[i].as_str(), "http://") && !text_starts_with(imgs[i].as_str(), "https://") {
            proof { reveal_strlit("http://"); reveal_strlit("https://"); }
            let p = resolve_ref(&base, &imgs[i]);
            assert(ig[i as int] == imgs@[i as int]@);
            assert(p@ == resolved(b, ig[i as int]));
            assert(html_ref(c, b, p@));
            add_unique(&mut files, p);
        } else {
            proof { reveal_strlit("http://"); reveal_strlit("https://"); }
        }
        assert(ig[i as int] == imgs@[i as int]@);
        i = i + 1;
    }
    let mut i: usize = 0;
    while i < links.len()
        invariant
            i <= links@.len(),
            texts(imgs@) == ig,
            texts(links@) == lg,
            ig == regex_groups(image_pattern(), c),
            lg == regex_groups(link_pattern(), c),
            b == dir_part(href@),
            base@ == b,
            fs == archive.entries@,
            texts(files@).no_duplicates(),
            texts(sheets@).no_duplicates(),
            forall|k: int| 0 <= k < ig.len() && !is_remote(ig[k]) ==> texts(files@).contains(#[trigger] resolved(b, ig[k])),
            forall|k: int| 0 <= k < i ==> texts(files@).contains(#[trigger] resolved(b, lg[k])),
            forall|k: int| 0 <= k < i && readable(fs, resolved(b, lg[k])) ==> texts(sheets@).contains(#[trigger] resolved(b, lg[k])),
            forall|k: int| 0 <= k < texts(files@).len() ==> html_ref(c, b, #[trigger] texts(files@)[k]),
            forall|k: int| 0 <= k < texts(sheets@).len() ==> readable(fs, #[trigger] texts(sheets@)[k])
                && texts(files@).contains(texts(sheets@)[k]) && html_link(c, b, texts(sheets@)[k]),
        decreases links.len() - i,
    {
        let p = resolve_ref(&base, &links[i]);
        assert(lg[i as int] == links@[i as int]@);
        assert(p@ == resolved(b, lg[i as int]));
        assert(html_link(c, b, p@));
        let q = p.clone();
        add_unique(&mut files, p);
        if archive.read_text(q.as_str()).is_some() {
            add_unique(&mut sheets, q);
        }
        i = i + 1;
    }
    let mut qi: usize = 0;
    proof {
        lemma_sheets_bound(texts(sheets@), fs);
    }
    while qi < sheets.len()
        invariant
            qi <= sheets@.len() <= fs.len(),
            fs == archive.entries@,
            b == dir_part(href@),
            texts(files@).no_duplicates(),
            texts(sheets@).no_duplicates(),
            forall|p: Seq<char>| #[trigger] html_ref(c, b, p) ==> texts(files@).contains(p),
            forall|p: Seq<char>| #[trigger] html_link(c, b, p) && readable(fs, p) ==> texts(sheets@).contains(p),
            forall|j: int| 0 <= j < texts(sheets@).len() ==> readable(fs, #[trigger] texts(sheets@)[j])
                && texts(files@).contains(texts(sheets@)[j]),
            forall|j: int, p: Seq<char>| 0 <= j < qi && #[trigger] css_ref(texts(sheets@)[j], text_in(fs, texts(sheets@)[j])->0, p)
                ==> texts(files@).contains(p),
            forall|j: int, p: Seq<char>| 0 <= j < qi && #[trigger] css_import(texts(sheets@)[j], text_in(fs, texts(sheets@)[j])->0, p)
                && readable(fs, p) ==> texts(sheets@).contains(p),
            forall|k: int| 0 <= k < texts(files@).len() ==> html_ref(c, b, #[trigger] texts(files@)[k]) || exists|j: int|
                0 <= j < texts(sheets@).len() && #[trigger] css_ref(texts(sheets@)[j], text_in(fs, texts(sheets@)[j])->0, texts(files@)[k]),
            forall|k: int| 0 <= k < texts(sheets@).len() ==> html_link(c, b, #[trigger] texts(sheets@)[k]) || exists|j: int|
                0 <= j < k && #[trigger] css_import(texts(sheets@)[j], text_in(fs, texts(sheets@)[j])->0, texts(sheets@)[k]),
        decreases fs.len() - qi,
    {
        let ghost sv = texts(sheets@)[qi as int];
        let s_path = sheets[qi].clone();
        assert(s_path@ == sv);
        let t = match archive.read_text(s_path.as_str()) {
            Some(t) => t.clone(),
            None => String::new(),
        };
        let ghost tv = text_in(fs, sv)->0;
        assert(t@ == tv);
        let sdir = get_path_part(s_path.as_str());
        let clean = strip_comments(t.as_str());
        proof {
            reveal_strlit("@import\\s+(?:url\\()?[\"']?([^\"'\\)]+)[\"']?\\)?");
            reveal_strlit("url\\([\"']?([^\"'\\)]+)[\"']?\\)");
        }
        let imports = groups_of("@import\\s+(?:url\\()?[\"']?([^\"'\\)]+)[\"']?\\)?", clean.as_str());
        let urls = groups_of("url\\([\"']?([^\"'\\)]+)[\"']?\\)", clean.as_str());
        assert(texts(imports@) == import_groups(tv));
        assert(texts(urls@) == url_groups(tv));
        let ghost f0 = texts(files@);
        let ghost s0 = texts(sheets@);
        add_refs(&mut files, &mut sheets, &sdir, &imports, true, false, archive);
        let ghost f1 = texts(files@);
        let ghost s1 = texts(sheets@);
        add_refs(&mut files, &mut sheets, &sdir, &urls, false, true, archive);
        proof {
            let f2 = texts(files@);
            let s2 = texts(sheets@);
            assert(s2 == s1);
            assert forall|k: int| 0 <= k < s0.len() implies s2[k] == #[trigger] s0[k] by {
                assert(s1[k] == s0[k]);
            }
            assert forall|q: Seq<char>| f0.contains(q) implies #[trigger] f2.contains(q) by {
                assert(f1.contains(q));
            }
            assert forall|q: Seq<char>| s0.contains(q) implies #[trigger] s2.contains(q) by {
                let k = choose|k: int| 0 <= k < s0.len() && s0[k] == q;
                assert(s2[k] == q);
            }
            assert(sv == s2[qi as int]);
            assert forall|j: int, p: Seq<char>| 0 <= j < qi + 1 && #[trigger] css_ref(s2[j], text_in(fs, s2[j])->0, p)
                implies f2.contains(p) by {
                assert(s2[j] == s0[j]);
                if j < qi {
                    assert(f0.contains(p));
                } else {
                    if css_import(sv, tv, p) {
                        assert(group_ref(sdir@, texts(imports@), false, p));
                        assert(f1.contains(p));
                    } else {
                        assert(group_ref(sdir@, texts(urls@), true, p));
                    }
                }
            }
            assert forall|j: int, p: Seq<char>| 0 <= j < qi + 1 && #[trigger] css_import(s2[j], text_in(fs, s2[j])->0, p)
                && readable(fs, p) implies s2.contains(p) by {
                assert(s2[j] == s0[j]);
                if j < qi {
                    assert(s0.contains(p));
                } else {
                    assert(group_ref(sdir@, texts(imports@), false, p));
                }
            }
            assert forall|k: int| 0 <= k < f2.len() implies html_ref(c, b, #[trigger] f2[k]) || exists|j: int|
                0 <= j < s2.len() && #[trigger] css_ref(s2[j], text_in(fs, s2[j])->0, f2[k]) by {
                let q = f2[k];
                if f1.contains(q) {
                    let k1 = choose|k1: int| 0 <= k1 < f1.len() && f1[k1] == q;
                    if f0.contains(q) {
                        let k0 = choose|k0: int| 0 <= k0 < f0.len() && f0[k0] == q;
                        if !html_ref(c, b, f0[k0]) {
                            let j = choose|j: int| 0 <= j < s0.len() && #[trigger] css_ref(s0[j], text_in(fs, s0[j])->0, f0[k0]);
                            assert(s2[j] == s0[j]);
                            assert(css_ref(s2[j], text_in(fs, s2[j])->0, q));
                        }
                    } else {
                        assert(group_ref(sdir@, texts(imports@), false, f1[k1]));
                        assert(css_ref(s2[qi as int], text_in(fs, s2[qi as int])->0, q));
                    }
                } else {
                    assert(group_ref(sdir@, texts(urls@), true, q));
                    assert(css_ref(s2[qi as int], text_in(fs, s2[qi as int])->0, q));
                }
            }
            assert forall|k: int| 0 <= k < s2.len() implies html_link(c, b, #[trigger] s2[k]) || exists|j: int|
                0 <= j < k && #[trigger] css_import(s2[j], text_in(fs, s2[j])->0, s2[k]) by {
                let q = s2[k];
                if k < s0.len() {
                    assert(s2[k] == s0[k]);
                    if !html_link(c, b, s0[k]) {
                        let j = choose|j: int| 0 <= j < k && #[trigger] css_import(s0[j], text_in(fs, s0[j])->0, s0[k]);
                        assert(s2[j] == s0[j]);
                        assert(css_import(s2[j], text_in(fs, s2[j])->0, q));
                    }
                } else {
                    assert(!s0.contains(q)) by {
                        if s0.contains(q) {
                            let k0 = choose|k0: int| 0 <= k0 < s0.len() && s0[k0] == q;
                            assert(s2[k0] == s0[k0]);
                        }
                    }
                    assert(group_ref(sdir@, texts(imports@), false, q));
                    assert(css_import(s2[qi as int], text_in(fs, s2[qi as int])->0, q));
                }
            }
        }
        qi = qi + 1;
    }
    Resources { files, sheets }
}

/// Adds the targets of `gs`, resolved against `dir`, to `files`; with `as_sheets`,
/// those that can be read are added to `sheets` too.
fn add_refs(
    files: &mut Vec<String>,
    sheets: &mut Vec<String>,
    dir: &String,
    gs: &Vec<String>,
    as_sheets: bool,
    skip_data: bool,
    archive: &Archive,
)
    requires
        texts(old(files)@).no_duplicates(),
        texts(old(sheets)@).no_duplicates(),
        forall|k: int| 0 <= k < texts(old(sheets)@).len() ==> readable(archive.entries@, #[trigger] texts(old(sheets)@)[k])
            && texts(old(files)@).contains(texts(old(sheets)@)[k]),
    ensures
        texts(final(files)@).no_duplicates(),
        texts(final(sheets)@).no_duplicates(),
        forall|k: int| 0 <= k < texts(final(sheets)@).len() ==> readable(archive.entries@, #[trigger] texts(final(sheets)@)[k])
            && texts(final(files)@).contains(texts(final(sheets)@)[k]),
        texts(final(sheets)@).len() <= archive.entries@.len(),
        forall|q: Seq<char>| texts(old(files)@).contains(q) ==> #[trigger] texts(final(files)@).contains(q),
        texts(old(sheets)@).len() <= texts(final(sheets)@).len(),
        forall|k: int| 0 <= k < texts(old(sheets)@).len() ==> texts(final(sheets)@)[k] == #[trigger] texts(old(sheets)@)[k],
        !as_sheets ==> texts(final(sheets)@) == texts(old(sheets)@),
        forall|p: Seq<char>| #[trigger] group_ref(dir@, texts(gs@), skip_data, p) ==> texts(final(files)@).contains(p),
        as_sheets ==> forall|p: Seq<char>| #[trigger] group_ref(dir@, texts(gs@), skip_data, p) && readable(archive.entries@, p)
            ==> texts(final(sheets)@).contains(p),
        forall|k: int| 0 <= k < texts(final(files)@).len() ==> texts(old(files)@).contains(#[trigger] texts(final(files)@)[k])
            || group_ref(dir@, texts(gs@), skip_data, texts(final(files)@)[k]),
        forall|k: int| 0 <= k < texts(final(sheets)@).len() ==> texts(old(sheets)@).contains(#[trigger] texts(final(sheets)@)[k])
            || group_ref(dir@, texts(gs@), skip_data, texts(final(sheets)@)[k]),
{
    let ghost fs = archive.entries@;
    let ghost g = texts(gs@);
    let ghost f0 = texts(files@);
    let ghost s0 = texts(sheets@);
    let mut m: usize = 0;
    proof {
        lemma_sheets_bound(s0, fs);
    }
    while m < gs.len()
        invariant
            m <= gs@.len(),
            g == texts(gs@),
            fs == archive.entries@,
            texts(files@).no_duplicates(),
            texts(sheets@).no_duplicates(),
            forall|k: int| 0 <= k < texts(sheets@).len() ==> readable(fs, #[trigger] texts(sheets@)[k])
                && texts(files@).contains(texts(sheets@)[k]),
            texts(sheets@).len() <= fs.len(),
            forall|q: Seq<char>| f0.contains(q) ==> #[trigger] texts(files@).contains(q),
            s0.len() <= texts(sheets@).len(),
            forall|k: int| 0 <= k < s0.len() ==> texts(sheets@)[k] == #[trigger] s0[k],
            !as_sheets ==> texts(sheets@) == s0,
            forall|i: int| 0 <= i < m && (!skip_data || !starts_with(g[i], "data:"@))
                ==> texts(files@).contains(#[trigger] resolved(dir@, g[i])),
            as_sheets ==> forall|i: int| 0 <= i < m && (!skip_data || !starts_with(g[i], "data:"@))
                && readable(fs, resolved(dir@, g[i])) ==> texts(sheets@).contains(#[trigger] resolved(dir@, g[i])),
            forall|k: int| 0 <= k < texts(files@).len() ==> f0.contains(#[trigger] texts(files@)[k])
                || group_ref(dir@, g, skip_data, texts(files@)[k]),
            forall|k: int| 0 <= k < texts(sheets@).len() ==> s0.contains(#[trigger] texts(sheets@)[k])
                || group_ref(dir@, g, skip_data, texts(sheets@)[k]),
        decreases gs.len() - m,
    {
        assert(g[m as int] == gs@[m as int]@);
        let skip = skip_data && text_starts_with(gs[m].as_str(), "data:");
        proof { reveal_strlit("data:"); }
        if !skip {
            let p = resolve_ref(dir, &gs[m]);
            assert(p@ == resolved(dir@, g[m as int]));
            assert(group_ref(dir@, g, skip_data, p@));
            let q = p.clone();
            let ghost fb = texts(files@);
            add_unique(files, p);
            assert forall|k: int| 0 <= k < texts(sheets@).len() implies texts(files@).contains(#[trigger] texts(sheets@)[k]) by {
                assert(fb.contains(texts(sheets@)[k]));
            }
            if as_sheets && archive.read_text(q.as_str()).is_some() {
                let ghost sb = texts(sheets@);
                add_unique(sheets, q);
                proof {
                    lemma_sheets_bound(texts(sheets@), fs);
                }
                assert forall|k: int| 0 <= k < s0.len() implies texts(sheets@)[k] == #[trigger] s0[k] by {
                    assert(sb[k] == s0[k]);
                }
            }
        }
        m = m + 1;
    }
    proof {
        assert forall|p: Seq<char>| #[trigger] group_ref(dir@, g, skip_data, p) implies texts(files@).contains(p) by {
            let i = choose|i: int| 0 <= i < g.len() && (!skip_data || !starts_with(g[i], "data:"@))
                && p == #[trigger] resolved(dir@, g[i]);
        }
        if as_sheets {
            assert forall|p: Seq<char>| #[trigger] group_ref(dir@, g, skip_data, p) && readable(fs, p) implies texts(sheets@).contains(p) by {
                let i = choose|i: int| 0 <= i < g.len() && (!skip_data || !starts_with(g[i], "data:"@))
                    && p == #[trigger] resolved(dir@, g[i]);
            }
        }
    }
}

} // verus!
