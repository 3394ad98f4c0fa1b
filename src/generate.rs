use vstd::prelude::*;
use vstd::string::StringExecFns;
use crate::package::texts;
use crate::text::{chars_of, push_char};

verus! {

/// The escape of one character in XML text and attribute values.
pub open spec fn escape_char(c: char) -> Seq<char> {
    if c == '&' {
        "&amp;"@
    } else if c == '<' {
        "&lt;"@
    } else if c == '>' {
        "&gt;"@
    } else if c == '"' {
        "&quot;"@
    } else if c == '\'' {
        "&apos;"@
    } else {
        seq![c]
    }
}

/// `s` with each of `& < > " '` replaced by its entity.
pub open spec fn escaped(s: Seq<char>) -> Seq<char>
    decreases s.len(),
{
    if s.len() == 0 {
        Seq::empty()
    } else {
        escaped(s.drop_last()) + escape_char(s.last())
    }
}

/// Escapes text for use inside XML.
pub fn escape_xml(s: &str) -> (r: String)
    ensures
        r@ == escaped(s@),
{
    let cs = chars_of(s);
    let mut out = String::new();
    let mut i: usize = 0;
    while i < cs.len()
        invariant
            i <= cs@.len(),
            cs@ == s@,
            out@ == escaped(cs@.take(i as int)),
        decreases cs.len() - i,
    {
        assert(cs@.take(i + 1).drop_last() =~= cs@.take(i as int));
        let c = cs[i];
        proof {
            reveal_strlit("&amp;");
            reveal_strlit("&lt;");
            reveal_strlit("&gt;");
            reveal_strlit("&quot;");
            reveal_strlit("&apos;");
        }
        if c == '&' {
            out.append("&amp;");
        } else if c == '<' {
            out.append("&lt;");
        } else if c == '>' {
            out.append("&gt;");
        } else if c == '"' {
            out.append("&quot;");
        } else if c == '\'' {
            out.append("&apos;");
        } else {
            let ghost before = out@;
            push_char(&mut out, c);
            assert(out@ =~= before + seq![c]);
        }
        i = i + 1;
    }
    assert(cs@.take(i as int) =~= cs@);
    out
}

/// Whether `c` is `e` or, for an ASCII capital, its small letter `e`.
pub open spec fn same_ci(c: char, e: char) -> bool {
    c == e || ('A' <= c && c <= 'Z' && (c as u32) + 32 == e as u32)
}

/// Whether `s` ends with the lower-case `ext`, ignoring ASCII case. (No character
/// outside ASCII lowercases to text that ends in the letters of the extensions used
/// here, so this is the same as testing the lowercased name.)
pub open spec fn ends_with_ci(s: Seq<char>, ext: Seq<char>) -> bool {
    s.len() >= ext.len() && forall|i: int| 0 <= i < ext.len() ==> #[trigger] same_ci(s[s.len() - ext.len() + i], ext[i])
}

/// The media type registered for a file name's extension.
pub open spec fn media_type_of(s: Seq<char>) -> Seq<char> {
    if ends_with_ci(s, ".css"@) {
        "text/css"@
    } else if ends_with_ci(s, ".jpg"@) || ends_with_ci(s, ".jpeg"@) {
        "image/jpeg"@
    } else if ends_with_ci(s, ".png"@) {
        "image/png"@
    } else if ends_with_ci(s, ".gif"@) {
        "image/gif"@
    } else if ends_with_ci(s, ".svg"@) {
        "image/svg+xml"@
    } else if ends_with_ci(s, ".ttf"@) {
        "application/x-font-ttf"@
    } else if ends_with_ci(s, ".otf"@) {
        "application/vnd.ms-opentype"@
    } else if ends_with_ci(s, ".woff"@) {
        "application/font-woff"@
    } else if ends_with_ci(s, ".woff2"@) {
        "font/woff2"@
    } else {
        "application/octet-stream"@
    }
}

fn char_same_ci(c: char, e: char) -> (r: bool)
    ensures
        r == same_ci(c, e),
{
    c == e || ('A' <= c && c <= 'Z' && (c as u32) + 32 == e as u32)
}

pub(crate) fn ends_with_ext(s: &Vec<char>, ext: &str) -> (r: bool)
    ensures
        r == ends_with_ci(s@, ext@),
{
    let e = chars_of(ext);
    if s.len() < e.len() {
        return false;
    }
    let n = s.len();
    let off = n - e.len();
    let mut i: usize = 0;
    while i < e.len()
        invariant
            n == s@.len(),
            i <= e@.len(),
            e@ == ext@,
            off == s@.len() - e@.len(),
            e@.len() <= s@.len(),
            forall|k: int| 0 <= k < i ==> #[trigger] same_ci(s@[s@.len() - e@.len() + k], e@[k]),
        decreases e.len() - i,
    {
        if !char_same_ci(s[off + i], e[i]) {
            assert(!same_ci(s@[s@.len() - e@.len() + i], e@[i as int]));
            return false;
        }
        i = i + 1;
    }
    true
}

/// Guesses a resource's media type from its extension, ignoring case.
pub fn guess_media_type(href: &str) -> (r: String)
    ensures
        r@ == media_type_of(href@),
{
    let s = chars_of(href);
    let t = if ends_with_ext(&s, ".css") {
        "text/css"
    } else if ends_with_ext(&s, ".jpg") || ends_with_ext(&s, ".jpeg") {
        "image/jpeg"
    } else if ends_with_ext(&s, ".png") {
        "image/png"
    } else if ends_with_ext(&s, ".gif") {
        "image/gif"
    } else if ends_with_ext(&s, ".svg") {
        "image/svg+xml"
    } else if ends_with_ext(&s, ".ttf") {
        "application/x-font-ttf"
    } else if ends_with_ext(&s, ".otf") {
        "application/vnd.ms-opentype"
    } else if ends_with_ext(&s, ".woff") {
        "application/font-woff"
    } else if ends_with_ext(&s, ".woff2") {
        "font/woff2"
    } else {
        "application/octet-stream"
    };
    String::from_str(t)
}

/// `open`, then `v` escaped, then `close`.
pub open spec fn wrapped(open: Seq<char>, v: Seq<char>, close: Seq<char>) -> Seq<char> {
    open + escaped(v) + close
}

/// One wrapped line for each of `vs`, in order.
pub open spec fn wrapped_each(open: Seq<char>, vs: Seq<Seq<char>>, close: Seq<char>) -> Seq<char>
    decreases vs.len(),
{
    if vs.len() == 0 {
        Seq::empty()
    } else {
        wrapped_each(open, vs.drop_last(), close) + wrapped(open, vs.last(), close)
    }
}

fn push_wrapped(out: &mut String, open: &str, v: &str, close: &str)
    ensures
        final(out)@ == old(out)@ + wrapped(open@, v@, close@),
{
    out.append(open);
    let e = escape_xml(v);
    out.append(e.as_str());
    out.append(close);
}

fn push_wrapped_each(out: &mut String, open: &str, vs: &Vec<String>, close: &str)
    ensures
        final(out)@ == old(out)@ + wrapped_each(open@, texts(vs@), close@),
{
    let ghost tv = texts(vs@);
    let mut i: usize = 0;
    while i < vs.len()
        invariant
            i <= vs@.len(),
            tv == texts(vs@),
            out@ == old(out)@ + wrapped_each(open@, tv.take(i as int), close@),
        decreases vs.len() - i,
    {
        assert(tv.take(i + 1).drop_last() =~= tv.take(i as int));
        assert(tv.take(i + 1).last() == vs@[i as int]@);
        push_wrapped(out, open, vs[i].as_str(), close);
        i = i + 1;
    }
    assert(tv.take(i as int) =~= tv);
}

/// The manifest lines of a package document.
pub open spec fn manifest_text(items: Seq<(Seq<char>, Seq<char>, Seq<char>)>) -> Seq<char>
    decreases items.len(),
{
    if items.len() == 0 {
        Seq::empty()
    } else {
        let it = items.last();
        manifest_text(items.drop_last()) + wrapped("      <item id=\""@, it.0, "\" "@)
            + wrapped("href=\""@, it.1, "\" "@) + wrapped("media-type=\""@, it.2, "\"/>\n"@)
    }
}

pub open spec fn triples(v: Seq<(String, String, String)>) -> Seq<(Seq<char>, Seq<char>, Seq<char>)> {
    v.map_values(|t: (String, String, String)| (t.0@, t.1@, t.2@))
}

pub open spec fn opf_head() -> Seq<char> {
    "<?xml version=\"1.0\" encoding=\"UTF-8\"?>\n<package version=\"2.0\" xmlns=\"http://www.idpf.org/2007/opf\" unique-identifier=\"epubsplit-id\">\n   <metadata xmlns:dc=\"http://purl.org/dc/elements/1.1/\" xmlns:opf=\"http://www.idpf.org/2007/opf\">\n"@
}

pub open spec fn opf_metadata(
    uid: Seq<char>,
    title: Seq<char>,
    authors: Seq<Seq<char>>,
    description: Seq<char>,
    tags: Seq<Seq<char>>,
    languages: Seq<Seq<char>>,
    has_cover: bool,
) -> Seq<char> {
    opf_head() + wrapped("      <dc:identifier id=\"epubsplit-id\">"@, uid, "</dc:identifier>\n"@)
        + wrapped("      <dc:title>"@, title, "</dc:title>\n"@)
        + wrapped_each("      <dc:creator opf:role=\"aut\">"@, authors, "</dc:creator>\n"@)
        + "      <dc:contributor opf:role=\"bkp\">epubsplit</dc:contributor>\n"@
        + wrapped_each("      <dc:language>"@, languages, "</dc:language>\n"@)
        + wrapped("      <dc:description>"@, description, "</dc:description>\n"@)
        + wrapped_each("      <dc:subject>"@, tags, "</dc:subject>\n"@)
        + (if has_cover { "      <meta name=\"cover\" content=\"coverimageid\"/>\n"@ } else { Seq::empty() })
        + "   </metadata>\n"@
}

/// The package document of a split book.
pub open spec fn opf_text(
    uid: Seq<char>,
    title: Seq<char>,
    authors: Seq<Seq<char>>,
    description: Seq<char>,
    tags: Seq<Seq<char>>,
    languages: Seq<Seq<char>>,
    items: Seq<(Seq<char>, Seq<char>, Seq<char>)>,
    spine: Seq<Seq<char>>,
    has_cover: bool,
) -> Seq<char> {
    opf_metadata(uid, title, authors, description, tags, languages, has_cover)
        + "   <manifest>\n"@ + manifest_text(items) + "   </manifest>\n"@
        + "   <spine toc=\"ncx\">\n"@ + wrapped_each("      <itemref idref=\""@, spine, "\" linear=\"yes\"/>\n"@)
        + "   </spine>\n"@
        + (if has_cover {
            "   <guide>\n      <reference type=\"cover\" title=\"Cover\" href=\"cover.xhtml\"/>\n   </guide>\n"@
        } else {
            Seq::empty()
        }) + "</package>\n"@
}

fn push_manifest(out: &mut String, items: &Vec<(String, String, String)>)
    ensures
        final(out)@ == old(out)@ + manifest_text(triples(items@)),
{
    let ghost tv = triples(items@);
    let mut i: usize = 0;
    while i < items.len()
        invariant
            i <= items@.len(),
            tv == triples(items@),
            out@ == old(out)@ + manifest_text(tv.take(i as int)),
        decreases items.len() - i,
    {
        assert(tv.take(i + 1).drop_last() =~= tv.take(i as int));
        let it = &items[i];
        let ghost o = out@;
        push_wrapped(out, "      <item id=\"", it.0.as_str(), "\" ");
        push_wrapped(out, "href=\"", it.1.as_str(), "\" ");
        push_wrapped(out, "media-type=\"", it.2.as_str(), "\"/>\n");
        assert(out@ =~= o + wrapped("      <item id=\""@, it.0@, "\" "@) + wrapped("href=\""@, it.1@, "\" "@)
            + wrapped("media-type=\""@, it.2@, "\"/>\n"@));
        i = i + 1;
    }
    assert(tv.take(i as int) =~= tv);
}

/// Writes the package document of a split book.
pub fn generate_content_opf(
    unique_id: &str,
    title: &str,
    authors: &Vec<String>,
    description: &str,
    tags: &Vec<String>,
    languages: &Vec<String>,
    manifest_items: &Vec<(String, String, String)>,
    spine_items: &Vec<String>,
    has_cover: bool,
) -> (r: String)
    ensures
        r@ == opf_text(unique_id@, title@, texts(authors@), description@, texts(tags@), texts(languages@),
            triples(manifest_items@), texts(spine_items@), has_cover),
{
    let mut opf = String::from_str("<?xml version=\"1.0\" encoding=\"UTF-8\"?>\n<package version=\"2.0\" xmlns=\"http://www.idpf.org/2007/opf\" unique-identifier=\"epubsplit-id\">\n   <metadata xmlns:dc=\"http://purl.org/dc/elements/1.1/\" xmlns:opf=\"http://www.idpf.org/2007/opf\">\n");
    push_wrapped(&mut opf, "      <dc:identifier id=\"epubsplit-id\">", unique_id, "</dc:identifier>\n");
    push_wrapped(&mut opf, "      <dc:title>", title, "</dc:title>\n");
    push_wrapped_each(&mut opf, "      <dc:creator opf:role=\"aut\">", authors, "</dc:creator>\n");
    opf.append("      <dc:contributor opf:role=\"bkp\">epubsplit</dc:contributor>\n");
    push_wrapped_each(&mut opf, "      <dc:language>", languages, "</dc:language>\n");
    push_wrapped(&mut opf, "      <dc:description>", description, "</dc:description>\n");
    push_wrapped_each(&mut opf, "      <dc:subject>", tags, "</dc:subject>\n");
    let ghost before_cover = opf@;
    if has_cover {
        opf.append("      <meta name=\"cover\" content=\"coverimageid\"/>\n");
    }
    assert(opf@ == before_cover + (if has_cover { "      <meta name=\"cover\" content=\"coverimageid\"/>\n"@ } else { Seq::<char>::empty() })) by {
        if !has_cover {
            assert(before_cover + Seq::<char>::empty() =~= before_cover);
        }
    }
    opf.append("   </metadata>\n");
    let ghost meta = opf@;
    opf.append("   <manifest>\n");
    push_manifest(&mut opf, manifest_items);
    opf.append("   </manifest>\n");
    opf.append("   <spine toc=\"ncx\">\n");
    push_wrapped_each(&mut opf, "      <itemref idref=\"", spine_items, "\" linear=\"yes\"/>\n");
    opf.append("   </spine>\n");
    let ghost before_guide = opf@;
    if has_cover {
        opf.append("   <guide>\n      <reference type=\"cover\" title=\"Cover\" href=\"cover.xhtml\"/>\n   </guide>\n");
    }
    assert(opf@ == before_guide + (if has_cover {
        "   <guide>\n      <reference type=\"cover\" title=\"Cover\" href=\"cover.xhtml\"/>\n   </guide>\n"@
    } else {
        Seq::<char>::empty()
    })) by {
        if !has_cover {
            assert(before_guide + Seq::<char>::empty() =~= before_guide);
        }
    }
    opf.append("</package>\n");
    assert(opf@ =~= opf_text(unique_id@, title@, texts(authors@), description@, texts(tags@), texts(languages@),
        triples(manifest_items@), texts(spine_items@), has_cover));
    opf
}

/// The decimal digits of `n`.
pub open spec fn decimal(n: nat) -> Seq<char>
    decreases n,
{
    if n < 10 {
        seq![digit(n)]
    } else {
        decimal(n / 10).push(digit(n % 10))
    }
}

pub open spec fn digit(d: nat) -> char {
    if d == 0 { '0' } else if d == 1 { '1' } else if d == 2 { '2' } else if d == 3 { '3' } else if d == 4 { '4' }
    else if d == 5 { '5' } else if d == 6 { '6' } else if d == 7 { '7' } else if d == 8 { '8' } else { '9' }
}

fn digit_char(d: usize) -> (r: char)
    requires
        d < 10,
    ensures
        r == digit(d as nat),
{
    if d == 0 { '0' } else if d == 1 { '1' } else if d == 2 { '2' } else if d == 3 { '3' } else if d == 4 { '4' }
    else if d == 5 { '5' } else if d == 6 { '6' } else if d == 7 { '7' } else if d == 8 { '8' } else { '9' }
}

/// Writes `n` in decimal.
pub fn decimal_text(n: usize) -> (r: String)
    ensures
        r@ == decimal(n as nat),
    decreases n,
{
    if n < 10 {
        let mut s = String::new();
        push_char(&mut s, digit_char(n));
        assert(s@ =~= seq![digit(n as nat)]);
        s
    } else {
        let mut s = decimal_text(n / 10);
        push_char(&mut s, digit_char(n % 10));
        s
    }
}

/// One navigation point of a generated navigation document, numbered `n`.
pub open spec fn nav_point_text(n: nat, label: Seq<char>, src: Seq<char>) -> Seq<char> {
    "      <navPoint id=\"navpoint-"@ + decimal(n) + "\" playOrder=\""@ + decimal(n) + "\">\n"@
        + "         <navLabel>\n"@ + wrapped("            <text>"@, label, "</text>\n"@)
        + "         </navLabel>\n"@ + wrapped("         <content src=\""@, src, "\"/>\n"@)
        + "      </navPoint>\n"@
}

/// The navigation points of `es`, numbered from 1.
pub open spec fn nav_points_text(es: Seq<(Seq<char>, Seq<char>)>) -> Seq<char>
    decreases es.len(),
{
    if es.len() == 0 {
        Seq::empty()
    } else {
        nav_points_text(es.drop_last()) + nav_point_text(es.len(), es.last().0, es.last().1)
    }
}

pub open spec fn pairs(v: Seq<(String, String)>) -> Seq<(Seq<char>, Seq<char>)> {
    v.map_values(|t: (String, String)| (t.0@, t.1@))
}

/// The navigation document of a split book.
pub open spec fn ncx_text(uid: Seq<char>, title: Seq<char>, es: Seq<(Seq<char>, Seq<char>)>) -> Seq<char> {
    "<?xml version=\"1.0\" encoding=\"UTF-8\"?>\n<ncx version=\"2005-1\" xmlns=\"http://www.daisy.org/z3986/2005/ncx/\">\n   <head>\n"@
        + wrapped("      <meta name=\"dtb:uid\" content=\""@, uid, "\"/>\n"@)
        + "      <meta name=\"dtb:depth\" content=\"1\"/>\n      <meta name=\"dtb:totalPageCount\" content=\"0\"/>\n      <meta name=\"dtb:maxPageNumber\" content=\"0\"/>\n   </head>\n   <docTitle>\n"@
        + wrapped("      <text>"@, title, "</text>\n"@) + "   </docTitle>\n   <navMap>\n"@
        + nav_points_text(es) + "   </navMap>\n</ncx>\n"@
}

/// Writes the navigation document of a split book: one point per entry (label,
/// target), numbered from 1.
pub fn generate_toc_ncx(unique_id: &str, title: &str, toc_entries: &Vec<(String, String)>) -> (r: String)
    ensures
        r@ == ncx_text(unique_id@, title@, pairs(toc_entries@)),
{
    let mut ncx = String::from_str("<?xml version=\"1.0\" encoding=\"UTF-8\"?>\n<ncx version=\"2005-1\" xmlns=\"http://www.daisy.org/z3986/2005/ncx/\">\n   <head>\n");
    push_wrapped(&mut ncx, "      <meta name=\"dtb:uid\" content=\"", unique_id, "\"/>\n");
    ncx.append("      <meta name=\"dtb:depth\" content=\"1\"/>\n      <meta name=\"dtb:totalPageCount\" content=\"0\"/>\n      <meta name=\"dtb:maxPageNumber\" content=\"0\"/>\n   </head>\n   <docTitle>\n");
    push_wrapped(&mut ncx, "      <text>", title, "</text>\n");
    ncx.append("   </docTitle>\n   <navMap>\n");
    let ghost head = ncx@;
    let ghost pv = pairs(toc_entries@);
    let mut i: usize = 0;
    assert(ncx@ =~= head + nav_points_text(pv.take(0)));
    while i < toc_entries.len()
        invariant
            i <= toc_entries@.len(),
            pv == pairs(toc_entries@),
            ncx@ == head + nav_points_text(pv.take(i as int)),
        decreases toc_entries.len() - i,
    {
        assert(pv.take(i + 1).drop_last() =~= pv.take(i as int));
        let n = decimal_text(i + 1);
        let ghost o = ncx@;
        ncx.append("      <navPoint id=\"navpoint-");
        ncx.append(n.as_str());
        ncx.append("\" playOrder=\"");
        ncx.append(n.as_str());
        ncx.append("\">\n");
        ncx.append("         <navLabel>\n");
        push_wrapped(&mut ncx, "            <text>", toc_entries[i].0.as_str(), "</text>\n");
        ncx.append("         </navLabel>\n");
        push_wrapped(&mut ncx, "         <content src=\"", toc_entries[i].1.as_str(), "\"/>\n");
        ncx.append("      </navPoint>\n");
        assert(ncx@ =~= o + nav_point_text((i + 1) as nat, pv[i as int].0, pv[i as int].1));
        i = i + 1;
    }
    assert(pv.take(i as int) =~= pv);
    ncx.append("   </navMap>\n</ncx>\n");
    assert(ncx@ =~= ncx_text(unique_id@, title@, pv));
    ncx
}

/// The container descriptor of a split book, naming `content.opf`.
pub open spec fn container_text() -> Seq<char> {
    "<?xml version=\"1.0\" encoding=\"UTF-8\"?>\n<container version=\"1.0\" xmlns=\"urn:oasis:names:tc:opendocument:xmlns:container\">\n   <rootfiles>\n      <rootfile full-path=\"content.opf\" media-type=\"application/oebps-package+xml\"/>\n   </rootfiles>\n</container>\n"@
}

pub fn generate_container_xml() -> (r: String)
    ensures
        r@ == container_text(),
{
    String::from_str("<?xml version=\"1.0\" encoding=\"UTF-8\"?>\n<container version=\"1.0\" xmlns=\"urn:oasis:names:tc:opendocument:xmlns:container\">\n   <rootfiles>\n      <rootfile full-path=\"content.opf\" media-type=\"application/oebps-package+xml\"/>\n   </rootfiles>\n</container>\n")
}

/// The page that shows a supplied cover image.
pub open spec fn cover_text() -> Seq<char> {
    "<?xml version=\"1.0\" encoding=\"UTF-8\"?>\n<!DOCTYPE html PUBLIC \"-//W3C//DTD XHTML 1.1//EN\" \"http://www.w3.org/TR/xhtml11/DTD/xhtml11.dtd\">\n<html xmlns=\"http://www.w3.org/1999/xhtml\" xml:lang=\"en\">\n<head>\n   <title>Cover</title>\n   <style type=\"text/css\">\n      @page { padding: 0pt; margin: 0pt; }\n      body { text-align: center; padding: 0pt; margin: 0pt; }\n      div { margin: 0pt; padding: 0pt; }\n   </style>\n</head>\n<body>\n   <div>\n      <img src=\"cover.jpg\" alt=\"cover\"/>\n   </div>\n</body>\n</html>\n"@
}

pub fn generate_cover_xhtml() -> (r: String)
    ensures
        r@ == cover_text(),
{
    String::from_str("<?xml version=\"1.0\" encoding=\"UTF-8\"?>\n<!DOCTYPE html PUBLIC \"-//W3C//DTD XHTML 1.1//EN\" \"http://www.w3.org/TR/xhtml11/DTD/xhtml11.dtd\">\n<html xmlns=\"http://www.w3.org/1999/xhtml\" xml:lang=\"en\">\n<head>\n   <title>Cover</title>\n   <style type=\"text/css\">\n      @page { padding: 0pt; margin: 0pt; }\n      body { text-align: center; padding: 0pt; margin: 0pt; }\n      div { margin: 0pt; padding: 0pt; }\n   </style>\n</head>\n<body>\n   <div>\n      <img src=\"cover.jpg\" alt=\"cover\"/>\n   </div>\n</body>\n</html>\n")
}

} // verus!
