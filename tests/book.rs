use epubsplit::{
    Archive, ArchiveEntry, EntryData, EpubError, OutputEntry, SplitEpub,
};

fn entry(name: &str, text: &str) -> ArchiveEntry {
    ArchiveEntry { name: name.to_string(), text: Some(text.to_string()), data: text.as_bytes().to_vec() }
}

fn binary(name: &str, data: &[u8]) -> ArchiveEntry {
    ArchiveEntry { name: name.to_string(), text: None, data: data.to_vec() }
}

fn container() -> ArchiveEntry {
    entry(
        "META-INF/container.xml",
        r#"<?xml version="1.0"?>
<container version="1.0" xmlns="urn:oasis:names:tc:opendocument:xmlns:container">
  <rootfiles><rootfile full-path="OEBPS/content.opf" media-type="application/oebps-package+xml"/></rootfiles>
</container>"#,
    )
}

fn opf(with_ncx: bool) -> ArchiveEntry {
    let ncx = if with_ncx {
        r#"<item id="ncx" href="toc.ncx" media-type="application/x-dtbncx+xml"/>"#
    } else {
        ""
    };
    entry(
        "OEBPS/content.opf",
        &format!(
            r#"<?xml version="1.0"?>
<package version="2.0" xmlns="http://www.idpf.org/2007/opf" unique-identifier="id">
  <metadata xmlns:dc="http://purl.org/dc/elements/1.1/" xmlns:opf="http://www.idpf.org/2007/opf">
    <dc:title>Sample Book</dc:title>
    <dc:creator opf:role="aut">Ann Author</dc:creator>
    <dc:creator opf:role="ill">Ian Illustrator</dc:creator>
    <dc:creator>Ann Author</dc:creator>
  </metadata>
  <manifest>
    {}
    <item id="c1" href="ch1.xhtml" media-type="application/xhtml+xml"/>
    <item id="c2" href="ch2.xhtml" media-type="application/xhtml+xml"/>
    <item id="c3" href="ch3.xhtml" media-type="application/xhtml+xml"/>
    <item id="css" href="style.css" media-type="text/css"/>
  </manifest>
  <spine toc="ncx">
    <itemref idref="c1"/>
    <itemref idref="c2"/>
    <itemref idref="c3"/>
  </spine>
  <guide>
    <reference type="text" title="Start" href="ch1.xhtml#top"/>
  </guide>
</package>"#,
            ncx
        ),
    )
}

fn ncx() -> ArchiveEntry {
    entry(
        "OEBPS/toc.ncx",
        r#"<?xml version="1.0"?>
<ncx xmlns="http://www.daisy.org/z3986/2005/ncx/" version="2005-1">
  <navMap>
    <navPoint id="n1" playOrder="1"><navLabel><text>Chapter One</text></navLabel><content src="ch1.xhtml"/></navPoint>
    <navPoint id="n2" playOrder="2"><navLabel><text>Chapter Two</text></navLabel><content src="ch2.xhtml"/></navPoint>
    <navPoint id="n3" playOrder="3"><navLabel><text>  Section Two  </text></navLabel><content src="ch2.xhtml#s2"/></navPoint>
    <navPoint id="n4" playOrder="4"><navLabel><text>Chapter Three</text></navLabel><content src="ch3.xhtml"/></navPoint>
  </navMap>
</ncx>"#,
    )
}

fn chapter(name: &str, body: &str) -> ArchiveEntry {
    entry(
        &format!("OEBPS/{}", name),
        &format!(
            r#"<?xml version="1.0"?><html xmlns="http://www.w3.org/1999/xhtml"><head><title>x</title></head><body>{}</body></html>"#,
            body
        ),
    )
}

fn book(with_ncx: bool) -> Archive {
    let mut entries = vec![
        binary("mimetype", b"application/epub+zip"),
        container(),
        opf(with_ncx),
        chapter("ch1.xhtml", "<p>One</p>"),
        chapter("ch2.xhtml", r#"<p>Two</p><h2 id="s2">Section</h2><p>more</p>"#),
        chapter("ch3.xhtml", "<p>Three</p>"),
    ];
    if with_ncx {
        entries.push(ncx());
    }
    Archive::new(entries)
}

fn text_of(e: &OutputEntry) -> &str {
    match &e.data {
        EntryData::Text(t) => t.as_str(),
        EntryData::Bytes(_) => panic!("expected text in {}", e.name),
    }
}

fn find<'a>(out: &'a [OutputEntry], name: &str) -> &'a OutputEntry {
    out.iter().find(|e| e.name == name).expect("entry present")
}

fn write(epub: &SplitEpub, indices: &[usize], cover: Option<Vec<u8>>) -> Result<Vec<OutputEntry>, EpubError> {
    epub.write_split_epub(
        &indices.to_vec(),
        &vec!["Writer".to_string()],
        Some("Part".to_string()),
        None,
        &vec!["tag1".to_string()],
        &vec!["en".to_string()],
        cover,
        &"uid-1".to_string(),
    )
}

#[test]
fn split_points_merge_spine_and_navigation() {
    let epub = SplitEpub::new(book(true)).expect("loads");
    let lines = epub.get_split_lines();
    assert_eq!(lines.len(), 4);
    let hrefs: Vec<&str> = lines.iter().map(|l| l.href.as_str()).collect();
    assert_eq!(hrefs, vec!["OEBPS/ch1.xhtml", "OEBPS/ch2.xhtml", "OEBPS/ch2.xhtml", "OEBPS/ch3.xhtml"]);
    assert_eq!(lines[0].anchor, None);
    assert_eq!(lines[1].anchor, None);
    assert_eq!(lines[2].anchor.as_deref(), Some("s2"));
    assert_eq!(lines[3].anchor, None);
    assert_eq!(lines[1].toc, vec!["Chapter Two".to_string()]);
    assert_eq!(lines[2].toc, vec!["Section Two".to_string()]);
    assert!(lines[2].sample.starts_with(r#"id="s2">Section"#));
    assert_eq!(lines[0].guide, Some(("text".to_string(), "Start".to_string())));
    assert_eq!(lines[2].guide, None);
}

#[test]
fn metadata_keeps_distinct_authors() {
    let epub = SplitEpub::new(book(true)).expect("loads");
    assert_eq!(epub.get_orig_title(), "Sample Book");
    assert_eq!(epub.get_orig_authors(), &vec!["Ann Author".to_string()]);
}

#[test]
fn no_navigation_gives_one_point_per_spine_item() {
    let epub = SplitEpub::new(book(false)).expect("loads");
    let lines = epub.get_split_lines();
    assert_eq!(lines.len(), 3);
    assert!(lines.iter().all(|l| l.anchor.is_none() && l.toc.is_empty()));
}

#[test]
fn single_point_book_lists_only_its_document() {
    let epub = SplitEpub::new(book(true)).expect("loads");
    let out = write(&epub, &[0], None).expect("writes");
    let names: Vec<&str> = out.iter().map(|e| e.name.as_str()).collect();
    assert_eq!(names, vec!["mimetype", "META-INF/container.xml", "OEBPS/ch1.xhtml", "content.opf", "toc.ncx"]);
    let opf = text_of(find(&out, "content.opf"));
    assert_eq!(opf.matches("<item ").count(), 2);
    assert!(opf.contains(r#"<item id="ncx" href="toc.ncx" media-type="application/x-dtbncx+xml"/>"#));
    assert!(opf.contains(r#"<item id="content0" href="OEBPS/ch1.xhtml" media-type="application/xhtml+xml"/>"#));
    assert_eq!(opf.matches("<itemref ").count(), 1);
    assert!(opf.contains(r#"<dc:title>Part</dc:title>"#));
    assert!(opf.contains(r#"<dc:description>Split from Sample Book by Ann Author.</dc:description>"#));
}

#[test]
fn mimetype_comes_first_and_uncompressed() {
    let epub = SplitEpub::new(book(true)).expect("loads");
    let out = write(&epub, &[3], None).expect("writes");
    assert_eq!(out[0].name, "mimetype");
    assert!(out[0].stored);
    assert_eq!(text_of(&out[0]), "application/epub+zip");
    assert!(out[1..].iter().all(|e| !e.stored));
}

#[test]
fn index_past_the_end_is_reported_with_the_range() {
    let epub = SplitEpub::new(book(true)).expect("loads");
    match write(&epub, &[0, 5], None) {
        Err(EpubError::IndexOutOfRange { index, available }) => {
            assert_eq!(index, 5);
            assert_eq!(available - 1, 3);
        },
        _ => panic!("expected an index error"),
    }
}

#[test]
fn written_book_loads_again() {
    let epub = SplitEpub::new(book(true)).expect("loads");
    let out = write(&epub, &[1, 2], Some(vec![1, 2, 3])).expect("writes");
    let entries: Vec<ArchiveEntry> = out
        .iter()
        .map(|e| match &e.data {
            EntryData::Text(t) => entry(&e.name, t),
            EntryData::Bytes(b) => binary(&e.name, b),
        })
        .collect();
    let again = SplitEpub::new(Archive::new(entries)).expect("reloads");
    let lines = again.get_split_lines();
    assert_eq!(lines.len(), 3);
    assert_eq!(lines[0].href, "cover.xhtml");
    assert_eq!(lines[1].href, "OEBPS/ch2.xhtml");
    assert_eq!(lines[2].anchor.as_deref(), Some("s2"));
    assert_eq!(again.get_orig_title(), "Part");
    assert_eq!(again.get_orig_authors(), &vec!["Writer".to_string()]);
}

#[test]
fn same_document_is_staged_once_with_one_entry_per_point() {
    let epub = SplitEpub::new(book(true)).expect("loads");
    let out = write(&epub, &[1, 2], None).expect("writes");
    assert_eq!(out.iter().filter(|e| e.name == "OEBPS/ch2.xhtml").count(), 1);
    let ncx = text_of(find(&out, "toc.ncx"));
    assert!(ncx.contains(r#"<navPoint id="navpoint-1" playOrder="1">"#));
    assert!(ncx.contains(r#"<content src="OEBPS/ch2.xhtml#s2"/>"#));
    assert!(ncx.contains("<text>Section Two</text>"));
    assert_eq!(ncx.matches("<navPoint ").count(), 2);
}

#[test]
fn cover_is_added_first_in_the_spine() {
    let epub = SplitEpub::new(book(true)).expect("loads");
    let out = write(&epub, &[0], Some(vec![9, 9])).expect("writes");
    let n = out.len();
    assert_eq!(out[n - 2].name, "cover.jpg");
    assert_eq!(out[n - 1].name, "cover.xhtml");
    let opf = text_of(find(&out, "content.opf"));
    let first = opf.find("<itemref ").expect("spine");
    assert!(opf[first..].starts_with(r#"<itemref idref="cover" linear="yes"/>"#));
    assert!(opf.contains(r#"<meta name="cover" content="coverimageid"/>"#));
}

#[test]
fn missing_container_is_a_structure_error() {
    let archive = Archive::new(vec![chapter("ch1.xhtml", "x")]);
    assert!(matches!(SplitEpub::new(archive), Err(EpubError::Structure(_))));
}

#[test]
fn spine_reference_without_manifest_entry_fails() {
    let bad = entry(
        "OEBPS/content.opf",
        r#"<package><metadata/><manifest><item id="c1" href="ch1.xhtml" media-type="application/xhtml+xml"/></manifest><spine><itemref idref="nope"/></spine></package>"#,
    );
    let archive = Archive::new(vec![container(), bad, chapter("ch1.xhtml", "x")]);
    assert!(matches!(SplitEpub::new(archive), Err(EpubError::Structure(_))));
}

#[test]
fn metadata_defaults_when_absent() {
    let bare = entry(
        "OEBPS/content.opf",
        r#"<package><metadata/><manifest><item id="c1" href="ch1.xhtml" media-type="application/xhtml+xml"/></manifest><spine><itemref idref="c1"/></spine></package>"#,
    );
    let archive = Archive::new(vec![container(), bare, chapter("ch1.xhtml", "x")]);
    let epub = SplitEpub::new(archive).expect("loads");
    assert_eq!(epub.get_orig_title(), "(Title Missing)");
    assert_eq!(epub.get_orig_authors(), &vec!["(Authors Missing)".to_string()]);
}

#[test]
fn missing_content_document_fails_the_write() {
    let epub = SplitEpub::new(book(true)).expect("loads");
    let mut entries = book(true).entries;
    entries.retain(|e| e.name != "OEBPS/ch3.xhtml");
    let mut epub2 = epub;
    epub2.archive = Archive::new(entries);
    assert!(matches!(write(&epub2, &[3], None), Err(EpubError::ResourceRead(_))));
}

#[test]
fn long_documents_get_a_truncated_sample() {
    let long = "a".repeat(2000);
    let archive = Archive::new(vec![
        container(),
        opf(false),
        entry("OEBPS/ch1.xhtml", &long),
        chapter("ch2.xhtml", "x"),
        chapter("ch3.xhtml", "y"),
    ]);
    let epub = SplitEpub::new(archive).expect("loads");
    let sample = &epub.get_split_lines()[0].sample;
    assert_eq!(sample.chars().count(), 1503);
    assert!(sample.ends_with("a..."));
}

#[test]
fn package_without_spine_is_a_structure_error() {
    let bad = entry(
        "OEBPS/content.opf",
        r#"<package><metadata/><manifest><item id="c1" href="ch1.xhtml" media-type="application/xhtml+xml"/></manifest></package>"#,
    );
    let archive = Archive::new(vec![container(), bad, chapter("ch1.xhtml", "x")]);
    assert!(matches!(SplitEpub::new(archive), Err(EpubError::Structure(_))));
}

#[test]
fn split_title_and_authors_default_to_the_book() {
    let epub = SplitEpub::new(book(true)).expect("loads");
    assert_eq!(epub.split_title(&None), "Sample Book Split");
    assert_eq!(epub.split_title(&Some("Mine".to_string())), "Mine");
    assert_eq!(epub.split_authors(&vec![]), vec!["Ann Author".to_string()]);
    assert_eq!(epub.split_authors(&vec!["X".to_string()]), vec!["X".to_string()]);
}

#[test]
fn default_title_is_used_for_points_without_labels() {
    let epub = SplitEpub::new(book(false)).expect("loads");
    let out = epub
        .write_split_epub(
            &vec![2],
            &vec!["W".to_string()],
            None,
            Some("D".to_string()),
            &vec![],
            &vec!["en".to_string()],
            None,
            &"u".to_string(),
        )
        .expect("writes");
    let ncx = text_of(find(&out, "toc.ncx"));
    assert!(ncx.contains("<text>Sample Book Split</text>"));
    assert!(ncx.contains(r#"<content src="OEBPS/ch3.xhtml"/>"#));
    let opf = text_of(find(&out, "content.opf"));
    assert!(opf.contains("<dc:description>D</dc:description>"));
}

#[test]
fn index_error_message_names_the_valid_range() {
    let e = EpubError::IndexOutOfRange { index: 5, available: 4 };
    assert_eq!(e.message(), "section index 5 is out of range (valid indices: 0 to 3)");
}

#[test]
fn unreadable_resource_is_skipped() {
    let mut entries = book(true).entries;
    for e in entries.iter_mut() {
        if e.name == "OEBPS/ch1.xhtml" {
            let t = r#"<html><head><link rel="stylesheet" href="missing.css"/></head><body><img src="pic.png"/></body></html>"#;
            e.text = Some(t.to_string());
            e.data = t.as_bytes().to_vec();
        }
    }
    entries.push(binary("OEBPS/pic.png", &[1, 2, 3]));
    let epub = SplitEpub::new(Archive::new(entries)).expect("loads");
    let out = write(&epub, &[0], None).expect("writes");
    let names: Vec<&str> = out.iter().map(|e| e.name.as_str()).collect();
    assert_eq!(names, vec!["mimetype", "META-INF/container.xml", "OEBPS/ch1.xhtml", "OEBPS/pic.png", "content.opf", "toc.ncx"]);
    let opf = text_of(find(&out, "content.opf"));
    assert!(opf.contains(r#"<item id="resource1" href="OEBPS/pic.png" media-type="image/png"/>"#));
    assert!(!opf.contains("missing.css"));
}

#[test]
fn nested_navigation_points_get_their_own_entries() {
    let nested = entry(
        "OEBPS/toc.ncx",
        r#"<?xml version="1.0"?>
<ncx xmlns="http://www.daisy.org/z3986/2005/ncx/" version="2005-1">
  <docTitle><text>Book</text></docTitle>
  <navMap>
    <navPoint id="n1"><navLabel><text>Chapter One</text></navLabel><content src="ch1.xhtml"/></navPoint>
    <navPoint id="n2"><navLabel><text>Chapter Two</text></navLabel><content src="ch2.xhtml"/>
      <navPoint id="n3"><navLabel><text>Section Two</text></navLabel><content src="ch2.xhtml#s2"/></navPoint>
    </navPoint>
    <navPoint id="n4"><navLabel><text>Chapter Three</text></navLabel><content src="ch3.xhtml"/></navPoint>
  </navMap>
</ncx>"#,
    );
    let mut entries = book(false).entries;
    entries.retain(|e| e.name != "OEBPS/content.opf");
    entries.push(opf(true));
    entries.push(nested);
    let epub = SplitEpub::new(Archive::new(entries)).expect("loads");
    let lines = epub.get_split_lines();
    assert_eq!(lines.len(), 4);
    assert_eq!(lines[1].href, "OEBPS/ch2.xhtml");
    assert_eq!(lines[1].anchor, None);
    assert_eq!(lines[1].toc, vec!["Chapter Two".to_string()]);
    assert_eq!(lines[2].anchor.as_deref(), Some("s2"));
    assert_eq!(lines[2].toc, vec!["Section Two".to_string()]);
    assert_eq!(lines[3].toc, vec!["Chapter Three".to_string()]);
}

#[test]
fn load_errors_name_what_is_missing() {
    let archive = Archive::new(vec![chapter("ch1.xhtml", "x")]);
    match SplitEpub::new(archive) {
        Err(e) => assert_eq!(e.message(), "malformed book: missing file: META-INF/container.xml"),
        Ok(_) => panic!("expected an error"),
    }
    let archive = Archive::new(vec![container()]);
    match SplitEpub::new(archive) {
        Err(EpubError::Structure(m)) => assert_eq!(m, "missing file: OEBPS/content.opf"),
        _ => panic!("expected a structure error"),
    }
    let bad = entry(
        "OEBPS/content.opf",
        r#"<package><metadata/><manifest><item id="c1" href="ch1.xhtml" media-type="application/xhtml+xml"/></manifest><spine><itemref idref="c1"/><itemref idref="nope"/></spine></package>"#,
    );
    match SplitEpub::new(Archive::new(vec![container(), bad, chapter("ch1.xhtml", "x")])) {
        Err(EpubError::Structure(m)) => assert_eq!(m, "spine reference not found in manifest: nope"),
        _ => panic!("expected a structure error"),
    }
}
