use epubsplit::{
    ensure_epub_extension, escape_xml, generate_toc_ncx, get_path_part, guess_media_type, normalize_path,
    parse_container_xml, parse_toc, run, scan_for_linked_files, split_by_section, Archive, ArchiveEntry, EpubError,
    Mode, SplitEpub,
};

fn entry(name: &str, text: &str) -> ArchiveEntry {
    ArchiveEntry { name: name.to_string(), text: Some(text.to_string()), data: text.as_bytes().to_vec() }
}

#[test]
fn normalize_resolves_dots_and_empty_segments() {
    assert_eq!(normalize_path("OEBPS/../a/./b//c.html"), "a/b/c.html");
    assert_eq!(normalize_path("../x.css"), "x.css");
    assert_eq!(normalize_path(""), "");
    assert_eq!(normalize_path("a/b/../../c"), "c");
}

#[test]
fn normalize_decodes_percent_escapes() {
    assert_eq!(normalize_path("Text/My%20Chapter.xhtml"), "Text/My Chapter.xhtml");
    assert_eq!(normalize_path("%41b"), "Ab");
}

#[test]
fn normalize_is_idempotent_on_its_results() {
    for p in ["OEBPS/../a/./b//c.html", "x/y/../z%20w.css", "/abs/./p", "a/b/c"] {
        let once = normalize_path(p);
        assert_eq!(normalize_path(&once), once);
    }
}

#[test]
fn path_part_keeps_the_directory_with_its_slash() {
    assert_eq!(get_path_part("OEBPS/Text/ch1.xhtml"), "OEBPS/Text/");
    assert_eq!(get_path_part("content.opf"), "");
}

#[test]
fn container_names_the_package_document() {
    let xml = r#"<container><rootfiles><rootfile full-path="OPS/book.opf"/></rootfiles></container>"#;
    assert_eq!(parse_container_xml(xml).ok(), Some("OPS/book.opf".to_string()));
    assert!(matches!(parse_container_xml("<container/>"), Err(EpubError::Structure(_))));
}

#[test]
fn navigation_puts_whole_document_entries_first() {
    let xml = r#"<ncx><navMap>
        <navPoint><navLabel><text>Anchored</text></navLabel><content src="Text/a.xhtml#intro"/></navPoint>
        <navPoint><navLabel><text>Whole</text></navLabel><content src="Text/a.xhtml"/></navPoint>
        <navPoint><navLabel><text>Later</text></navLabel><content src="Text/a.xhtml#later"/></navPoint>
    </navMap></ncx>"#;
    let recs = parse_toc(xml, "OEBPS/").expect("parses");
    assert_eq!(recs.len(), 3);
    assert_eq!(recs[0].href, "OEBPS/Text/a.xhtml");
    assert_eq!(recs[0].entry.anchor.as_deref(), Some("intro"));
    let list = epubsplit::nav::toc_entries_for(&recs, &"OEBPS/Text/a.xhtml".to_string());
    let labels: Vec<&str> = list.iter().map(|e| e.text.as_str()).collect();
    assert_eq!(labels, vec!["Whole", "Anchored", "Later"]);
}

#[test]
fn closure_follows_stylesheet_imports() {
    let archive = Archive::new(vec![
        entry("OEBPS/style.css", "@import \"fonts.css\";\nbody { color: black; }"),
        entry("OEBPS/fonts.css", "@font-face { src: url(fonts/a.ttf); }"),
    ]);
    let html = r#"<html><head><link rel="stylesheet" href="style.css" type="text/css"/></head>
        <body><img src="img/cover.png"/><img src="http://example.com/x.png"/></body></html>"#;
    let res = scan_for_linked_files(&html.to_string(), &"OEBPS/ch1.xhtml".to_string(), &archive);
    let mut files: Vec<&str> = res.files.iter().map(|s| s.as_str()).collect();
    files.sort();
    assert_eq!(files, vec!["OEBPS/fonts.css", "OEBPS/fonts/a.ttf", "OEBPS/img/cover.png", "OEBPS/style.css"]);
}

#[test]
fn closure_of_image_and_imported_stylesheet() {
    let archive = Archive::new(vec![
        entry("style.css", "@import \"fonts.css\";"),
        entry("fonts.css", "p { margin: 0; }"),
    ]);
    let html = r#"<link href="style.css" rel="stylesheet"/><img src="img/cover.png"/>"#;
    let res = scan_for_linked_files(&html.to_string(), &"ch.xhtml".to_string(), &archive);
    let mut files: Vec<&str> = res.files.iter().map(|s| s.as_str()).collect();
    files.sort();
    assert_eq!(files, vec!["fonts.css", "img/cover.png", "style.css"]);
}

#[test]
fn closure_skips_comments_data_and_survives_cycles() {
    let archive = Archive::new(vec![
        entry("a.css", "/* @import \"gone.css\"; */ @import url('b.css'); p { background: url(data:image/png;base64,AA); }"),
        entry("b.css", "@import \"a.css\"; q { background: url(\"bg.jpg\"); }"),
    ]);
    let html = r#"<link rel="stylesheet" href="a.css"/>"#;
    let res = scan_for_linked_files(&html.to_string(), &"x.xhtml".to_string(), &archive);
    let mut files: Vec<&str> = res.files.iter().map(|s| s.as_str()).collect();
    files.sort();
    assert_eq!(files, vec!["a.css", "b.css", "bg.jpg"]);
    assert_eq!(res.sheets.len(), 2);
}

#[test]
fn escapes_markup_characters() {
    assert_eq!(escape_xml(r#"a&b<c>"d'"#), "a&amp;b&lt;c&gt;&quot;d&apos;");
    assert_eq!(escape_xml("plain"), "plain");
}

#[test]
fn media_types_follow_extensions() {
    assert_eq!(guess_media_type("s/Style.CSS"), "text/css");
    assert_eq!(guess_media_type("a.jpeg"), "image/jpeg");
    assert_eq!(guess_media_type("a.JPG"), "image/jpeg");
    assert_eq!(guess_media_type("a.png"), "image/png");
    assert_eq!(guess_media_type("a.gif"), "image/gif");
    assert_eq!(guess_media_type("a.svg"), "image/svg+xml");
    assert_eq!(guess_media_type("f.ttf"), "application/x-font-ttf");
    assert_eq!(guess_media_type("f.otf"), "application/vnd.ms-opentype");
    assert_eq!(guess_media_type("f.woff"), "application/font-woff");
    assert_eq!(guess_media_type("f.woff2"), "font/woff2");
    assert_eq!(guess_media_type("f.bin"), "application/octet-stream");
}

#[test]
fn output_names_end_in_epub() {
    assert_eq!(ensure_epub_extension("book"), "book.epub");
    assert_eq!(ensure_epub_extension("book.EPUB"), "book.EPUB");
    assert_eq!(ensure_epub_extension("book.epub"), "book.epub");
}

#[test]
fn modes_follow_the_request() {
    assert!(matches!(run(&vec![], false, 4), Mode::List));
    assert!(matches!(run(&vec![2, 1], false, 4), Mode::Extract(v) if v == vec![2, 1]));
    assert!(matches!(run(&vec![], true, 3), Mode::SplitBySection(v) if v == vec![0, 1, 2]));
    assert!(matches!(run(&vec![3], true, 4), Mode::SplitBySection(v) if v == vec![3]));
}

#[test]
fn navigation_document_numbers_points_from_one() {
    let ncx = generate_toc_ncx("u&1", "T", &vec![("A".to_string(), "a.xhtml".to_string()), ("B".to_string(), "b.xhtml#x".to_string())]);
    assert!(ncx.contains(r#"<meta name="dtb:uid" content="u&amp;1"/>"#));
    assert!(ncx.contains(r#"<navPoint id="navpoint-2" playOrder="2">"#));
    assert!(ncx.contains(r#"<content src="b.xhtml#x"/>"#));
}

#[test]
fn sections_start_at_labelled_points() {
    let opf = r#"<package><metadata><dc:title>B</dc:title></metadata><manifest>
        <item id="a" href="a.xhtml" media-type="application/xhtml+xml"/>
        <item id="b" href="b.xhtml" media-type="application/xhtml+xml"/>
        <item id="c" href="c.xhtml" media-type="application/xhtml+xml"/>
        <item id="n" href="toc.ncx" media-type="application/x-dtbncx+xml"/>
        </manifest><spine><itemref idref="a"/><itemref idref="b"/><itemref idref="c"/></spine></package>"#;
    let ncx = r#"<ncx><navMap>
        <navPoint><navLabel><text>First</text></navLabel><content src="a.xhtml"/></navPoint>
        <navPoint><navLabel><text>Third</text></navLabel><content src="c.xhtml"/></navPoint>
        </navMap></ncx>"#;
    let archive = Archive::new(vec![
        entry("META-INF/container.xml", r#"<container><rootfiles><rootfile full-path="content.opf"/></rootfiles></container>"#),
        entry("content.opf", opf),
        entry("toc.ncx", ncx),
        entry("a.xhtml", "a"),
        entry("b.xhtml", "b"),
        entry("c.xhtml", "c"),
    ]);
    let epub = SplitEpub::new(archive).expect("loads");
    let groups = split_by_section(epub.get_split_lines(), &vec![0, 1, 2], &"B Split".to_string()).expect("groups");
    assert_eq!(groups, vec![(vec![0, 1], "First".to_string()), (vec![2], "Third".to_string())]);
    assert!(matches!(
        split_by_section(epub.get_split_lines(), &vec![7], &"B Split".to_string()),
        Err(EpubError::IndexOutOfRange { index: 7, available: 3 })
    ));
}

#[test]
fn stray_percent_signs_are_kept() {
    assert_eq!(normalize_path("a/100%/b%zz"), "a/100%/b%zz");
    let once = normalize_path("x/../100%25done");
    assert_eq!(once, "100%done");
    assert_eq!(normalize_path(&once), once);
}

#[test]
fn nested_points_keep_their_labels_and_order() {
    let xml = r#"<ncx><navMap>
        <navPoint><navLabel><text>Part</text></navLabel><content src="p.xhtml"/>
          <navPoint><navLabel><text>Inner</text></navLabel><content src="p.xhtml#i"/>
            <navPoint><navLabel><text>Deep</text></navLabel><content src="q.xhtml"/></navPoint>
          </navPoint>
        </navPoint>
    </navMap></ncx>"#;
    let recs = parse_toc(xml, "").expect("parses");
    let got: Vec<(&str, &str, Option<&str>)> =
        recs.iter().map(|r| (r.href.as_str(), r.entry.text.as_str(), r.entry.anchor.as_deref())).collect();
    assert_eq!(got, vec![("p.xhtml", "Part", None), ("p.xhtml", "Inner", Some("i")), ("q.xhtml", "Deep", None)]);
}

#[test]
fn labels_are_trimmed_of_unicode_white_space() {
    let xml = "<ncx><navMap><navPoint><navLabel><text>\u{a0}\u{3000}Title One\u{2003}</text></navLabel><content src=\"a.xhtml\"/></navPoint></navMap></ncx>";
    let recs = parse_toc(xml, "").expect("parses");
    assert_eq!(recs[0].entry.text, "Title One");
}
