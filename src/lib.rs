use vstd::prelude::*;

pub mod archive;
pub mod cli;
pub mod epub;
pub mod error;
pub mod generate;
pub mod laws;
pub mod nav;
pub mod package;
pub mod path;
pub mod scan;
pub mod split;
pub mod text;
pub mod xml;

pub use archive::{Archive, ArchiveEntry};
pub use cli::{ensure_epub_extension, run, split_by_section, Mode};
pub use epub::{EntryData, OutputEntry, SplitEpub};
pub use error::EpubError;
pub use generate::{escape_xml, generate_toc_ncx, guess_media_type};
pub use nav::{parse_toc, TocEntry, TocRecord};
pub use package::{parse_container_xml, parse_manifest, parse_metadata, parse_spine, ManifestItem};
pub use path::{get_path_part, normalize_path};
pub use scan::{scan_for_linked_files, Resources};
pub use split::SplitLine;

verus! {

} // verus!
