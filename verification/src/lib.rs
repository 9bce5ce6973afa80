//! Core of a converter that packages ordered manga page images as a
//! fixed-layout EPUB 3 publication.
//!
//! The library decides everything that can be decided from plain values:
//! page placement in synthetic spreads, validation of bibliographic data and
//! of the table of contents, the order and the format of the input images,
//! the content of every XML document of the package and the layout of the
//! OCF container. Reading files and writing the archive is left to callers.

pub mod build_events;
pub mod config;
pub mod dates;
pub mod documents;
pub mod format;
pub mod headers;
pub mod images;
pub mod locale;
pub mod metadata;
pub mod names;
pub mod natural;
pub mod package;
pub mod pages;
pub mod text;
pub mod toc;
pub mod xml;

pub use documents::{
    generate_documents, DocumentError, GeneratedDocuments, MinimalMetadata, PageDocument,
};
pub use images::{
    ImageCollectionError, ImageDimensions, ImageFormat, InvalidImageReason, SourceImage,
};
pub use locale::{resolve_locale, Locale};
pub use metadata::{AlternateScript, CreatorMetadata, MetadataError, PublicationMetadata};
pub use natural::natural_compare;
pub use package::PackageError;
pub use pages::{
    default_page_placement, resolve_page_placements, PageOverride, PageOverrideError,
    PagePlacement,
};
pub use toc::{validate_toc_entries, TocEntry, TocError};
