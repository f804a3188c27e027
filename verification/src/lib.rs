//! A dictionary in semi-HTML markup: its entries located in a document, each
//! parsed into a typed tag tree, and the tree written back as the markup it
//! was read from.
//!
//! The core is the cursor over a document ([`cursor`], on top of [`locate`]),
//! the tag parser ([`parser`], which reads what [`grammar`] defines), the
//! tree and its markup ([`tags`]) and the word normalizer ([`words`]).
//! [`roundtrip`] and [`document`] state and prove what ties them together:
//! an entry that was parsed is written back character for character, and a
//! document put together again from what the cursor yields is the document.
//!
//! Around the core stand the tools for the other editions of the dictionary's
//! text: decoding and line ends ([`dos`]), escapes ([`unescape`]), position
//! anchors ([`anchors`]), headword lists ([`headwords`]), and the repairs in
//! [`small_words`], [`doubled`] and [`refs`].

pub mod anchors;
pub mod cursor;
pub mod decimal;
pub mod document;
pub mod dos;
pub mod doubled;
pub mod grammar;
pub mod headwords;
pub mod hex;
pub mod links;
pub mod locate;
pub mod parser;
pub mod raw;
pub mod refs;
pub mod roundtrip;
pub mod small_words;
pub mod tags;
pub mod text;
pub mod unescape;
pub mod unicode_list;
pub mod words;

pub use cursor::Parser;
pub use document::reassemble;
pub use parser::{is_gram_marker, parse_entry, toc_link};
pub use raw::RawEntry;
pub use tags::{EntryTag, ParaTag, SimpleTag, TaggedEntry};
pub use words::{strip_stress, to_id, word_to_ascii};
