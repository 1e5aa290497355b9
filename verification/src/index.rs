//! What one indexing task computes for one file, once the file has been
//! read: its class, and for a text file the items of its lines.
//!
//! Directories are walked, not indexed. A file is text by its extension. A
//! text file that starts with the VimCrypt magic is decrypted first,
//! provided a password was supplied for the run; without a password every
//! text file is indexed as it is. Every other file becomes a single item
//! that carries its path.

use crate::cipher::{
    decrypt, decrypt_file, has_magic_prefix, lemma_round_trip, magic_prefix, starts_with_magic,
    zip_file, DecryptError,
};
use crate::extract::{
    extract, extract_records, lemma_records_are_single_lines, lemma_records_follow_lines,
    records_of_lines, split_lines,
};
use crate::record::{item_views, record_views, Item, ItemView, Origin, OriginView, Record, RecordView};
use crate::text::{single_line, str_eq, text_of};
use vstd::prelude::*;
use vstd::string::StringExecFns;

verus! {

/// How a file enters the index.
#[derive(Clone, Copy, Debug, PartialEq, Eq)]
pub enum FileClass {
    /// Line by line.
    Text,
    /// By its path alone.
    Opaque,
}

/// The class of what the traversal found: none for a directory, and for a
/// file the class that the extension of its name gives it, where `md` and
/// `txt` are text.
pub open spec fn class_of(is_directory: bool, extension: Option<Seq<char>>) -> Option<FileClass> {
    if is_directory {
        None
    } else {
        match extension {
            Some(e) => if e == "md"@ || e == "txt"@ {
                Some(FileClass::Text)
            } else {
                Some(FileClass::Opaque)
            },
            None => Some(FileClass::Opaque),
        }
    }
}

/// Classifies an entry of the traversal, or returns `None` for an entry
/// that is not indexed.
pub fn classify(is_directory: bool, extension: Option<&str>) -> (class: Option<FileClass>)
    ensures
        class == class_of(is_directory, text_of(extension)),
{
    if is_directory {
        return None;
    }
    match extension {
        Some(e) => {
            if str_eq(e, "md") || str_eq(e, "txt") {
                Some(FileClass::Text)
            } else {
                Some(FileClass::Opaque)
            }
        },
        None => Some(FileClass::Opaque),
    }
}

/// The records of a file as items, one for one.
pub open spec fn lines_as_items(records: Seq<RecordView>) -> Seq<ItemView> {
    records.map_values(|record: RecordView| ItemView::Line(record))
}

/// The items of the text file at `path` that holds `content`.
pub open spec fn text_items(
    path: Seq<char>,
    password: Option<Seq<char>>,
    content: Seq<u8>,
) -> Result<Seq<ItemView>, DecryptError> {
    match password {
        Some(pw) => if has_magic_prefix(content) {
            match decrypt_file(content, pw) {
                Ok(plain) => Ok(lines_as_items(extract(path, OriginView::Encrypted(pw), plain))),
                Err(e) => Err(e),
            }
        } else {
            Ok(lines_as_items(extract(path, OriginView::Plain, content)))
        },
        None => Ok(lines_as_items(extract(path, OriginView::Plain, content))),
    }
}

fn into_items(records: Vec<Record>) -> (items: Vec<Item>)
    ensures
        item_views(items@) == lines_as_items(record_views(records@)),
{
    let ghost all = records@;
    let mut items: Vec<Item> = Vec::new();
    proof {
        assert(item_views(items@) =~= lines_as_items(record_views(all.take(0))));
    }
    for record in it: records
        invariant
            it.seq() == all,
            item_views(items@) == lines_as_items(record_views(all.take(it.index()))),
    {
        let ghost before = item_views(items@);
        items.push(Item::Line(record));
        proof {
            let i = it.index();
            assert(all.take(i + 1) =~= all.take(i).push(record));
            assert(item_views(items@) =~= before.push(ItemView::Line(record@)));
            assert(lines_as_items(record_views(all.take(i + 1))) =~= before.push(
                ItemView::Line(record@),
            ));
        }
    }
    proof {
        assert(all.take(all.len() as int) =~= all);
    }
    items
}

/// Indexes the text file at `path` from its raw content. With a password,
/// content that starts with the VimCrypt magic is decrypted before its
/// lines are read, and a header that cannot be decoded fails the file.
pub fn index_text(path: &str, password: Option<&str>, content: &[u8]) -> (r: Result<
    Vec<Item>,
    DecryptError,
>)
    ensures
        match text_items(path@, text_of(password), content@) {
            Ok(items) => r is Ok && item_views(r->Ok_0@) == items,
            Err(e) => r == Err::<Vec<Item>, DecryptError>(e),
        },
{
    match password {
        Some(pw) => {
            if starts_with_magic(content) {
                match decrypt(content, pw) {
                    Ok(plain) => {
                        let origin = Origin::Encrypted(String::from_str(pw));
                        Ok(into_items(extract_records(path, &origin, plain.as_slice())))
                    },
                    Err(e) => Err(e),
                }
            } else {
                Ok(into_items(extract_records(path, &Origin::Plain, content)))
            }
        },
        None => Ok(into_items(extract_records(path, &Origin::Plain, content))),
    }
}

/// The items of a text file whose path is a single line are shown on one
/// line each.
pub proof fn lemma_text_items_are_one_line(
    path: Seq<char>,
    password: Option<Seq<char>>,
    content: Seq<u8>,
)
    requires
        single_line(path),
    ensures
        text_items(path, password, content) matches Ok(items) ==> forall|i: int|
            0 <= i < items.len() ==> (#[trigger] items[i]).one_line(),
{
    match text_items(path, password, content) {
        Ok(items) => {
            let (origin, plain) = match password {
                Some(pw) => if has_magic_prefix(content) {
                    (OriginView::Encrypted(pw), decrypt_file(content, pw)->Ok_0)
                } else {
                    (OriginView::Plain, content)
                },
                None => (OriginView::Plain, content),
            };
            let records = extract(path, origin, plain);
            assert(items == lines_as_items(records));
            lemma_records_are_single_lines(path, origin, plain);
            lemma_records_follow_lines(path, origin, plain);
            assert forall|i: int| 0 <= i < items.len() implies (#[trigger] items[i]).one_line() by {
                assert(items[i] == ItemView::Line(records[i]));
            }
        },
        Err(_) => {},
    }
}

/// An encrypted file is indexed like its plaintext. For every plaintext,
/// path and password, the items of the VimCrypt file that holds the
/// plaintext are the items of the plaintext itself, line for line, but for
/// the origin they record.
pub proof fn lemma_encrypted_file_indexes_like_plaintext(
    path: Seq<char>,
    password: Seq<char>,
    plain: Seq<u8>,
)
    ensures
        text_items(path, Some(password), zip_file(plain, password)) == Ok::<
            Seq<ItemView>,
            DecryptError,
        >(lines_as_items(extract(path, OriginView::Encrypted(password), plain))),
        extract(path, OriginView::Encrypted(password), plain).len() == extract(
            path,
            OriginView::Plain,
            plain,
        ).len(),
        forall|k: int|
            0 <= k < extract(path, OriginView::Plain, plain).len() ==> {
                let there = #[trigger] extract(path, OriginView::Encrypted(password), plain)[k];
                let here = extract(path, OriginView::Plain, plain)[k];
                &&& there.line_number == here.line_number
                &&& there.text == here.text
                &&& there.source_path == here.source_path
            },
{
    let file = zip_file(plain, password);
    lemma_round_trip(plain, password);
    assert(file.take(9) =~= magic_prefix());
    lemma_origin_is_carried(
        path,
        OriginView::Encrypted(password),
        OriginView::Plain,
        split_lines(plain),
    );
}

proof fn lemma_origin_is_carried(
    path: Seq<char>,
    one: OriginView,
    other: OriginView,
    lines: Seq<Seq<u8>>,
)
    ensures
        records_of_lines(path, one, lines).len() == records_of_lines(path, other, lines).len(),
        forall|k: int|
            0 <= k < records_of_lines(path, one, lines).len() ==> {
                let there = #[trigger] records_of_lines(path, one, lines)[k];
                let here = records_of_lines(path, other, lines)[k];
                &&& there.line_number == here.line_number
                &&& there.text == here.text
                &&& there.source_path == here.source_path
            },
    decreases lines.len(),
{
    if lines.len() > 0 {
        lemma_origin_is_carried(path, one, other, lines.drop_last());
    }
}

} // verus!
