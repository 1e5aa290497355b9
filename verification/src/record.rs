//! What the selector is shown: one record per indexed line, one per file
//! that is not text, and the line of text that stands for each.

use crate::text::{
    blank, decimal, lemma_decimal_digits, lemma_encode_line_feeds, no_line_feed, push_decimal,
    single_line,
};
use vstd::prelude::*;
use vstd::slice::slice_to_vec;
use vstd::string::StringExecFns;
use vstd::utf8::encode_utf8;

verus! {

/// How the content of a record's file is obtained for display.
#[derive(Debug, PartialEq, Eq)]
pub enum Origin {
    /// The file is read as it is.
    Plain,
    /// The file is a VimCrypt file, decrypted with this password.
    Encrypted(String),
}

/// Mathematical value of an [`Origin`].
pub enum OriginView {
    Plain,
    Encrypted(Seq<char>),
}

impl View for Origin {
    type V = OriginView;

    open spec fn view(&self) -> OriginView {
        match self {
            Origin::Plain => OriginView::Plain,
            Origin::Encrypted(password) => OriginView::Encrypted(password@),
        }
    }
}

impl Clone for Origin {
    fn clone(&self) -> (r: Origin)
        ensures
            r@ == self@,
    {
        match self {
            Origin::Plain => Origin::Plain,
            Origin::Encrypted(password) => Origin::Encrypted(password.clone()),
        }
    }
}

/// One line of a text file that is not blank.
#[derive(Debug, PartialEq, Eq)]
pub struct Record {
    /// Path of the file the line was read from.
    pub source_path: String,
    /// Zero-based position of the line in the decoded content of the file.
    pub line_number: usize,
    /// The line, without its terminator.
    pub text: String,
    /// How the file was decoded.
    pub origin: Origin,
}

/// Mathematical value of a [`Record`].
pub struct RecordView {
    pub source_path: Seq<char>,
    pub line_number: nat,
    pub text: Seq<char>,
    pub origin: OriginView,
}

impl RecordView {
    /// A record stands for a line that has something on it.
    pub open spec fn wf(self) -> bool {
        !blank(self.text)
    }

    /// The one-based number under which editors and the selector know the
    /// line.
    pub open spec fn display_number(self) -> nat {
        self.line_number + 1
    }
}

impl View for Record {
    type V = RecordView;

    open spec fn view(&self) -> RecordView {
        RecordView {
            source_path: self.source_path@,
            line_number: self.line_number as nat,
            text: self.text@,
            origin: self.origin@,
        }
    }
}

impl Clone for Record {
    fn clone(&self) -> (r: Record)
        ensures
            r@ == self@,
    {
        Record {
            source_path: self.source_path.clone(),
            line_number: self.line_number,
            text: self.text.clone(),
            origin: self.origin.clone(),
        }
    }
}

/// A file that is listed by its path alone.
#[derive(Debug, PartialEq, Eq)]
pub struct OpaqueRecord {
    /// Path of the file.
    pub source_path: String,
}

/// Mathematical value of an [`OpaqueRecord`].
pub struct OpaqueRecordView {
    pub source_path: Seq<char>,
}

impl View for OpaqueRecord {
    type V = OpaqueRecordView;

    open spec fn view(&self) -> OpaqueRecordView {
        OpaqueRecordView { source_path: self.source_path@ }
    }
}

impl Clone for OpaqueRecord {
    fn clone(&self) -> (r: OpaqueRecord)
        ensures
            r@ == self@,
    {
        OpaqueRecord { source_path: self.source_path.clone() }
    }
}

/// An entry of the index.
#[derive(Debug, PartialEq, Eq)]
pub enum Item {
    /// A line of a text file.
    Line(Record),
    /// A file that is not indexed by line.
    Opaque(OpaqueRecord),
}

/// Mathematical value of an [`Item`].
pub enum ItemView {
    Line(RecordView),
    Opaque(OpaqueRecordView),
}

impl ItemView {
    /// Path of the file the item belongs to.
    pub open spec fn path(self) -> Seq<char> {
        match self {
            ItemView::Line(record) => record.source_path,
            ItemView::Opaque(file) => file.source_path,
        }
    }

    /// The text that stands for the item: `path:number:text` for a line,
    /// with the one-based line number in decimal, and the bare path for a
    /// file.
    pub open spec fn display(self) -> Seq<char> {
        match self {
            ItemView::Line(record) => record.source_path + seq![':'] + decimal(
                record.display_number(),
            ) + seq![':'] + record.text,
            ItemView::Opaque(file) => file.source_path,
        }
    }

    /// The item as it goes over the wire to the selector: the UTF-8
    /// encoding of its text, closed by a line feed.
    pub open spec fn wire_line(self) -> Seq<u8> {
        encode_utf8(self.display()).push(0x0au8)
    }

    /// The item is shown on one line: neither its path nor, for a line,
    /// its text holds a line feed.
    pub open spec fn one_line(self) -> bool {
        match self {
            ItemView::Line(record) => single_line(record.source_path) && single_line(record.text),
            ItemView::Opaque(file) => single_line(file.source_path),
        }
    }
}

/// The wire line of an item that is shown on one line is one line: the
/// line feed that closes it is the only one in it.
pub proof fn lemma_wire_line_is_one_line(item: ItemView)
    requires
        item.one_line(),
    ensures
        single_line(item.display()),
        item.wire_line().len() >= 1,
        item.wire_line().last() == 0x0au8,
        no_line_feed(item.wire_line().drop_last()),
{
    match item {
        ItemView::Line(record) => {
            lemma_decimal_digits(record.display_number());
            let number = decimal(record.display_number());
            let shown = item.display();
            assert forall|i: int| 0 <= i < shown.len() implies shown[i] != '\n' by {
                let a = record.source_path.len();
                let b = a + 1;
                let c = b + number.len();
                let d = c + 1;
                if i < a {
                    assert(shown[i] == record.source_path[i]);
                } else if i < b {
                    assert(shown[i] == ':');
                } else if i < c {
                    assert(shown[i] == number[i - b]);
                } else if i < d {
                    assert(shown[i] == ':');
                } else {
                    assert(shown[i] == record.text[i - d]);
                }
            }
        },
        ItemView::Opaque(file) => {},
    }
    lemma_encode_line_feeds(item.display());
    assert(item.wire_line().drop_last() =~= encode_utf8(item.display()));
}

impl View for Item {
    type V = ItemView;

    open spec fn view(&self) -> ItemView {
        match self {
            Item::Line(record) => ItemView::Line(record@),
            Item::Opaque(file) => ItemView::Opaque(file@),
        }
    }
}

impl Clone for Item {
    fn clone(&self) -> (r: Item)
        ensures
            r@ == self@,
    {
        match self {
            Item::Line(record) => Item::Line(record.clone()),
            Item::Opaque(file) => Item::Opaque(file.clone()),
        }
    }
}

/// Views of the items of a sequence, one for one.
pub open spec fn item_views(items: Seq<Item>) -> Seq<ItemView> {
    items.map_values(|item: Item| item@)
}

/// Views of the records of a sequence, one for one.
pub open spec fn record_views(records: Seq<Record>) -> Seq<RecordView> {
    records.map_values(|record: Record| record@)
}

impl Record {
    /// Renders the record as `path:number:text`.
    pub fn render(&self) -> (s: String)
        ensures
            s@ == ItemView::Line(self@).display(),
    {
        proof {
            reveal_strlit(":");
        }
        let mut s = String::from_str(self.source_path.as_str());
        s.append(":");
        push_decimal(&mut s, self.line_number as u128 + 1);
        s.append(":");
        s.append(self.text.as_str());
        assert(s@ =~= ItemView::Line(self@).display());
        s
    }
}

impl Item {
    /// An item for the file at `path`, listed by its path alone.
    pub fn opaque(path: &str) -> (item: Item)
        ensures
            item@ == ItemView::Opaque(OpaqueRecordView { source_path: path@ }),
    {
        Item::Opaque(OpaqueRecord { source_path: String::from_str(path) })
    }

    /// Path of the file the item belongs to.
    pub fn path(&self) -> (p: &str)
        ensures
            p@ == self@.path(),
    {
        match self {
            Item::Line(record) => record.source_path.as_str(),
            Item::Opaque(file) => file.source_path.as_str(),
        }
    }

    /// Renders the text that stands for the item.
    pub fn render(&self) -> (s: String)
        ensures
            s@ == self@.display(),
    {
        match self {
            Item::Line(record) => record.render(),
            Item::Opaque(file) => String::from_str(file.source_path.as_str()),
        }
    }

    /// Serialises the item for the selector.
    pub fn wire_line(&self) -> (bytes: Vec<u8>)
        ensures
            bytes@ == self@.wire_line(),
    {
        let text = self.render();
        let mut bytes = slice_to_vec(text.as_str().as_bytes());
        bytes.push(0x0a);
        bytes
    }
}

} // verus!
