//! From the selector's answer to what is to be done: the entry of the
//! mirror that backs the chosen line, the mode the accept key asks for, the
//! action that the two amount to, and the text to print where the action
//! is to print a file. [`decide`] goes the whole way.

use crate::adaptor::{accepts, lemma_accepts, wire_stream, AdaptorView};
use crate::cipher::{decrypt, decrypt_file, DecryptError};
use crate::record::{item_views, Item, ItemView, Origin, OriginView};
use crate::text::{decimal, decode, push_decimal, str_eq, text_of};
use vstd::prelude::*;
use vstd::string::StringExecFns;
use vstd::utf8::{decode_utf8, valid_utf8};

verus! {

// ---------------------------------------------------------------------------
// Resolution
// ---------------------------------------------------------------------------

/// Why a selection could not be resolved.
#[derive(Clone, Copy, Debug, PartialEq, Eq)]
pub enum ResolveError {
    /// The selector reported a position that the mirror does not reach.
    IndexOutOfRange {
        /// The position that was reported.
        index: usize,
        /// Number of entries in the mirror.
        available: usize,
    },
}

/// The entry of `mirror` that backs the line at the zero-based position
/// `index`, if the mirror reaches that far.
pub open spec fn resolved(mirror: Seq<ItemView>, index: nat) -> Option<ItemView> {
    if index < mirror.len() {
        Some(mirror[index as int])
    } else {
        None
    }
}

impl ResolveError {
    /// The error in words.
    pub open spec fn text(self) -> Seq<char> {
        match self {
            ResolveError::IndexOutOfRange { index, available } => "Selected line "@ + decimal(
                index as nat,
            ) + " of "@ + decimal(available as nat) + " that were handed out."@,
        }
    }

    /// Says in words what went wrong.
    pub fn message(&self) -> (s: String)
        ensures
            s@ == self.text(),
    {
        match self {
            ResolveError::IndexOutOfRange { index, available } => {
                let mut s = String::from_str("Selected line ");
                push_decimal(&mut s, *index as u128);
                s.append(" of ");
                push_decimal(&mut s, *available as u128);
                s.append(" that were handed out.");
                s
            },
        }
    }
}

/// Returns the entry of `mirror` at `index`, the zero-based position of the
/// chosen line among the lines that were handed out.
pub fn resolve(mirror: Vec<Item>, index: usize) -> (r: Result<Item, ResolveError>)
    ensures
        match resolved(item_views(mirror@), index as nat) {
            Some(item) => r is Ok && r->Ok_0@ == item,
            None => r == Err::<Item, ResolveError>(
                ResolveError::IndexOutOfRange { index, available: mirror@.len() as usize },
            ),
        },
{
    let mut mirror = mirror;
    if index < mirror.len() {
        Ok(mirror.swap_remove(index))
    } else {
        Err(ResolveError::IndexOutOfRange { index, available: mirror.len() })
    }
}

/// Order is kept from the queue to the selection. When a fresh adaptor
/// accepts `items` one after the other, the bytes it hands out are the
/// wire lines of the items in that order, and the line at position `index`
/// resolves to the item at position `index`.
pub proof fn lemma_selection_resolves_to_its_item(items: Seq<ItemView>, index: nat)
    requires
        index < items.len(),
    ensures
        AdaptorView::fresh().run(accepts(items)).read(wire_stream(items).len()) == wire_stream(
            items,
        ),
        resolved(AdaptorView::fresh().run(accepts(items)).mirror, index) == Some(
            items[index as int],
        ),
{
    lemma_accepts(items);
}

// ---------------------------------------------------------------------------
// Modes
// ---------------------------------------------------------------------------

/// What the user asked for when accepting a line.
#[derive(Clone, Copy, Debug, PartialEq, Eq)]
pub enum ExitMode {
    /// Create a new note.
    CreateNew,
    /// Reveal the file in the file manager.
    Show,
    /// Open the item for editing.
    Open,
    /// Display the item's content.
    Cat,
}

/// The mode that an accept key stands for: `ctrl-n`, `ctrl-s` and `ctrl-o`
/// for the three special modes, no key or the empty key for [`ExitMode::Cat`].
pub open spec fn mode_of(accept_key: Option<Seq<char>>) -> Option<ExitMode> {
    match accept_key {
        None => Some(ExitMode::Cat),
        Some(key) => if key == ""@ {
            Some(ExitMode::Cat)
        } else if key == "ctrl-n"@ {
            Some(ExitMode::CreateNew)
        } else if key == "ctrl-s"@ {
            Some(ExitMode::Show)
        } else if key == "ctrl-o"@ {
            Some(ExitMode::Open)
        } else {
            None
        },
    }
}

/// Reads the mode out of the key that accepted the selection, or returns
/// `None` for a key that stands for no mode.
pub fn exit_mode(accept_key: Option<&str>) -> (mode: Option<ExitMode>)
    ensures
        mode == mode_of(text_of(accept_key)),
{
    match accept_key {
        None => Some(ExitMode::Cat),
        Some(key) => {
            if str_eq(key, "") {
                Some(ExitMode::Cat)
            } else if str_eq(key, "ctrl-n") {
                Some(ExitMode::CreateNew)
            } else if str_eq(key, "ctrl-s") {
                Some(ExitMode::Show)
            } else if str_eq(key, "ctrl-o") {
                Some(ExitMode::Open)
            } else {
                None
            }
        },
    }
}

// ---------------------------------------------------------------------------
// Actions
// ---------------------------------------------------------------------------

/// What is to be done with the chosen item.
#[derive(Debug, PartialEq, Eq)]
pub enum Action {
    /// Create a new note.
    CreateNew,
    /// Reveal the file at `path` in the file manager.
    Reveal { path: String },
    /// Print `path` on a line of its own.
    PrintPath { path: String },
    /// Hand the file at `path` to the desktop's opener.
    Launch { path: String },
    /// Open the file at `path` in the editor, at the line with the
    /// zero-based number `line_number`.
    Edit { path: String, line_number: usize },
    /// Print the content of the file at `path`, decoded as `origin` says.
    PrintContent { path: String, origin: Origin },
}

/// Mathematical value of an [`Action`].
pub enum ActionView {
    CreateNew,
    Reveal { path: Seq<char> },
    PrintPath { path: Seq<char> },
    Launch { path: Seq<char> },
    Edit { path: Seq<char>, line_number: nat },
    PrintContent { path: Seq<char>, origin: OriginView },
}

impl View for Action {
    type V = ActionView;

    open spec fn view(&self) -> ActionView {
        match self {
            Action::CreateNew => ActionView::CreateNew,
            Action::Reveal { path } => ActionView::Reveal { path: path@ },
            Action::PrintPath { path } => ActionView::PrintPath { path: path@ },
            Action::Launch { path } => ActionView::Launch { path: path@ },
            Action::Edit { path, line_number } => ActionView::Edit {
                path: path@,
                line_number: *line_number as nat,
            },
            Action::PrintContent { path, origin } => ActionView::PrintContent {
                path: path@,
                origin: origin@,
            },
        }
    }
}

/// The action that `mode` asks for on `item`. Revealing goes by the path
/// alone. Opening a line means editing its file at that line, and opening a
/// file that is not text means printing its path; displaying a line means
/// printing the content of its file, and displaying a file that is not
/// text means handing it to the desktop's opener.
pub open spec fn action_of(item: ItemView, mode: ExitMode) -> ActionView {
    match mode {
        ExitMode::CreateNew => ActionView::CreateNew,
        ExitMode::Show => ActionView::Reveal { path: item.path() },
        ExitMode::Open => match item {
            ItemView::Line(record) => ActionView::Edit {
                path: record.source_path,
                line_number: record.line_number,
            },
            ItemView::Opaque(file) => ActionView::PrintPath { path: file.source_path },
        },
        ExitMode::Cat => match item {
            ItemView::Line(record) => ActionView::PrintContent {
                path: record.source_path,
                origin: record.origin,
            },
            ItemView::Opaque(file) => ActionView::Launch { path: file.source_path },
        },
    }
}

/// Decides what is to be done with `item` under `mode`.
pub fn action_for(item: &Item, mode: ExitMode) -> (action: Action)
    ensures
        action@ == action_of(item@, mode),
{
    match mode {
        ExitMode::CreateNew => Action::CreateNew,
        ExitMode::Show => Action::Reveal { path: String::from_str(item.path()) },
        ExitMode::Open => match item {
            Item::Line(record) => Action::Edit {
                path: record.source_path.clone(),
                line_number: record.line_number,
            },
            Item::Opaque(file) => Action::PrintPath { path: file.source_path.clone() },
        },
        ExitMode::Cat => match item {
            Item::Line(record) => Action::PrintContent {
                path: record.source_path.clone(),
                origin: record.origin.clone(),
            },
            Item::Opaque(file) => Action::Launch { path: file.source_path.clone() },
        },
    }
}

// ---------------------------------------------------------------------------
// Decision
// ---------------------------------------------------------------------------

/// What the selector reports when it returns.
#[derive(Clone, Debug, PartialEq, Eq)]
pub struct Selection {
    /// The key that accepted the selection, if a bound key did.
    pub accept_key: Option<String>,
    /// Zero-based position of the chosen line among the lines that the
    /// selector was shown, if a line was chosen.
    pub index: Option<usize>,
}

/// Mathematical value of a [`Selection`].
pub struct SelectionView {
    pub accept_key: Option<Seq<char>>,
    pub index: Option<nat>,
}

impl View for Selection {
    type V = SelectionView;

    open spec fn view(&self) -> SelectionView {
        SelectionView {
            accept_key: match self.accept_key {
                Some(key) => Some(key@),
                None => None,
            },
            index: match self.index {
                Some(index) => Some(index as nat),
                None => None,
            },
        }
    }
}

/// Why a selection led to no action.
#[derive(Clone, Copy, Debug, PartialEq, Eq)]
pub enum SelectError {
    /// The selection was accepted with a key that stands for no mode.
    UnknownKey,
    /// The selector reported a position that the mirror does not reach.
    IndexOutOfRange,
}

impl SelectError {
    /// The error in words.
    pub open spec fn text(self) -> Seq<char> {
        match self {
            SelectError::UnknownKey => "The selection was accepted with an unexpected key."@,
            SelectError::IndexOutOfRange => "The selected line was never handed out."@,
        }
    }

    /// Says in words what went wrong.
    pub fn message(&self) -> (s: String)
        ensures
            s@ == self.text(),
    {
        match self {
            SelectError::UnknownKey => String::from_str(
                "The selection was accepted with an unexpected key.",
            ),
            SelectError::IndexOutOfRange => String::from_str(
                "The selected line was never handed out.",
            ),
        }
    }
}

/// What a selection amounts to, given the mirror of what the selector was
/// shown: an error for a key that stands for no mode, nothing where no line
/// was chosen, an error for a position that the mirror does not reach, and
/// else the action that the mode asks for on the entry at the position.
pub open spec fn decision(selection: SelectionView, mirror: Seq<ItemView>) -> Result<
    Option<ActionView>,
    SelectError,
> {
    match mode_of(selection.accept_key) {
        None => Err(SelectError::UnknownKey),
        Some(mode) => match selection.index {
            None => Ok(None),
            Some(index) => match resolved(mirror, index) {
                None => Err(SelectError::IndexOutOfRange),
                Some(item) => Ok(Some(action_of(item, mode))),
            },
        },
    }
}

/// Decides what is to be done about `selection`.
pub fn decide(selection: &Selection, mirror: Vec<Item>) -> (r: Result<Option<Action>, SelectError>)
    ensures
        match decision(selection@, item_views(mirror@)) {
            Err(e) => r == Err::<Option<Action>, SelectError>(e),
            Ok(None) => r == Ok::<Option<Action>, SelectError>(None),
            Ok(Some(action)) => r matches Ok(Some(a)) && a@ == action,
        },
{
    let key = match &selection.accept_key {
        Some(key) => Some(key.as_str()),
        None => None,
    };
    let mode = match exit_mode(key) {
        Some(mode) => mode,
        None => return Err(SelectError::UnknownKey),
    };
    let index = match selection.index {
        Some(index) => index,
        None => return Ok(None),
    };
    match resolve(mirror, index) {
        Ok(item) => Ok(Some(action_for(&item, mode))),
        Err(_) => Err(SelectError::IndexOutOfRange),
    }
}

// ---------------------------------------------------------------------------
// Content
// ---------------------------------------------------------------------------

/// Why the content of a file could not be displayed.
#[derive(Clone, Copy, Debug, PartialEq, Eq)]
pub enum ContentError {
    /// The file could not be decrypted.
    Decrypt(DecryptError),
    /// The content is not UTF-8.
    NotText,
}

impl ContentError {
    /// The error in words.
    pub open spec fn text(self) -> Seq<char> {
        match self {
            ContentError::Decrypt(e) => e.text(),
            ContentError::NotText => "The content is not valid UTF-8."@,
        }
    }

    /// Says in words what went wrong.
    pub fn message(&self) -> (s: String)
        ensures
            s@ == self.text(),
    {
        match self {
            ContentError::Decrypt(e) => e.message(),
            ContentError::NotText => String::from_str("The content is not valid UTF-8."),
        }
    }
}

/// The text of a file that holds `raw`, decoded as `origin` says.
pub open spec fn content_text(origin: OriginView, raw: Seq<u8>) -> Result<Seq<char>, ContentError> {
    match origin {
        OriginView::Plain => if valid_utf8(raw) {
            Ok(decode_utf8(raw))
        } else {
            Err(ContentError::NotText)
        },
        OriginView::Encrypted(password) => match decrypt_file(raw, password) {
            Err(e) => Err(ContentError::Decrypt(e)),
            Ok(plain) => if valid_utf8(plain) {
                Ok(decode_utf8(plain))
            } else {
                Err(ContentError::NotText)
            },
        },
    }
}

/// Decodes the raw content of a record's file for display.
pub fn display_content(origin: &Origin, raw: &[u8]) -> (r: Result<String, ContentError>)
    ensures
        match content_text(origin@, raw@) {
            Ok(text) => r is Ok && r->Ok_0@ == text,
            Err(e) => r == Err::<String, ContentError>(e),
        },
{
    match origin {
        Origin::Plain => match decode(raw) {
            Some(text) => Ok(text),
            None => Err(ContentError::NotText),
        },
        Origin::Encrypted(password) => match decrypt(raw, password.as_str()) {
            Err(e) => Err(ContentError::Decrypt(e)),
            Ok(plain) => match decode(plain.as_slice()) {
                Some(text) => Ok(text),
                None => Err(ContentError::NotText),
            },
        },
    }
}

} // verus!
