//! Line indexing over a tree of notes, with transparent decoding of
//! VimCrypt-encrypted files and an order-preserving stream adaptor that lets
//! a line-oriented selector report its choice by position.
//!
//! The modules follow the data. [`index`] turns the content of one file
//! into items, with [`cipher`] in front of it where the file is encrypted
//! and [`extract`] to cut the content into lines. [`adaptor`] serialises
//! the items of all files into one byte stream and keeps a mirror of what
//! it serialised. [`select`] finds the item behind the line that was
//! picked and decides what is to be done with it, and [`editor`] builds
//! the command line where that is to open an editor.

pub mod adaptor;
pub mod cipher;
pub mod editor;
pub mod extract;
pub mod index;
pub mod record;
pub mod select;
pub mod text;
