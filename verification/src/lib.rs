//! Creation timestamps of media files, read from the files' own metadata,
//! and the names that the files get from them.
//!
//! The [`extractor`] decodes TIFF/EXIF, ISO base media (MP4, Canon CR3) and
//! JPEG containers through a bounds-checked reader over the file's bytes.
//! Every decoder has a contract over a mathematical model of that reader
//! and is proved to meet it. The [`renamer`] puts the files in the order of
//! their timestamps and names them, and [`collisions`] finds the names that
//! cannot be given. [`timestamp`] and [`text`] hold the order of timestamps
//! and of texts that the rest relies on.

use vstd::prelude::*;

pub mod collisions;
pub mod extractor;
pub mod failures;
pub mod renamer;
pub mod text;
pub mod timestamp;

verus! {

/// The switches of a run.
#[derive(Clone, Copy, Debug, PartialEq, Eq)]
pub struct CommandLineArguments {
    /// Show the operations without renaming anything.
    pub dry_run: bool,
    /// Leave the numeric prefix out of the new names.
    pub no_prefix: bool,
    /// Print more.
    pub debug_output: bool,
    /// Read the timestamps of MP4 files as UTC.
    pub utc: bool,
}

/// A file and the moment of its creation.
#[derive(Debug, PartialEq, Eq)]
pub struct FileMetadata {
    pub file_name: String,
    /// The canonical timestamp `YYYYMMDD-HHMMSS`.
    pub creation_timestamp: String,
    pub extension: String,
}

/// A [`FileMetadata`] in contracts.
pub struct FileMetadataView {
    pub file_name: Seq<char>,
    pub creation_timestamp: Seq<char>,
    pub extension: Seq<char>,
}

impl View for FileMetadata {
    type V = FileMetadataView;

    open spec fn view(&self) -> FileMetadataView {
        FileMetadataView {
            file_name: self.file_name@,
            creation_timestamp: self.creation_timestamp@,
            extension: self.extension@,
        }
    }
}

/// The views of the items of `items`.
pub open spec fn metadata_views(items: Seq<FileMetadata>) -> Seq<FileMetadataView> {
    Seq::new(items.len(), |i: int| items[i]@)
}

/// The renaming of one file.
#[derive(Debug, PartialEq, Eq)]
pub struct RenameOperation {
    pub from: String,
    pub to: String,
}

/// A [`RenameOperation`] in contracts.
pub struct RenameOperationView {
    pub from: Seq<char>,
    pub to: Seq<char>,
}

impl View for RenameOperation {
    type V = RenameOperationView;

    open spec fn view(&self) -> RenameOperationView {
        RenameOperationView { from: self.from@, to: self.to@ }
    }
}

/// The views of the operations of `operations`.
pub open spec fn operation_views(operations: Seq<RenameOperation>) -> Seq<RenameOperationView> {
    Seq::new(operations.len(), |i: int| operations[i]@)
}

/// The files of a run whose creation time is known, and the length in
/// bytes of the longest of their names.
#[derive(Debug, PartialEq, Eq)]
pub struct CollectedMetadata {
    items: Vec<FileMetadata>,
    longest_source_name: usize,
}

/// The length in bytes of the longest of the names `names`; zero where
/// there is none.
pub open spec fn longest_name(names: Seq<Seq<char>>) -> nat
    decreases names.len(),
{
    if names.len() == 0 {
        0
    } else {
        let before = longest_name(names.drop_last());
        let last = vstd::utf8::encode_utf8(names.last()).len();
        if last > before {
            last
        } else {
            before
        }
    }
}

/// The file names of `items`.
pub open spec fn file_names(items: Seq<FileMetadata>) -> Seq<Seq<char>> {
    Seq::new(items.len(), |i: int| items[i]@.file_name)
}

impl View for CollectedMetadata {
    type V = Seq<FileMetadata>;

    /// The files collected, in the order in which they came.
    closed spec fn view(&self) -> Seq<FileMetadata> {
        self.items@
    }
}

impl CollectedMetadata {
    /// The length recorded is that of the longest name.
    #[verifier::type_invariant]
    spec fn measured(&self) -> bool {
        self.longest_source_name == longest_name(file_names(self.items@))
    }

    /// Nothing collected yet.
    pub fn new() -> (r: CollectedMetadata)
        ensures
            r@.len() == 0,
    {
        assert(file_names(Seq::<FileMetadata>::empty()) =~= Seq::empty());
        CollectedMetadata { items: Vec::new(), longest_source_name: 0 }
    }

    /// Takes in what the extractor found for one file: the metadata of a
    /// file of a supported kind, or nothing.
    pub fn add(&mut self, found: Option<FileMetadata>)
        ensures
            match found {
                Some(metadata) => final(self)@ == old(self)@.push(metadata),
                None => final(self)@ == old(self)@,
            },
    {
        proof {
            use_type_invariant(&*self);
        }
        match found {
            Some(metadata) => {
                let size: usize = metadata.file_name.as_str().as_bytes().len();
                let longest: usize = if size > self.longest_source_name {
                    size
                } else {
                    self.longest_source_name
                };
                let mut collected = CollectedMetadata::new();
                std::mem::swap(self, &mut collected);
                let mut items: Vec<FileMetadata> = collected.items;
                let ghost before = items@;
                items.push(metadata);
                proof {
                    assert(file_names(items@).drop_last() =~= file_names(before));
                }
                *self = CollectedMetadata { items, longest_source_name: longest };
            },
            None => {},
        }
    }

    /// Whether no file was collected.
    pub fn is_empty(&self) -> (r: bool)
        ensures
            r == (self@.len() == 0),
    {
        self.items.len() == 0
    }

    /// The length in bytes of the longest name among the files collected;
    /// zero where there is none.
    pub fn longest_source_name(&self) -> (r: usize)
        ensures
            r == longest_name(file_names(self@)),
    {
        proof {
            use_type_invariant(self);
        }
        self.longest_source_name
    }

    /// The files collected.
    pub fn items(&self) -> (r: &Vec<FileMetadata>)
        ensures
            r@ == self@,
    {
        &self.items
    }

    /// Hands the files collected over.
    pub fn into_items(self) -> (r: Vec<FileMetadata>)
        ensures
            r@ == self@,
    {
        self.items
    }
}

} // verus!
