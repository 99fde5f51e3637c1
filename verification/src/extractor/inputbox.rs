//! A file held in memory: its name, its extension and its bytes.

use vstd::prelude::*;

verus! {

/// What an [`InputBox`] stands for in contracts.
pub struct InputBoxView {
    pub name: Seq<char>,
    pub ext: Seq<char>,
    pub bytes: Seq<u8>,
}

/// The contents of one file together with the name it was found under.
pub struct InputBox {
    file_name: String,
    file_ext: String,
    file_size: u64,
    contents: Vec<u8>,
}

impl View for InputBox {
    type V = InputBoxView;

    closed spec fn view(&self) -> InputBoxView {
        InputBoxView { name: self.file_name@, ext: self.file_ext@, bytes: self.contents@ }
    }
}

impl InputBox {
    /// The recorded size is the number of bytes held.
    #[verifier::type_invariant]
    spec fn sized(&self) -> bool {
        self.file_size == self.contents@.len()
    }

    /// Wraps the bytes of the file `file_name`, whose extension is `ext`.
    pub fn create(file_name: String, ext: String, contents: Vec<u8>) -> (r: InputBox)
        ensures
            r@.name == file_name@,
            r@.ext == ext@,
            r@.bytes == contents@,
    {
        let file_size: u64 = contents.len() as u64;
        InputBox { file_name, file_ext: ext, file_size, contents }
    }

    /// The name of the file.
    pub fn name(&self) -> (r: &str)
        ensures
            r@ == self@.name,
    {
        self.file_name.as_str()
    }

    /// The extension of the file, as it was given.
    pub fn ext(&self) -> (r: &str)
        ensures
            r@ == self@.ext,
    {
        self.file_ext.as_str()
    }

    /// The length of the file in bytes.
    pub fn size(&self) -> (r: u64)
        ensures
            r == self@.bytes.len(),
    {
        proof {
            use_type_invariant(self);
        }
        self.file_size
    }

    /// A file in memory is no longer than `usize::MAX` bytes.
    pub proof fn lemma_size_fits(&self)
        ensures
            self@.bytes.len() <= usize::MAX,
    {
        assert(self.contents.len() == self.contents@.len());
    }

    /// The bytes of the file.
    pub fn file(&self) -> (r: &Vec<u8>)
        ensures
            r@ == self@.bytes,
    {
        &self.contents
    }
}

} // verus!
