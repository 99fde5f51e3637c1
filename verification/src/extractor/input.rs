//! A bounded cursor over the bytes of a file, or over a region of another
//! such cursor.

use crate::text::append_decimal;
use crate::text::decimal;
use crate::text::numbered_pair;
use crate::text::utf8_text;
use super::Endianness;
use super::inputbox::InputBox;
use vstd::prelude::*;
use vstd::slice::slice_subrange;
use vstd::slice::slice_to_vec;
use vstd::string::StringExecFns;
use vstd::utf8::decode_utf8;
use vstd::utf8::valid_utf8;

verus! {

/// Why a read or a seek was refused.
#[derive(Clone, Copy, Debug, PartialEq, Eq, Structural)]
pub enum InputError {
    /// Reading `requested` bytes from `position` would reach the view's `limit`.
    Eof { requested: u64, position: u64, limit: u64 },
    /// `position` lies at or beyond the view's `limit`.
    SeekEof { position: u64, limit: u64 },
    /// Skipping `length` bytes from `position` leaves the range of offsets.
    SkipOverflow { position: u64, length: u64 },
    /// The view admitted an integer read, but the file ends before it.
    Truncated,
    /// The view admitted a text read, but the file ends before it.
    ShortText,
    /// The bytes read as text are not UTF-8.
    InvalidText,
    /// A box declares a `size` smaller than the `header` that was read of it.
    ShortBox { size: u64, header: u64 },
}

impl InputError {
    /// The error in words.
    pub open spec fn text(self) -> Seq<char> {
        match self {
            InputError::Eof { requested, position, limit } => "EOF: reading "@ + decimal(
                requested as nat,
            ) + " bytes from "@ + decimal(position as nat) + ", input length: "@ + decimal(
                limit as nat,
            ),
            InputError::SeekEof { position, limit } => "EOF: seeking position "@ + decimal(
                position as nat,
            ) + ", input length: "@ + decimal(limit as nat),
            InputError::SkipOverflow { position, length } => "EOF: skipping "@ + decimal(
                length as nat,
            ) + " bytes from "@ + decimal(position as nat),
            InputError::Truncated => "failed to fill whole buffer"@,
            InputError::ShortText => "string read result is shorter than expected"@,
            InputError::InvalidText => "stream did not contain valid UTF-8"@,
            InputError::ShortBox { size, header } => "box size "@ + decimal(size as nat)
                + " is less than its header of "@ + decimal(header as nat),
        }
    }

    /// The error in words.
    pub fn message(&self) -> (r: String)
        ensures
            r@ == self.text(),
    {
        match *self {
            InputError::Eof { requested, position, limit } => {
                let mut text = numbered_pair(
                    "EOF: reading ",
                    requested as u128,
                    " bytes from ",
                    position as u128,
                );
                text.append(", input length: ");
                append_decimal(&mut text, limit as u128);
                text
            },
            InputError::SeekEof { position, limit } => numbered_pair(
                "EOF: seeking position ",
                position as u128,
                ", input length: ",
                limit as u128,
            ),
            InputError::SkipOverflow { position, length } => numbered_pair(
                "EOF: skipping ",
                length as u128,
                " bytes from ",
                position as u128,
            ),
            InputError::Truncated => String::from_str("failed to fill whole buffer"),
            InputError::ShortText => String::from_str(
                "string read result is shorter than expected",
            ),
            InputError::InvalidText => String::from_str("stream did not contain valid UTF-8"),
            InputError::ShortBox { size, header } => numbered_pair(
                "box size ",
                size as u128,
                " is less than its header of ",
                header as u128,
            ),
        }
    }
}

/// The mathematical model of an [`Input`]: the bytes of the file, the
/// absolute offset at which the view starts, the view's length, and the
/// cursor relative to the start.
pub struct InputView {
    pub name: Seq<char>,
    pub ext: Seq<char>,
    pub bytes: Seq<u8>,
    pub offset: nat,
    pub limit: nat,
    pub cursor: nat,
}

/// The value of `bytes` read as one unsigned integer, most significant byte first.
pub open spec fn be_value(bytes: Seq<u8>) -> nat
    decreases bytes.len(),
{
    if bytes.len() == 0 {
        0
    } else {
        be_value(bytes.drop_last()) * 256 + bytes.last() as nat
    }
}

/// The value of `bytes` read as one unsigned integer, least significant byte first.
pub open spec fn le_value(bytes: Seq<u8>) -> nat
    decreases bytes.len(),
{
    if bytes.len() == 0 {
        0
    } else {
        bytes.first() as nat + 256 * le_value(bytes.drop_first())
    }
}

/// The value of `bytes` in the byte order `bo`.
pub open spec fn int_value(bytes: Seq<u8>, bo: Endianness) -> nat {
    match bo {
        Endianness::Big => be_value(bytes),
        Endianness::Little => le_value(bytes),
    }
}

impl InputView {
    /// The cursor is inside the view, or the view is fresh.
    pub open spec fn in_bounds(self) -> bool {
        self.cursor == 0 || self.cursor < self.limit
    }

    /// The absolute offset of the cursor in the file.
    pub open spec fn position(self) -> nat {
        self.offset + self.cursor
    }

    /// The view admits a read of `n` bytes at the cursor: the read ends
    /// strictly before the limit.
    pub open spec fn admits(self, n: nat) -> bool {
        self.cursor + n < self.limit
    }

    /// The file holds `n` bytes at the cursor.
    pub open spec fn holds(self, n: nat) -> bool {
        self.position() + n <= self.bytes.len()
    }

    /// The `n` bytes at the cursor.
    pub open spec fn window(self, n: nat) -> Seq<u8> {
        self.bytes.subrange(self.position() as int, (self.position() + n) as int)
    }

    /// The same view with the cursor at `pos`.
    pub open spec fn at(self, pos: nat) -> InputView {
        InputView { cursor: pos, ..self }
    }

    /// The same view with the cursor `n` bytes further.
    pub open spec fn advanced(self, n: nat) -> InputView {
        self.at(self.cursor + n)
    }

    /// The view after an operation that moves the cursor by `n` when it
    /// succeeds and leaves it alone when it fails.
    pub open spec fn after(self, done: bool, n: nat) -> InputView {
        if done {
            self.advanced(n)
        } else {
            self
        }
    }

    /// The outcome of reading an unsigned integer of `n` bytes at the cursor.
    pub open spec fn read_int(self, n: nat, bo: Endianness) -> Result<nat, InputError> {
        if !self.admits(n) {
            Err(
                InputError::Eof {
                    requested: n as u64,
                    position: self.cursor as u64,
                    limit: self.limit as u64,
                },
            )
        } else if !self.holds(n) {
            Err(InputError::Truncated)
        } else {
            Ok(int_value(self.window(n), bo))
        }
    }

    /// The outcome of reading two bytes at the cursor as an integer.
    pub open spec fn read_u16(self, bo: Endianness) -> Result<u16, InputError> {
        match self.read_int(2, bo) {
            Ok(v) => Ok(v as u16),
            Err(e) => Err(e),
        }
    }

    /// The outcome of reading four bytes at the cursor as an integer.
    pub open spec fn read_u32(self, bo: Endianness) -> Result<u32, InputError> {
        match self.read_int(4, bo) {
            Ok(v) => Ok(v as u32),
            Err(e) => Err(e),
        }
    }

    /// The outcome of reading eight bytes at the cursor as an integer.
    pub open spec fn read_u64(self, bo: Endianness) -> Result<u64, InputError> {
        match self.read_int(8, bo) {
            Ok(v) => Ok(v as u64),
            Err(e) => Err(e),
        }
    }

    /// What the file holds of the `n` bytes at the cursor: all of them, or
    /// those before the end of the file.
    pub open spec fn available(self, n: nat) -> Seq<u8> {
        let len = self.bytes.len();
        let from = if self.position() < len { self.position() } else { len };
        let to = if self.position() + n < len { self.position() + n } else { len };
        self.bytes.subrange(from as int, to as int)
    }

    /// The outcome of reading `n` bytes at the cursor as text.
    pub open spec fn read_string(self, n: nat) -> Result<Seq<char>, InputError> {
        if !self.admits(n) {
            Err(
                InputError::Eof {
                    requested: n as u64,
                    position: self.cursor as u64,
                    limit: self.limit as u64,
                },
            )
        } else if !valid_utf8(self.available(n)) {
            Err(InputError::InvalidText)
        } else if self.available(n).len() < n {
            Err(InputError::ShortText)
        } else {
            Ok(decode_utf8(self.available(n)))
        }
    }

    /// The outcome of moving the cursor to `pos`.
    pub open spec fn seek(self, pos: nat) -> Result<(), InputError> {
        if pos < self.limit {
            Ok(())
        } else {
            Err(InputError::SeekEof { position: pos as u64, limit: self.limit as u64 })
        }
    }

    /// The outcome of moving the cursor `len` bytes forward.
    pub open spec fn ff(self, len: nat) -> Result<(), InputError> {
        if self.cursor + len > u64::MAX {
            Err(InputError::SkipOverflow { position: self.cursor as u64, length: len as u64 })
        } else {
            self.seek(self.cursor + len)
        }
    }

    /// The view of the `len` bytes that start at the cursor. Offsets stop
    /// at `u64::MAX`, beyond which no file holds a byte.
    pub open spec fn section(self, len: nat) -> InputView {
        InputView {
            offset: if self.position() < u64::MAX { self.position() } else { u64::MAX as nat },
            limit: len,
            cursor: 0,
            ..self
        }
    }

    /// The numbers of the view are those of some [`Input`].
    pub open spec fn representable(self) -> bool {
        &&& self.bytes.len() <= usize::MAX
        &&& self.offset <= u64::MAX
        &&& self.limit <= u64::MAX
        &&& self.cursor <= u64::MAX
    }
}

/// The cursor stays inside the view: a fresh view has it at the start, and
/// whatever succeeds leaves it before the limit.
pub proof fn lemma_cursor_stays_in_bounds(v: InputView, n: nat, bo: Endianness)
    ensures
        v.section(n).in_bounds(),
        v.read_int(n, bo) is Ok ==> v.advanced(n).in_bounds(),
        v.read_string(n) is Ok ==> v.advanced(n).in_bounds(),
        v.seek(n) is Ok ==> v.at(n).in_bounds(),
        v.ff(n) is Ok ==> v.advanced(n).in_bounds(),
{
}

/// What is read through a section lies inside the section. Let `child` be
/// the section of `n` bytes at the cursor of `parent`, with its cursor at
/// `cursor`. A read of `len` bytes that would reach the end of the section
/// fails with an end-of-data error. One that succeeds has read, unless
/// `len` is zero, the `len` bytes of the file at the offset `cursor` from
/// the cursor of `parent`, all of which lie before the offset `n` from
/// there, and returns their value or their text and nothing else.
pub proof fn lemma_section_reads_stay_inside(
    parent: InputView,
    n: nat,
    cursor: nat,
    len: nat,
    bo: Endianness,
)
    requires
        parent.representable(),
    ensures
        ({
            let child = parent.section(n).at(cursor);
            let from = (parent.position() + cursor) as int;
            let eof = InputError::Eof {
                requested: len as u64,
                position: cursor as u64,
                limit: n as u64,
            };
            &&& cursor + len >= n ==> child.read_int(len, bo) == Err::<nat, InputError>(eof)
                && child.read_string(len) == Err::<Seq<char>, InputError>(eof)
            &&& child.read_int(len, bo) is Ok && len > 0 ==> from + len < parent.position() + n
                && from + len <= parent.bytes.len() && child.read_int(len, bo) == Ok::<
                nat,
                InputError,
            >(int_value(parent.bytes.subrange(from as int, from + len), bo))
            &&& child.read_string(len) is Ok && len > 0 ==> from + len < parent.position() + n
                && from + len <= parent.bytes.len() && child.read_string(len) == Ok::<
                Seq<char>,
                InputError,
            >(decode_utf8(parent.bytes.subrange(from as int, from + len)))
        }),
{
    let child = parent.section(n).at(cursor);
    let from = (parent.position() + cursor) as int;
    if child.read_string(len) is Ok && len > 0 {
        assert(child.available(len).len() == len);
        assert(child.available(len) =~= parent.bytes.subrange(from as int, from + len));
    }
}

/// The text in `r`, or its error.
pub open spec fn text_outcome(r: Result<String, InputError>) -> Result<Seq<char>, InputError> {
    match r {
        Ok(s) => Ok(s@),
        Err(e) => Err(e),
    }
}

/// The value of two bytes is the first times 256 plus the second, or the
/// other way round.
pub proof fn lemma_value_of_two(w: Seq<u8>)
    requires
        w.len() == 2,
    ensures
        be_value(w) == w[0] * 0x100 + w[1],
        le_value(w) == w[1] * 0x100 + w[0],
{
    reveal_with_fuel(be_value, 3);
    reveal_with_fuel(le_value, 3);
    assert(w.drop_last().drop_last().len() == 0);
    assert(w.drop_first().drop_first().len() == 0);
}

/// The value of four bytes, written out.
pub proof fn lemma_value_of_four(w: Seq<u8>)
    requires
        w.len() == 4,
    ensures
        be_value(w) == w[0] * 0x100_0000 + w[1] * 0x1_0000 + w[2] * 0x100 + w[3],
        le_value(w) == w[3] * 0x100_0000 + w[2] * 0x1_0000 + w[1] * 0x100 + w[0],
{
    lemma_value_of_two(w.subrange(0, 2));
    lemma_value_of_two(w.subrange(2, 4));
    reveal_with_fuel(be_value, 3);
    reveal_with_fuel(le_value, 3);
    assert(w.drop_last().drop_last() =~= w.subrange(0, 2));
    assert(w.drop_first().drop_first() =~= w.subrange(2, 4));
}

/// The value of eight bytes, written out.
pub proof fn lemma_value_of_eight(w: Seq<u8>)
    requires
        w.len() == 8,
    ensures
        be_value(w) == w[0] * 0x100_0000_0000_0000 + w[1] * 0x1_0000_0000_0000 + w[2]
            * 0x100_0000_0000 + w[3] * 0x1_0000_0000 + w[4] * 0x100_0000 + w[5] * 0x1_0000 + w[6]
            * 0x100 + w[7],
        le_value(w) == w[7] * 0x100_0000_0000_0000 + w[6] * 0x1_0000_0000_0000 + w[5]
            * 0x100_0000_0000 + w[4] * 0x1_0000_0000 + w[3] * 0x100_0000 + w[2] * 0x1_0000 + w[1]
            * 0x100 + w[0],
{
    lemma_value_of_four(w.subrange(0, 4));
    lemma_value_of_four(w.subrange(4, 8));
    reveal_with_fuel(be_value, 5);
    reveal_with_fuel(le_value, 5);
    assert(w.drop_last().drop_last().drop_last().drop_last() =~= w.subrange(0, 4));
    assert(w.drop_first().drop_first().drop_first().drop_first() =~= w.subrange(4, 8));
}

/// A view of `limit` bytes of a file, starting at the absolute offset
/// `offset`, with a cursor relative to that start.
pub struct Input<'f> {
    file: &'f InputBox,
    offset: u64,
    limit: u64,
    cursor: u64,
}

impl<'f> View for Input<'f> {
    type V = InputView;

    closed spec fn view(&self) -> InputView {
        InputView {
            name: self.file@.name,
            ext: self.file@.ext,
            bytes: self.file@.bytes,
            offset: self.offset as nat,
            limit: self.limit as nat,
            cursor: self.cursor as nat,
        }
    }
}

impl<'f> Input<'f> {
    /// A view of the whole file, with the cursor at its first byte.
    pub fn create(input_box: &'f InputBox) -> (r: Input<'f>)
        ensures
            r@ == (InputView {
                name: input_box@.name,
                ext: input_box@.ext,
                bytes: input_box@.bytes,
                offset: 0,
                limit: input_box@.bytes.len(),
                cursor: 0,
            }),
    {
        Input { file: input_box, offset: 0, limit: input_box.size(), cursor: 0 }
    }

    /// Checks that `n` bytes can be read at the cursor, moves the cursor
    /// past them and returns their index in the file.
    fn take(&mut self, n: u64) -> (r: Result<usize, InputError>)
        requires
            n > 0,
        ensures
            old(self)@.admits(n as nat) && old(self)@.holds(n as nat) <==> r is Ok,
            r is Ok ==> r.unwrap() == old(self)@.position() && r.unwrap() + n <= usize::MAX,
            !old(self)@.admits(n as nat) ==> r == Err::<usize, InputError>(
                InputError::Eof { requested: n, position: old(self).cursor, limit: old(self).limit },
            ),
            old(self)@.admits(n as nat) && !old(self)@.holds(n as nat) ==> r == Err::<
                usize,
                InputError,
            >(InputError::Truncated),
            final(self)@ == old(self)@.after(r is Ok, n as nat),
    {
        let eof = InputError::Eof { requested: n, position: self.cursor, limit: self.limit };
        let end: u64 = match self.cursor.checked_add(n) {
            Some(end) => end,
            None => { return Err(eof); },
        };
        if end >= self.limit {
            return Err(eof);
        }
        let size: u64 = self.file.file().len() as u64;
        let start: u64 = match self.offset.checked_add(self.cursor) {
            Some(start) => start,
            None => { return Err(InputError::Truncated); },
        };
        if start >= size || size - start < n {
            return Err(InputError::Truncated);
        }
        self.cursor = end;
        Ok(start as usize)
    }

    /// Reads two bytes at the cursor as an integer in the byte order `bo`.
    pub fn read_u16(&mut self, bo: &Endianness) -> (r: Result<u16, InputError>)
        ensures
            r == old(self)@.read_u16(*bo),
            final(self)@ == old(self)@.after(r is Ok, 2),
    {
        let start: usize = match self.take(2) {
            Ok(start) => start,
            Err(e) => { return Err(e); },
        };
        let data = self.file.file();
        let b0: u16 = data[start] as u16;
        let b1: u16 = data[start + 1] as u16;
        proof {
            lemma_value_of_two(old(self)@.window(2));
        }
        match bo {
            Endianness::Big => Ok(b0 * 0x100 + b1),
            Endianness::Little => Ok(b1 * 0x100 + b0),
        }
    }

    /// Reads four bytes at the cursor as an integer in the byte order `bo`.
    pub fn read_u32(&mut self, bo: &Endianness) -> (r: Result<u32, InputError>)
        ensures
            r == old(self)@.read_u32(*bo),
            final(self)@ == old(self)@.after(r is Ok, 4),
    {
        let start: usize = match self.take(4) {
            Ok(start) => start,
            Err(e) => { return Err(e); },
        };
        let data = self.file.file();
        let b0: u32 = data[start] as u32;
        let b1: u32 = data[start + 1] as u32;
        let b2: u32 = data[start + 2] as u32;
        let b3: u32 = data[start + 3] as u32;
        proof {
            lemma_value_of_four(old(self)@.window(4));
        }
        match bo {
            Endianness::Big => Ok(b0 * 0x100_0000 + b1 * 0x1_0000 + b2 * 0x100 + b3),
            Endianness::Little => Ok(b3 * 0x100_0000 + b2 * 0x1_0000 + b1 * 0x100 + b0),
        }
    }

    /// Reads eight bytes at the cursor as an integer in the byte order `bo`.
    pub fn read_u64(&mut self, bo: &Endianness) -> (r: Result<u64, InputError>)
        ensures
            r == old(self)@.read_u64(*bo),
            final(self)@ == old(self)@.after(r is Ok, 8),
    {
        let start: usize = match self.take(8) {
            Ok(start) => start,
            Err(e) => { return Err(e); },
        };
        let data = self.file.file();
        let b0: u64 = data[start] as u64;
        let b1: u64 = data[start + 1] as u64;
        let b2: u64 = data[start + 2] as u64;
        let b3: u64 = data[start + 3] as u64;
        let b4: u64 = data[start + 4] as u64;
        let b5: u64 = data[start + 5] as u64;
        let b6: u64 = data[start + 6] as u64;
        let b7: u64 = data[start + 7] as u64;
        proof {
            lemma_value_of_eight(old(self)@.window(8));
        }
        match bo {
            Endianness::Big => Ok(
                b0 * 0x100_0000_0000_0000 + b1 * 0x1_0000_0000_0000 + b2 * 0x100_0000_0000 + b3
                    * 0x1_0000_0000 + b4 * 0x100_0000 + b5 * 0x1_0000 + b6 * 0x100 + b7,
            ),
            Endianness::Little => Ok(
                b7 * 0x100_0000_0000_0000 + b6 * 0x1_0000_0000_0000 + b5 * 0x100_0000_0000 + b4
                    * 0x1_0000_0000 + b3 * 0x100_0000 + b2 * 0x1_0000 + b1 * 0x100 + b0,
            ),
        }
    }

    /// Reads `len` bytes at the cursor as UTF-8 text.
    pub fn read_string(&mut self, len: u64) -> (r: Result<String, InputError>)
        ensures
            text_outcome(r) == old(self)@.read_string(len as nat),
            final(self)@ == old(self)@.after(r is Ok, len as nat),
    {
        let eof = InputError::Eof { requested: len, position: self.cursor, limit: self.limit };
        let end: u64 = match self.cursor.checked_add(len) {
            Some(end) => end,
            None => { return Err(eof); },
        };
        if end >= self.limit {
            return Err(eof);
        }
        let data = self.file.file();
        let size: usize = data.len();
        let from: usize = match self.offset.checked_add(self.cursor) {
            Some(p) => if p < size as u64 { p as usize } else { size },
            None => size,
        };
        let to: usize = if len < (size - from) as u64 { from + len as usize } else { size };
        let found = slice_to_vec(slice_subrange(data.as_slice(), from, to));
        assert(found@ == old(self)@.available(len as nat));
        match utf8_text(found) {
            None => Err(InputError::InvalidText),
            Some(text) => {
                if ((to - from) as u64) < len {
                    Err(InputError::ShortText)
                } else {
                    self.cursor = end;
                    Ok(text)
                }
            },
        }
    }

    /// Moves the cursor to `pos`, counted from the start of the view.
    pub fn seek(&mut self, pos: u64) -> (r: Result<(), InputError>)
        ensures
            r == old(self)@.seek(pos as nat),
            final(self)@ == (if r is Ok { old(self)@.at(pos as nat) } else { old(self)@ }),
    {
        if pos >= self.limit {
            return Err(InputError::SeekEof { position: pos, limit: self.limit });
        }
        self.cursor = pos;
        Ok(())
    }

    /// Moves the cursor `len` bytes forward.
    pub fn ff(&mut self, len: u64) -> (r: Result<(), InputError>)
        ensures
            r == old(self)@.ff(len as nat),
            final(self)@ == old(self)@.after(r is Ok, len as nat),
    {
        match self.cursor.checked_add(len) {
            Some(pos) => self.seek(pos),
            None => Err(InputError::SkipOverflow { position: self.cursor, length: len }),
        }
    }

    /// A view of the `len` bytes that start at the cursor. The cursor of
    /// `self` stays where it is.
    pub fn section(&mut self, len: u64) -> (r: Input<'f>)
        ensures
            r@ == old(self)@.section(len as nat),
            final(self)@ == old(self)@,
    {
        Input {
            file: self.file,
            offset: self.offset.saturating_add(self.cursor),
            limit: len,
            cursor: 0,
        }
    }

    /// The name of the file that the view reads.
    pub fn name(&self) -> (r: &str)
        ensures
            r@ == self@.name,
    {
        self.file.name()
    }

    /// The extension of the file that the view reads.
    pub fn ext(&self) -> (r: &str)
        ensures
            r@ == self@.ext,
    {
        self.file.ext()
    }

    /// The absolute offset in the file at which the view starts.
    pub fn offset(&self) -> (r: u64)
        ensures
            r == self@.offset,
    {
        self.offset
    }

    /// The length of the view in bytes.
    pub fn limit(&self) -> (r: u64)
        ensures
            r == self@.limit,
    {
        self.limit
    }

    /// The cursor, counted from the start of the view.
    pub fn cursor(&self) -> (r: u64)
        ensures
            r == self@.cursor,
    {
        self.cursor
    }

    /// The view of an `Input` holds the numbers of an `Input`.
    pub proof fn lemma_representable(&self)
        ensures
            self@.representable(),
    {
        self.file.lemma_size_fits();
    }
}

} // verus!
