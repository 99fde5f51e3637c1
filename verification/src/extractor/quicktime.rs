//! Lookup of a box in a sequence of ISO base media (QuickTime) boxes.

use crate::text::str_eq;
use super::Endianness;
use super::input::Input;
use super::input::InputError;
use super::input::InputView;
use vstd::prelude::*;

verus! {

/// The type of a box and the length of what follows its header.
pub struct BoxHeader {
    pub kind: Seq<char>,
    pub payload: u64,
}

/// The outcome of a step of the scan and the input as the step leaves it.
pub struct Step<T> {
    pub outcome: Result<T, InputError>,
    pub rest: InputView,
}

/// `size` less the `header` bytes that the size includes. A size that
/// does not cover the header is refused.
pub open spec fn without_header(size: u64, header: u64) -> Result<u64, InputError> {
    if size < header {
        Err(InputError::ShortBox { size, header })
    } else {
        Ok((size - header) as u64)
    }
}

/// Reads the header of the box at the cursor: a size of four bytes, the
/// type, and, where the size is 1, the real size in eight bytes more.
pub open spec fn read_box_header(v: InputView) -> Step<BoxHeader> {
    let v1 = v.advanced(4);
    let v2 = v.advanced(8);
    let v3 = v.advanced(16);
    match v.read_u32(Endianness::Big) {
        Err(e) => Step { outcome: Err(e), rest: v },
        Ok(size) => match v1.read_string(4) {
            Err(e) => Step { outcome: Err(e), rest: v1 },
            Ok(kind) => if size == 1 {
                match v2.read_u64(Endianness::Big) {
                    Err(e) => Step { outcome: Err(e), rest: v2 },
                    Ok(large) => match without_header(large, 16) {
                        Err(e) => Step { outcome: Err(e), rest: v3 },
                        Ok(payload) => Step { outcome: Ok(BoxHeader { kind, payload }), rest: v3 },
                    },
                }
            } else {
                match without_header(size as u64, 8) {
                    Err(e) => Step { outcome: Err(e), rest: v2 },
                    Ok(payload) => Step { outcome: Ok(BoxHeader { kind, payload }), rest: v2 },
                }
            },
        },
    }
}

/// What the scan makes of a box of the wanted type whose header has been
/// read, the cursor of `v` standing behind the header: the section that
/// holds the payload, or nothing where the box carries another UUID than
/// the wanted one. The second component is what is left of the payload
/// behind the cursor.
pub open spec fn open_box(v: InputView, payload: u64, uuid: Option<(u64, u64)>) -> Step<
    (Option<InputView>, u64),
> {
    match uuid {
        None => Step { outcome: Ok((Some(v.section(payload as nat)), payload)), rest: v },
        Some(wanted) => match v.read_u64(Endianness::Big) {
            Err(e) => Step { outcome: Err(e), rest: v },
            Ok(msb) => match v.advanced(8).read_u64(Endianness::Big) {
                Err(e) => Step { outcome: Err(e), rest: v.advanced(8) },
                Ok(lsb) => match without_header(payload, 16) {
                    Err(e) => Step { outcome: Err(e), rest: v.advanced(16) },
                    Ok(left) => Step {
                        outcome: Ok(
                            (
                                if wanted.0 == msb && wanted.1 == lsb {
                                    Some(v.advanced(16).section(left as nat))
                                } else {
                                    None
                                },
                                left,
                            ),
                        ),
                        rest: v.advanced(16),
                    },
                },
            },
        },
    }
}

/// Scans the boxes from the cursor of `v` on for the first of type `name`
/// and, where `uuid` is given, with that UUID in its first sixteen bytes.
/// Every other box is skipped. The scan ends with the section of the
/// payload of the box found, or with the error of the read or skip that
/// left the view.
pub open spec fn scan_for_box(v: InputView, name: Seq<char>, uuid: Option<(u64, u64)>) -> Step<
    InputView,
>
    decreases v.limit - v.cursor,
{
    let header = read_box_header(v);
    match header.outcome {
        Err(e) => Step { outcome: Err(e), rest: header.rest },
        Ok(found) => {
            let opened = if found.kind == name {
                open_box(header.rest, found.payload, uuid)
            } else {
                Step { outcome: Ok((None, found.payload)), rest: header.rest }
            };
            match opened.outcome {
                Err(e) => Step { outcome: Err(e), rest: opened.rest },
                Ok((Some(section), _)) => Step { outcome: Ok(section), rest: opened.rest },
                Ok((None, left)) => match opened.rest.ff(left as nat) {
                    Err(e) => Step { outcome: Err(e), rest: opened.rest },
                    Ok(_) => scan_for_box(opened.rest.advanced(left as nat), name, uuid),
                },
            }
        },
    }
}

/// A scan moves the cursor and nothing else, and the section it returns
/// starts where it leaves the cursor.
pub proof fn lemma_scan_moves_cursor_only(v: InputView, name: Seq<char>, uuid: Option<(u64, u64)>)
    ensures
        scan_for_box(v, name, uuid).rest.at(0) == v.at(0),
        scan_for_box(v, name, uuid).outcome is Ok ==> scan_for_box(v, name, uuid).outcome->Ok_0
            == scan_for_box(v, name, uuid).rest.section(
            scan_for_box(v, name, uuid).outcome->Ok_0.limit,
        ),
    decreases v.limit - v.cursor,
{
    let header = read_box_header(v);
    match header.outcome {
        Err(_) => {},
        Ok(found) => {
            let opened = if found.kind == name {
                open_box(header.rest, found.payload, uuid)
            } else {
                Step { outcome: Ok((None, found.payload)), rest: header.rest }
            };
            match opened.outcome {
                Ok((None, left)) => match opened.rest.ff(left as nat) {
                    Err(_) => {},
                    Ok(_) => {
                        lemma_scan_moves_cursor_only(opened.rest.advanced(left as nat), name, uuid);
                    },
                },
                _ => {},
            }
        },
    }
}

/// Whether `r` is the outcome `wanted`, a section being known by its view.
pub open spec fn is_section(
    r: Result<Input, InputError>,
    wanted: Result<InputView, InputError>,
) -> bool {
    match wanted {
        Ok(section) => r is Ok && r->Ok_0@ == section,
        Err(e) => r is Err && r->Err_0 == e,
    }
}

/// `size` less the `header` bytes that it includes.
fn checked_payload(size: u64, header: u64) -> (r: Result<u64, InputError>)
    ensures
        r == without_header(size, header),
{
    if size < header {
        Err(InputError::ShortBox { size, header })
    } else {
        Ok(size - header)
    }
}

impl<'f> Input<'f> {
    /// Scans the boxes from the cursor on for the first of type `name`,
    /// and with the UUID `uuid` where one is given, and returns a view of
    /// its payload. The cursor is left at the start of that payload. Where
    /// no such box is found, the error is that of the read or the skip
    /// that reached the end of this view.
    #[verifier::loop_isolation(false)]
    pub fn quicktime_scan_for_box(&mut self, name: &str, uuid: Option<(u64, u64)>) -> (r: Result<
        Input<'f>,
        InputError,
    >)
        ensures
            is_section(r, scan_for_box(old(self)@, name@, uuid).outcome),
            final(self)@ == scan_for_box(old(self)@, name@, uuid).rest,
    {
        let ghost goal = scan_for_box(self@, name@, uuid);
        loop
            invariant
                scan_for_box(self@, name@, uuid) == goal,
            decreases self@.limit - self@.cursor,
        {
            let size: u32 = self.read_u32(&Endianness::Big)?;
            let box_type: String = self.read_string(4)?;
            let mut box_length: u64 = if size == 1 {
                let large: u64 = self.read_u64(&Endianness::Big)?;
                checked_payload(large, 16)?
            } else {
                checked_payload(size as u64, 8)?
            };
            if str_eq(box_type.as_str(), name) {
                match uuid {
                    None => {
                        return Ok(self.section(box_length));
                    },
                    Some(wanted) => {
                        let msb: u64 = self.read_u64(&Endianness::Big)?;
                        let lsb: u64 = self.read_u64(&Endianness::Big)?;
                        box_length = checked_payload(box_length, 16)?;
                        if wanted.0 == msb && wanted.1 == lsb {
                            return Ok(self.section(box_length));
                        }
                    },
                }
            }
            self.ff(box_length)?;
        }
    }

    /// The payload of the first box of type `box_name` from the cursor on.
    pub fn quicktime_search_box(&mut self, box_name: &str) -> (r: Result<Input<'f>, InputError>)
        ensures
            is_section(r, scan_for_box(old(self)@, box_name@, None).outcome),
            final(self)@ == scan_for_box(old(self)@, box_name@, None).rest,
    {
        self.quicktime_scan_for_box(box_name, None)
    }

    /// The payload, behind the UUID, of the first box of type `uuid` from
    /// the cursor on that carries the UUID `box_uuid`.
    pub fn quicktime_search_uuid_box(&mut self, box_uuid: (u64, u64)) -> (r: Result<
        Input<'f>,
        InputError,
    >)
        ensures
            is_section(r, scan_for_box(old(self)@, "uuid"@, Some(box_uuid)).outcome),
            final(self)@ == scan_for_box(old(self)@, "uuid"@, Some(box_uuid)).rest,
    {
        self.quicktime_scan_for_box("uuid", Some(box_uuid))
    }
}

} // verus!
