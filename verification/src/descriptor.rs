//! File-descriptor header lines: the lead line carries constellation
//! and time scale; every other descriptor line is a benign
//! continuation.
use vstd::prelude::*;

use crate::errors::ParsingError;
use crate::ids::{char_constellation, timescale_from, timescale_str, Constellation, TimeScale};
use crate::num::spec_trim;

verus! {

/// Whether a line is a file descriptor: it starts with its marker.
pub fn is_file_descriptor(content: &str) -> (r: bool)
    ensures
        r == (content@.len() >= 2 && content@[0] == '%' && content@[1] == 'c'),
{
    if content.unicode_len() < 2 {
        return false;
    }
    content.get_char(0) == '%' && content.get_char(1) == 'c'
}

/// The lead descriptor line: constellation and time scale.
#[derive(Debug, Clone, Copy, PartialEq, Eq, Structural)]
pub struct FileDescriptorH1 {
    pub timescale: TimeScale,
    pub constellation: Constellation,
}

/// The lead line needs sixty columns, a constellation tag and a known
/// time-scale label in their windows.
pub open spec fn descriptor_h1_ok(s: Seq<char>) -> bool {
    &&& s.len() >= 60
    &&& spec_trim(s.subrange(3, 5)).len() == 1
    &&& char_constellation(spec_trim(s.subrange(3, 5))[0]) is Some
    &&& (exists|t: TimeScale| spec_trim(s.subrange(9, 12)) == timescale_str(t))
}

pub open spec fn descriptor_h1_matches(s: Seq<char>, h: FileDescriptorH1) -> bool {
    &&& char_constellation(spec_trim(s.subrange(3, 5))[0]) == Some(h.constellation)
    &&& spec_trim(s.subrange(9, 12)) == timescale_str(h.timescale)
}

impl FileDescriptorH1 {
    /// Decodes the lead descriptor line.
    pub fn parse(line: &str) -> (r: Result<FileDescriptorH1, ParsingError>)
        ensures
            r is Ok <==> descriptor_h1_ok(line@),
            r matches Ok(h) ==> descriptor_h1_matches(line@, h),
            r matches Err(e) ==> e is InvalidFileDescriptorH1,
    {
        let n = line.unicode_len();
        if n < 60 {
            return Err(ParsingError::InvalidFileDescriptorH1);
        }
        let cfield = line.substring_char(3, 5);
        let (clo, chi) = crate::num::trim_range(cfield);
        if chi - clo != 1 {
            return Err(ParsingError::InvalidFileDescriptorH1);
        }
        let constellation = match crate::ids::constellation_from_char(cfield.get_char(clo)) {
            Some(c) => c,
            None => {
                return Err(ParsingError::InvalidFileDescriptorH1);
            },
        };
        proof {
            assert(spec_trim(cfield@)[0] == cfield@[clo as int]);
        }
        let timescale = match timescale_from(line.substring_char(9, 12)) {
            Some(t) => t,
            None => {
                return Err(ParsingError::InvalidFileDescriptorH1);
            },
        };
        Ok(FileDescriptorH1 { timescale, constellation })
    }
}

/// Any descriptor line: the lead line, or a continuation to skip.
#[derive(Debug, Clone, Copy, PartialEq, Eq, Structural)]
pub enum FileDescriptor {
    Line1(FileDescriptorH1),
    Continuation,
}

impl FileDescriptor {
    /// Sorts a descriptor line: a readable lead line yields its
    /// fields, anything else is a continuation; never an error.
    pub fn parse(line: &str) -> (r: Result<FileDescriptor, ParsingError>)
        ensures
            r is Ok,
            r matches Ok(d) ==> (d is Line1 <==> descriptor_h1_ok(line@)),
            r matches Ok(d) ==> (d matches FileDescriptor::Line1(h) ==> descriptor_h1_matches(
                line@,
                h,
            )),
    {
        match FileDescriptorH1::parse(line) {
            Ok(h1) => Ok(FileDescriptor::Line1(h1)),
            Err(_) => Ok(FileDescriptor::Continuation),
        }
    }
}

} // verus!
