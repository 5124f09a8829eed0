//! The header block: line 1, line 2, then a run of meta lines
//! (comments, satellite and accuracy tables, file descriptors) up to
//! the first body line.
use vstd::prelude::*;

use crate::descriptor::{
    descriptor_h1_ok, FileDescriptor, FileDescriptorH1,
};
use crate::errors::ParsingError;
use crate::ids::{
    char_constellation, timescale_str, Constellation, DataType, OrbitType, TimeScale, SV,
};
use crate::line1::{line1_matches, line1_ok, Line1};
use crate::line2::{line2_matches, line2_ok, Line2, Seconds8};
use crate::num::spec_trim;

verus! {

/// Everything the header block declares.
pub struct Header {
    pub version: crate::ids::Version,
    pub data_type: DataType,
    pub coord_system: String,
    pub orbit_type: OrbitType,
    pub agency: String,
    /// Release date-time of line 1.
    pub release_datetime: (i32, u8, u8, u8, u8, u32, u64),
    pub num_epochs: u64,
    pub data_used: String,
    pub week_counter: (u32, Seconds8),
    pub epoch_interval: Seconds8,
    pub mjd: (u32, u64),
    pub constellation: Constellation,
    pub timescale: TimeScale,
    /// Comment text in encounter order.
    pub comments: Vec<String>,
    /// Satellites in first-seen order, filled by the assembly stage.
    pub satellites: Vec<SV>,
}

/// A line the header consumes after line 2: a satellite or accuracy
/// table row, a descriptor, or a comment.
pub open spec fn is_meta_line(s: Seq<char>) -> bool {
    s.len() > 0 && (s[0] == '+' || s[0] == '%' || (s.len() >= 2 && s[0] == '/' && s[1] == '*'))
}

pub open spec fn is_comment_line(s: Seq<char>) -> bool {
    s.len() >= 2 && s[0] == '/' && s[1] == '*'
}

pub open spec fn is_descriptor_line(s: Seq<char>) -> bool {
    s.len() >= 2 && s[0] == '%' && s[1] == 'c'
}

/// Where the meta block ends: the first non-meta line at or after `i`.
pub open spec fn meta_end(lines: Seq<Seq<char>>, i: int) -> int
    decreases lines.len() - i,
{
    if i < 0 || i >= lines.len() {
        i
    } else if !is_meta_line(lines[i]) {
        i
    } else {
        meta_end(lines, i + 1)
    }
}

/// The comment contents the block contributes, in encounter order.
pub open spec fn spec_comments(lines: Seq<Seq<char>>, i: int, end: int) -> Seq<Seq<char>>
    decreases end - i,
{
    if i >= end {
        Seq::empty()
    } else {
        let rest = spec_comments(lines, i + 1, end);
        if is_comment_line(lines[i]) && lines[i].len() > 4 {
            seq![lines[i].subrange(3, lines[i].len() as int)] + rest
        } else {
            rest
        }
    }
}

/// The fields of a readable lead descriptor line.
pub open spec fn descriptor_h1_of(s: Seq<char>) -> FileDescriptorH1 {
    FileDescriptorH1 {
        constellation: char_constellation(spec_trim(s.subrange(3, 5))[0])->Some_0,
        timescale: choose|t: TimeScale| spec_trim(s.subrange(9, 12)) == timescale_str(t),
    }
}

/// The last readable lead descriptor of the block, if any.
pub open spec fn spec_descriptor(lines: Seq<Seq<char>>, i: int, end: int) -> Option<
    FileDescriptorH1,
>
    decreases end - i,
{
    if i >= end {
        None
    } else {
        let rest = spec_descriptor(lines, i + 1, end);
        if rest is Some {
            rest
        } else if is_descriptor_line(lines[i]) && descriptor_h1_ok(lines[i]) {
            Some(descriptor_h1_of(lines[i]))
        } else {
            None
        }
    }
}

/// The views of the input lines.
pub open spec fn line_views(lines: Seq<String>) -> Seq<Seq<char>> {
    lines.map_values(|l: String| l@)
}

/// Whether the leading block reads as a header.
pub open spec fn header_ok(ls: Seq<Seq<char>>) -> bool {
    ls.len() >= 2 && line1_ok(ls[0]) && line2_ok(ls[1])
}

/// How a decoded header relates to the lines it was read from, with
/// `end` the index of the first body line.
pub open spec fn header_matches(ls: Seq<Seq<char>>, h: Header, end: int) -> bool {
    &&& end == meta_end(ls, 2)
    &&& line1_matches(
        ls[0],
        Line1 {
            release_datetime: h.release_datetime,
            version: h.version,
            data_type: h.data_type,
            num_epochs: h.num_epochs,
            data_used: h.data_used,
            coord_system: h.coord_system,
            orbit_type: h.orbit_type,
            agency: h.agency,
        },
    )
    &&& line2_matches(
        ls[1],
        Line2 { week_counter: h.week_counter, epoch_interval: h.epoch_interval, mjd: h.mjd },
    )
    &&& h.comments@.map_values(|c: String| c@) == spec_comments(ls, 2, end)
    &&& match spec_descriptor(ls, 2, end) {
        Some(d) => h.constellation == d.constellation && h.timescale == d.timescale,
        None => h.constellation == Constellation::Mixed && h.timescale == TimeScale::Gpst,
    }
}

/// The time scale the header block declares, with its default.
pub open spec fn header_timescale(ls: Seq<Seq<char>>) -> TimeScale {
    match spec_descriptor(ls, 2, meta_end(ls, 2)) {
        Some(d) => d.timescale,
        None => TimeScale::Gpst,
    }
}

/// Extending the block by one line extends its comments at the back.
proof fn lemma_comments_extend(lines: Seq<Seq<char>>, i: int, end: int)
    requires
        i <= end < lines.len(),
    ensures
        spec_comments(lines, i, end + 1) == spec_comments(lines, i, end) + (if is_comment_line(
            lines[end],
        ) && lines[end].len() > 4 {
            seq![lines[end].subrange(3, lines[end].len() as int)]
        } else {
            Seq::<Seq<char>>::empty()
        }),
    decreases end - i,
{
    reveal_with_fuel(spec_comments, 3);
    if i >= end {
        assert(spec_comments(lines, i, i) =~= Seq::<Seq<char>>::empty());
        if is_comment_line(lines[end]) && lines[end].len() > 4 {
            assert(spec_comments(lines, i, end + 1) =~= spec_comments(lines, i, end) + seq![
                lines[end].subrange(3, lines[end].len() as int),
            ]);
        } else {
            assert(spec_comments(lines, i, end + 1) =~= spec_comments(lines, i, end)
                + Seq::<Seq<char>>::empty());
        }
    } else {
        lemma_comments_extend(lines, i + 1, end);
        if is_comment_line(lines[i]) && lines[i].len() > 4 {
            assert(spec_comments(lines, i, end + 1) =~= spec_comments(lines, i, end) + (
            if is_comment_line(lines[end]) && lines[end].len() > 4 {
                seq![lines[end].subrange(3, lines[end].len() as int)]
            } else {
                Seq::<Seq<char>>::empty()
            }));
        } else {
            assert(spec_comments(lines, i, end + 1) =~= spec_comments(lines, i, end) + (
            if is_comment_line(lines[end]) && lines[end].len() > 4 {
                seq![lines[end].subrange(3, lines[end].len() as int)]
            } else {
                Seq::<Seq<char>>::empty()
            }));
        }
    }
}

/// Extending the block by one line: a readable lead descriptor there
/// takes over, anything else leaves the last one standing.
proof fn lemma_descriptor_extend(lines: Seq<Seq<char>>, i: int, end: int)
    requires
        i <= end < lines.len(),
    ensures
        spec_descriptor(lines, i, end + 1) == (if is_descriptor_line(lines[end])
            && descriptor_h1_ok(lines[end]) {
            Some(descriptor_h1_of(lines[end]))
        } else {
            spec_descriptor(lines, i, end)
        }),
    decreases end - i,
{
    reveal_with_fuel(spec_descriptor, 3);
    if i < end {
        lemma_descriptor_extend(lines, i + 1, end);
    }
}

/// The meta block ends at the first non-meta line.
proof fn lemma_meta_end(lines: Seq<Seq<char>>, i: int, end: int)
    requires
        0 <= i <= end <= lines.len(),
        forall|j: int| i <= j < end ==> is_meta_line(#[trigger] lines[j]),
        end < lines.len() ==> !is_meta_line(lines[end]),
    ensures
        meta_end(lines, i) == end,
    decreases end - i,
{
    if i < end {
        lemma_meta_end(lines, i + 1, end);
    }
}

fn is_meta_exec(line: &str) -> (r: bool)
    ensures
        r == is_meta_line(line@),
{
    let n = line.unicode_len();
    if n == 0 {
        return false;
    }
    let c = line.get_char(0);
    c == '+' || c == '%' || (n >= 2 && c == '/' && line.get_char(1) == '*')
}

fn is_comment_exec(line: &str) -> (r: bool)
    ensures
        r == is_comment_line(line@),
{
    let n = line.unicode_len();
    n >= 2 && line.get_char(0) == '/' && line.get_char(1) == '*'
}

impl Header {
    /// Decodes the header block and says how many lines it consumed.
    #[verifier::spinoff_prover]
    #[verifier::rlimit(100)]
    pub fn parse(lines: &Vec<String>) -> (r: Result<(Header, usize), ParsingError>)
        ensures
            r is Ok <==> header_ok(line_views(lines@)),
            r matches Ok((h, end)) ==> header_matches(line_views(lines@), h, end as int) && 2 <= end
                <= lines@.len() && h.satellites@ == Seq::<SV>::empty(),
            r matches Err(e) ==> (e is MissingH1 <==> lines@.len() == 0),
            r matches Err(e) ==> (e is MissingH2 <==> (lines@.len() == 1 && line1_ok(
                line_views(lines@)[0],
            ))),
    {
        let ghost ls = line_views(lines@);
        if lines.len() == 0 {
            return Err(ParsingError::MissingH1);
        }
        let l1 = match Line1::parse(lines[0].as_str()) {
            Ok(v) => v,
            Err(e) => {
                proof {
                    assert(!(e is MissingH1) && !(e is MissingH2));
                }
                return Err(e);
            },
        };
        if lines.len() == 1 {
            return Err(ParsingError::MissingH2);
        }
        let l2 = match Line2::parse(lines[1].as_str()) {
            Ok(v) => v,
            Err(e) => {
                proof {
                    assert(!(e is MissingH1) && !(e is MissingH2));
                }
                return Err(e);
            },
        };
        let mut comments: Vec<String> = Vec::new();
        let mut constellation = Constellation::Mixed;
        let mut timescale = TimeScale::Gpst;
        let ghost mut desc: Option<FileDescriptorH1> = None;
        let mut i: usize = 2;
        proof {
            assert(spec_comments(ls, 2, 2) =~= Seq::<Seq<char>>::empty());
            assert(comments@.map_values(|c: String| c@) =~= Seq::<Seq<char>>::empty());
        }
        while i < lines.len() && is_meta_exec(lines[i].as_str())
            invariant
                2 <= i <= lines@.len(),
                ls == line_views(lines@),
                forall|j: int| 2 <= j < i ==> is_meta_line(#[trigger] ls[j]),
                comments@.map_values(|c: String| c@) == spec_comments(ls, 2, i as int),
                desc == spec_descriptor(ls, 2, i as int),
                match desc {
                    Some(d) => constellation == d.constellation && timescale == d.timescale,
                    None => constellation == Constellation::Mixed && timescale == TimeScale::Gpst,
                },
            decreases lines@.len() - i,
        {
            let line = lines[i].as_str();
            proof {
                assert(ls[i as int] == line@);
            }
            if is_comment_exec(line) {
                let n = line.unicode_len();
                if n > 4 {
                    let content = line.substring_char(3, n);
                    comments.push(content.to_owned());
                    proof {
                        assert(comments@.map_values(|c: String| c@) =~= comments@.drop_last()
                            .map_values(|c: String| c@) + seq![line@.subrange(3, line@.len() as int)]);
                    }
                }
            } else if crate::descriptor::is_file_descriptor(line) {
                match FileDescriptor::parse(line) {
                    Ok(FileDescriptor::Line1(h1)) => {
                        constellation = h1.constellation;
                        timescale = h1.timescale;
                        proof {
                            assert(descriptor_h1_ok(line@));
                            assert(h1.timescale == descriptor_h1_of(line@).timescale) by {
                                let tc = choose|t: TimeScale|
                                    spec_trim(line@.subrange(9, 12)) == timescale_str(t);
                                crate::ids::lemma_timescale_str_inj(h1.timescale, tc);
                            }
                            desc = Some(descriptor_h1_of(line@));
                        }
                    },
                    _ => {
                    },
                }
            }
            proof {
                lemma_comments_extend(ls, 2, i as int);
                lemma_descriptor_extend(ls, 2, i as int);
                if !(is_comment_line(ls[i as int]) && ls[i as int].len() > 4) {
                    assert(spec_comments(ls, 2, i as int + 1) =~= spec_comments(ls, 2, i as int));
                }
            }
            i = i + 1;
        }
        proof {
            lemma_meta_end(ls, 2, i as int);
        }
        let header = Header {
            version: l1.version,
            data_type: l1.data_type,
            coord_system: l1.coord_system,
            orbit_type: l1.orbit_type,
            agency: l1.agency,
            release_datetime: l1.release_datetime,
            num_epochs: l1.num_epochs,
            data_used: l1.data_used,
            week_counter: l2.week_counter,
            epoch_interval: l2.epoch_interval,
            mjd: l2.mjd,
            constellation,
            timescale,
            comments,
            satellites: Vec::new(),
        };
        Ok((header, i))
    }
}

} // verus!
