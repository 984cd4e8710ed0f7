//! Planning one invocation of the tool.
//!
//! The shell parses the command line and hands the result here as plain
//! values; the plan says what to do and in which order.  Restore mode wins
//! over everything else; missing positional paths mean the usage message;
//! move-and-link first moves the source to the destination and then links
//! the destination back to where the source was — so the link request, and
//! the mapping record written for it, carry the two paths in reverse.

use vstd::prelude::*;

use crate::bytes::clone_bytes;
use crate::codec::MappingRecord;
use crate::link_machine::LinkRequest;

verus! {

/// The parsed command line, as plain values.
#[derive(Clone, Debug)]
pub struct CliRequest {
    pub src: Option<Vec<u8>>,
    pub dst: Option<Vec<u8>>,
    pub force: bool,
    pub junction: bool,
    pub move_and_link: bool,
    pub generate_mapping: Option<Vec<u8>>,
    pub restore_mapping: Option<Vec<u8>>,
}

/// What one invocation does.
#[derive(Clone, Debug)]
pub enum Plan {
    /// Read the mapping file at `path` and replay it.
    Restore { path: Vec<u8> },
    /// Print the usage message: a positional path is missing.
    Usage,
    /// Create one link, then write a mapping file if one was asked for.
    LinkOnly { request: LinkRequest, mapping_out: Option<Vec<u8>> },
    /// Move the source to the destination, link the destination back to the
    /// source's old place, then write a mapping file if one was asked for.
    MoveAndLink {
        move_src: Vec<u8>,
        move_dst: Vec<u8>,
        request: LinkRequest,
        mapping_out: Option<Vec<u8>>,
    },
}

/// An optional path, viewed.
pub open spec fn opt_path_view(p: Option<Vec<u8>>) -> Option<Seq<u8>> {
    match p {
        Some(v) => Some(v@),
        None => None,
    }
}

/// Decide what an invocation does.
pub fn plan_invocation(input: CliRequest) -> (p: Plan)
    ensures
        match input.restore_mapping {
            Some(path) => p matches Plan::Restore { path: q } && q@ == path@,
            None => match (input.src, input.dst) {
                (Some(s), Some(d)) => if input.move_and_link {
                    p matches Plan::MoveAndLink { move_src, move_dst, request, mapping_out }
                        && move_src@ == s@ && move_dst@ == d@ && request.src@ == d@
                        && request.dst@ == s@ && request.force == input.force
                        && request.junction == input.junction && opt_path_view(mapping_out)
                        == opt_path_view(input.generate_mapping)
                } else {
                    p matches Plan::LinkOnly { request, mapping_out } && request.src@ == s@
                        && request.dst@ == d@ && request.force == input.force
                        && request.junction == input.junction && opt_path_view(mapping_out)
                        == opt_path_view(input.generate_mapping)
                },
                _ => p == Plan::Usage,
            },
        },
{
    let CliRequest { src, dst, force, junction, move_and_link, generate_mapping, restore_mapping } =
        input;
    match restore_mapping {
        Some(path) => Plan::Restore { path },
        None => match (src, dst) {
            (Some(s), Some(d)) => if move_and_link {
                Plan::MoveAndLink {
                    move_src: clone_bytes(&s),
                    move_dst: clone_bytes(&d),
                    request: LinkRequest { src: d, dst: s, force, junction },
                    mapping_out: generate_mapping,
                }
            } else {
                Plan::LinkOnly {
                    request: LinkRequest { src: s, dst: d, force, junction },
                    mapping_out: generate_mapping,
                }
            },
            _ => Plan::Usage,
        },
    }
}

/// The mapping record that a link request persists as.
pub fn record_for(request: &LinkRequest) -> (r: MappingRecord)
    ensures
        r.src@ == request.src@,
        r.dst@ == request.dst@,
        r.force == request.force,
        r.junction == request.junction,
{
    MappingRecord {
        src: clone_bytes(&request.src),
        dst: clone_bytes(&request.dst),
        force: request.force,
        junction: request.junction,
    }
}

/// The link request that one mapping record replays as.
pub fn request_of(record: &MappingRecord) -> (r: LinkRequest)
    ensures
        r.src@ == record.src@,
        r.dst@ == record.dst@,
        r.force == record.force,
        r.junction == record.junction,
{
    LinkRequest {
        src: clone_bytes(&record.src),
        dst: clone_bytes(&record.dst),
        force: record.force,
        junction: record.junction,
    }
}

} // verus!
