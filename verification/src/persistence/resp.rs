//! Commands as RESP2 frames.
//!
//! A command is written as an array of bulk strings, the same bytes on the
//! wire and in the append-only file.

use vstd::prelude::*;

use crate::protocol::encoder::{
    array_header, bulk_string, encode_array_header, encode_bulk_string,
};

verus! {

/// The bytes of each slice.
pub open spec fn slice_views(parts: Seq<&[u8]>) -> Seq<Seq<u8>> {
    parts.map_values(|p: &[u8]| p@)
}

/// The bytes of each vector.
pub open spec fn vec_views(parts: Seq<Vec<u8>>) -> Seq<Seq<u8>> {
    parts.map_values(|p: Vec<u8>| p@)
}

/// The bulk strings of `parts`, one after the other.
pub open spec fn bulk_strings(parts: Seq<Seq<u8>>) -> Seq<u8>
    decreases parts.len(),
{
    if parts.len() == 0 {
        Seq::empty()
    } else {
        bulk_string(parts[0]) + bulk_strings(parts.skip(1))
    }
}

/// The frame of a command: `*n\r\n`, then one bulk string for each part.
pub open spec fn command_frame(parts: Seq<Seq<u8>>) -> Seq<u8> {
    array_header(parts.len()) + bulk_strings(parts)
}

/// Encodes a command name and its arguments as one frame.
pub fn encode_command(parts: &[&[u8]]) -> (frame: Vec<u8>)
    ensures
        frame@ == command_frame(slice_views(parts@)),
{
    let mut frame: Vec<u8> = Vec::new();
    encode_array_header(&mut frame, parts.len());
    let ghost all = slice_views(parts@);
    assert(all.skip(0) =~= all);
    assert(frame@ + bulk_strings(all) =~= command_frame(all));
    let mut i: usize = 0;
    while i < parts.len()
        invariant
            i <= parts.len(),
            all == slice_views(parts@),
            frame@ + bulk_strings(all.skip(i as int)) == command_frame(all),
        decreases parts.len() - i,
    {
        let ghost before = frame@;
        encode_bulk_string(&mut frame, parts[i]);
        proof {
            let rest = all.skip(i as int);
            assert(rest[0] == parts@[i as int]@);
            assert(rest.skip(1) =~= all.skip(i as int + 1));
            assert(frame@ + bulk_strings(all.skip(i as int + 1)) =~= before + bulk_strings(rest));
        }
        i += 1;
    }
    assert(all.skip(i as int) =~= Seq::<Seq<u8>>::empty());
    assert(frame@ + bulk_strings(all.skip(i as int)) =~= frame@);
    frame
}

} // verus!
