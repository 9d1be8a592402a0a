//! The synthetic payload with which the capacity of a format is probed: a
//! header line of comma-separated column names, followed by one data line
//! repeated as often as the length asks for. Mixed letters, digits and
//! punctuation keep the backend from treating the payload as digits only.

use vstd::prelude::*;

verus! {

/// Length of the header line, its line feed included.
pub const HEADER_LEN: usize = 42;

/// Length of the data line, its line feed included.
pub const DATA_LEN: usize = 58;

/// The header line: `item,value,timestamp,category,description` and a line
/// feed.
pub const HEADER_LINE: [char; 42] = [
    'i', 't', 'e', 'm', ',', 'v', 'a', 'l', 'u', 'e', ',', 't', 'i', 'm', 'e', 's', 't', 'a',
    'm', 'p', ',', 'c', 'a', 't', 'e', 'g', 'o', 'r', 'y', ',', 'd', 'e', 's', 'c', 'r', 'i',
    'p', 't', 'i', 'o', 'n', '\n',
];

/// The data line: `data123,456.78,2024-01-01,category1,some description text`
/// and a line feed.
pub const DATA_LINE: [char; 58] = [
    'd', 'a', 't', 'a', '1', '2', '3', ',', '4', '5', '6', '.', '7', '8', ',', '2', '0', '2',
    '4', '-', '0', '1', '-', '0', '1', ',', 'c', 'a', 't', 'e', 'g', 'o', 'r', 'y', '1', ',',
    's', 'o', 'm', 'e', ' ', 'd', 'e', 's', 'c', 'r', 'i', 'p', 't', 'i', 'o', 'n', ' ', 't',
    'e', 'x', 't', '\n',
];

/// Byte `i` of the endless probe text: the header line once, then the data
/// line over and over.
pub open spec fn probe_byte(i: int) -> u8 {
    if i < HEADER_LEN {
        HEADER_LINE@[i] as u8
    } else {
        DATA_LINE@[(i - HEADER_LEN) % (DATA_LEN as int)] as u8
    }
}

/// The probe payload of `len` bytes: the first `len` bytes of the probe text.
pub open spec fn probe_pattern(len: nat) -> Seq<u8> {
    Seq::new(len, |i: int| probe_byte(i))
}

/// The probe payload of exactly `len` bytes.
pub fn probe_payload(len: usize) -> (payload: Vec<u8>)
    ensures
        payload@ == probe_pattern(len as nat),
{
    let mut payload: Vec<u8> = Vec::new();
    let mut i: usize = 0;
    while i < len
        invariant
            i <= len,
            payload@ == probe_pattern(i as nat),
        decreases len - i,
    {
        let byte = if i < HEADER_LEN {
            HEADER_LINE[i] as u8
        } else {
            DATA_LINE[(i - HEADER_LEN) % DATA_LEN] as u8
        };
        payload.push(byte);
        i += 1;
        assert(payload@ =~= probe_pattern(i as nat));
    }
    payload
}

/// Probe payloads of different lengths are of one pattern: the shorter is
/// the beginning of the longer.
pub proof fn lemma_probe_pattern_extends(shorter: nat, longer: nat)
    requires
        shorter <= longer,
    ensures
        probe_pattern(longer).take(shorter as int) == probe_pattern(shorter),
        probe_pattern(shorter).len() == shorter,
{
    assert(probe_pattern(longer).take(shorter as int) =~= probe_pattern(shorter));
}

} // verus!
