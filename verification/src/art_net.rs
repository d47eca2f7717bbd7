//! The ArtDmx packet that carries one frame of LED data to an Art-Net node.
use vstd::prelude::*;

verus! {

/// Largest number of DMX512 channels that one ArtDmx packet carries.
pub const MAX_DMX_CHANNELS: usize = 512;

/// `n` rounded up to an even number: ArtDmx data always has even length.
pub open spec fn even_length(n: nat) -> nat {
    if n % 2 == 0 {
        n
    } else {
        n + 1
    }
}

/// The bytes "Art-Net" followed by a zero byte, which open every Art-Net packet.
pub open spec fn art_net_id() -> Seq<u8> {
    seq![0x41u8, 0x72u8, 0x74u8, 0x2du8, 0x4eu8, 0x65u8, 0x74u8, 0x00u8]
}

/// The ArtDmx packet for `data`, with the fields this installation sends:
/// the Art-Net id, opcode 0x5000 (low byte first), protocol version 14,
/// sequence 0, physical port 0, port address 1 (low byte first), the data
/// length rounded up to an even number (high byte first), the data, and one
/// zero byte of padding when the data length is odd.
pub open spec fn art_dmx_packet(data: Seq<u8>) -> Seq<u8> {
    let len = even_length(data.len());
    art_net_id() + seq![0x00u8, 0x50u8] + seq![0u8, 14u8] + seq![0u8, 0u8] + seq![1u8, 0u8]
        + seq![(len / 256) as u8, (len % 256) as u8] + data + if data.len() % 2 == 0 {
        Seq::<u8>::empty()
    } else {
        seq![0u8]
    }
}

/// Why a frame of LED data could not be framed as an ArtDmx packet.
#[derive(Debug, Clone, Copy, PartialEq, Eq)]
pub enum ArtNetError {
    /// The frame held no channel or more than 512 channels.
    InvalidDataLength,
}

#[verifier::external_type_specification]
#[verifier::external_body]
pub struct ExArtNetProtocolError(artnet_protocol::Error);

/// artnet_protocol's `ArtCommand::write_to_buffer`, applied to
/// `ArtCommand::Output` built from `Output::default()` with `data` as its data.
/// As the crate's source shows, it fails exactly when `data` is empty or holds
/// more than 512 bytes, and otherwise writes the Art-Net id, the opcode, the
/// default `Output` fields (version 14, sequence 0, physical 0, port address 1),
/// the even-rounded big-endian length, the data and the padding byte.
#[verifier::external_body]
fn write_output_command(data: Vec<u8>) -> (res: Result<Vec<u8>, artnet_protocol::Error>)
    ensures
        res is Ok <==> 1 <= data@.len() <= 512,
        res matches Ok(bytes) ==> bytes@ == art_dmx_packet(data@),
{
    let output = artnet_protocol::Output { data: data.into(), ..artnet_protocol::Output::default() };
    artnet_protocol::ArtCommand::Output(output).write_to_buffer()
}

/// The ArtDmx packet that sends `data` to the Art-Net node, or
/// `InvalidDataLength` when `data` holds no byte or more than 512 bytes.
pub fn output_packet(data: Vec<u8>) -> (res: Result<Vec<u8>, ArtNetError>)
    ensures
        1 <= data@.len() <= MAX_DMX_CHANNELS ==> (res matches Ok(bytes) && bytes@ == art_dmx_packet(
            data@,
        )),
        !(1 <= data@.len() <= MAX_DMX_CHANNELS) ==> res == Err::<Vec<u8>, ArtNetError>(
            ArtNetError::InvalidDataLength,
        ),
        res matches Ok(bytes) ==> {
            &&& bytes@.len() == 18 + data@.len() + data@.len() % 2
            &&& bytes@.subrange(0, 8) == seq![0x41u8, 0x72u8, 0x74u8, 0x2du8, 0x4eu8, 0x65u8, 0x74u8, 0x00u8]
            &&& bytes@.subrange(8, 16) == seq![0x00u8, 0x50u8, 0x00u8, 0x0eu8, 0x00u8, 0x00u8, 0x01u8, 0x00u8]
            &&& bytes@[16] as int * 256 + bytes@[17] as int == data@.len() + data@.len() % 2
            &&& bytes@.subrange(18, 18 + data@.len() as int) == data@
            &&& data@.len() % 2 == 1 ==> bytes@[18 + data@.len() as int] == 0u8
        },
{
    let ghost frame = data@;
    match write_output_command(data) {
        Ok(bytes) => {
            proof {
                lemma_packet_layout(frame);
            }
            Ok(bytes)
        },
        Err(_) => Err(ArtNetError::InvalidDataLength),
    }
}

/// Whatever the frame, an ArtDmx packet opens with the bytes "Art-Net" and a
/// zero byte, then opcode 0x5000 (low byte first), protocol version 14,
/// sequence 0, physical port 0 and port address 1 (low byte first); its length
/// field (high byte first) is the frame length rounded up to even; the frame
/// follows unchanged from offset 18, then one zero byte when its length is
/// odd, and nothing else.
pub proof fn lemma_packet_layout(data: Seq<u8>)
    requires
        1 <= data.len() <= 512,
    ensures
        art_dmx_packet(data).len() == 18 + data.len() + data.len() % 2,
        art_dmx_packet(data).subrange(0, 8) == seq![0x41u8, 0x72u8, 0x74u8, 0x2du8, 0x4eu8, 0x65u8, 0x74u8, 0x00u8],
        art_dmx_packet(data).subrange(8, 16) == seq![0x00u8, 0x50u8, 0x00u8, 0x0eu8, 0x00u8, 0x00u8, 0x01u8, 0x00u8],
        art_dmx_packet(data)[16] as int * 256 + art_dmx_packet(data)[17] as int == data.len()
            + data.len() % 2,
        (data.len() + data.len() % 2) % 2 == 0,
        art_dmx_packet(data).subrange(18, 18 + data.len() as int) == data,
        data.len() % 2 == 1 ==> art_dmx_packet(data)[18 + data.len() as int] == 0u8,
{
    let p = art_dmx_packet(data);
    let len = even_length(data.len());
    assert(p.subrange(0, 8) =~= seq![0x41u8, 0x72u8, 0x74u8, 0x2du8, 0x4eu8, 0x65u8, 0x74u8, 0x00u8]);
    assert(p.subrange(8, 16) =~= seq![0x00u8, 0x50u8, 0x00u8, 0x0eu8, 0x00u8, 0x00u8, 0x01u8, 0x00u8]);
    assert(p.subrange(18, 18 + data.len() as int) =~= data);
    assert(p[16] == (len / 256) as u8);
    assert(p[17] == (len % 256) as u8);
}

} // verus!
