use pcap_file::pcapng::{ParsedBlock, PcapNgReader};
use vstd::prelude::*;
use vstd::utf8::{decode_utf8, valid_utf8};

use crate::frames::{frames_view, Frame};
use crate::packets::{messages_defined, messages_spec, read_messages};

verus! {

/// The blocks of a pcapng capture after its first section header, in order, as `pcap_file`'s
/// `PcapNgReader` reads and parses them: the data of each enhanced packet, nothing for a block of
/// any other kind; none at all when the capture has no valid section header, or a block of it
/// cannot be read or parsed.
pub uninterp spec fn capture_blocks(capture: Seq<u8>) -> Option<Seq<Option<Seq<u8>>>>;

/// The text that `String::from_utf8_lossy` makes of bytes: the UTF-8 text they hold, with each
/// invalid sequence replaced by U+FFFD.
pub uninterp spec fn lossy_text(bytes: Seq<u8>) -> Seq<char>;

/// Reads a capture with `pcap_file::pcapng::PcapNgReader` (version 1.1) over the bytes and
/// parses every block with `Block::parsed`, giving one entry per block: the data of an enhanced
/// packet, `None` for a block of another kind. The contract calls the result `capture_blocks` of
/// the bytes; it is `None` exactly when the reader's creation, the reading of a block, or the
/// parsing of a block reports an error. The block format itself is not stated.
#[verifier::external_body]
fn read_capture_blocks(capture: &[u8]) -> (res: Option<Vec<Option<Vec<u8>>>>)
    ensures
        res.deep_view() == capture_blocks(capture@),
{
    let reader = PcapNgReader::new(capture).ok()?;
    let mut blocks = Vec::new();
    for block in reader {
        blocks.push(match block.ok()?.parsed().ok()? {
            ParsedBlock::EnhancedPacket(packet) => Some(packet.data.into_owned()),
            _ => None,
        });
    }
    Some(blocks)
}

/// `String::from_utf8_lossy`, made an owned `String`: the contract calls the result `lossy_text`
/// of the bytes and, as the function's documentation gives it, the decoded text when the bytes
/// are valid UTF-8; how invalid sequences are replaced is not stated.
#[verifier::external_body]
fn lossy_text_of(bytes: &[u8]) -> (s: String)
    ensures
        s@ == lossy_text(bytes@),
        valid_utf8(bytes@) ==> s@ == decode_utf8(bytes@),
{
    String::from_utf8_lossy(bytes).into_owned()
}

/// Why the frames of a capture cannot be read.
#[derive(Debug, Clone, Copy, PartialEq, Eq)]
pub enum CaptureError {
    /// The capture is not a pcapng capture whose blocks can all be read and parsed.
    Unreadable,
    /// A message lacks a part it announces, or names an unknown joint.
    BadMessage,
}

/// The packets whose messages are read: the data of the enhanced packets among the blocks, in
/// order; blocks of other kinds are left out.
pub open spec fn packet_payloads(blocks: Seq<Option<Seq<u8>>>) -> Seq<Seq<u8>>
    decreases blocks.len(),
{
    if blocks.len() == 0 {
        Seq::empty()
    } else {
        let prev = packet_payloads(blocks.drop_last());
        match blocks.last() {
            Some(data) => prev.push(data),
            None => prev,
        }
    }
}

/// The messages of a capture: the lossy UTF-8 text of each enhanced packet's payload.
pub open spec fn capture_texts(payloads: Seq<Seq<u8>>) -> Seq<Seq<char>> {
    Seq::new(payloads.len(), |i: int| lossy_text(payloads[i]))
}

/// The frames of a pcapng capture (the logic of `parser`): the payload of each enhanced packet,
/// and of no other block, is read as lossy UTF-8 text, and the messages give the sensor frames
/// and the speed frames as `parse_messages` states. An unreadable capture, or a message that
/// cannot be read, is an error.
pub fn capture_frames(capture: &[u8]) -> (res: Result<(Vec<Frame>, Vec<Frame>), CaptureError>)
    ensures
        match res {
            Err(CaptureError::Unreadable) => capture_blocks(capture@) is None,
            Err(CaptureError::BadMessage) => capture_blocks(capture@) matches Some(b)
                && !messages_defined(capture_texts(packet_payloads(b))),
            Ok(frames) => capture_blocks(capture@) matches Some(b) && messages_defined(
                capture_texts(packet_payloads(b)),
            ) && (frames_view(frames.0@), frames_view(frames.1@)) == messages_spec(
                capture_texts(packet_payloads(b)),
            ),
        },
{
    let blocks = match read_capture_blocks(capture) {
        Some(b) => b,
        None => return Err(CaptureError::Unreadable),
    };
    let ghost bs = blocks.deep_view();
    let mut msgs: Vec<String> = Vec::new();
    for i in 0..blocks.len()
        invariant
            bs == blocks.deep_view(),
            msgs.deep_view() == capture_texts(packet_payloads(bs.take(i as int))),
    {
        let ghost before = msgs.deep_view();
        assert(bs.take(i + 1).drop_last() =~= bs.take(i as int));
        assert(bs.take(i + 1).last() == bs[i as int]);
        match &blocks[i] {
            Some(data) => {
                assert(data@ =~= bs[i as int]->0);
                let text = lossy_text_of(data.as_slice());
                let ghost pp = packet_payloads(bs.take(i as int));
                assert(packet_payloads(bs.take(i + 1)) == pp.push(data@));
                msgs.push(text);
                assert(msgs.deep_view() =~= before.push(lossy_text(data@)));
                assert(msgs.deep_view() =~= capture_texts(packet_payloads(bs.take(i + 1))));
            },
            None => {
                assert(msgs.deep_view() =~= capture_texts(packet_payloads(bs.take(i + 1))));
            },
        }
    }
    assert(bs.take(blocks.len() as int) =~= bs);
    let (ok, sensors, speeds) = read_messages(&msgs);
    if ok {
        Ok((sensors, speeds))
    } else {
        Err(CaptureError::BadMessage)
    }
}

} // verus!

verus! {

/// The packets among two runs of blocks are those of the first run followed by those of the
/// second: packets keep the order of the capture.
pub proof fn lemma_packet_payloads_concat(a: Seq<Option<Seq<u8>>>, b: Seq<Option<Seq<u8>>>)
    ensures
        packet_payloads(a + b) == packet_payloads(a) + packet_payloads(b),
    decreases b.len(),
{
    if b.len() == 0 {
        assert(a + b =~= a);
        assert(packet_payloads(a) + packet_payloads(b) =~= packet_payloads(a));
    } else {
        lemma_packet_payloads_concat(a, b.drop_last());
        assert((a + b).drop_last() =~= a + b.drop_last());
        assert((a + b).last() == b.last());
        let pa = packet_payloads(a);
        let pb = packet_payloads(b.drop_last());
        match b.last() {
            Some(d) => {
                assert((pa + pb).push(d) =~= pa + pb.push(d));
            },
            None => {},
        }
    }
}

/// An enhanced packet's block gives its data; any other block gives nothing.
pub proof fn lemma_packet_payloads_single(block: Option<Seq<u8>>)
    ensures
        packet_payloads(seq![block]) == (match block {
            Some(d) => seq![d],
            None => Seq::<Seq<u8>>::empty(),
        }),
{
    let e = Seq::<Option<Seq<u8>>>::empty();
    assert(seq![block].drop_last() =~= e);
    assert(seq![block].last() == block);
    assert(packet_payloads(e) == Seq::<Seq<u8>>::empty());
    match block {
        Some(d) => {
            assert(packet_payloads(seq![block]) == packet_payloads(e).push(d));
            assert(Seq::<Seq<u8>>::empty().push(d) =~= seq![d]);
        },
        None => {
            assert(packet_payloads(seq![block]) == packet_payloads(e));
        },
    }
}

/// The frames read from two runs of blocks, one after the other, are those of the first run
/// followed by those of the second: appending an enhanced packet to a capture appends its frame
/// at the end, so frame `i` comes from the `i`-th packet in capture order.
pub proof fn lemma_capture_frames_concat(a: Seq<Option<Seq<u8>>>, b: Seq<Option<Seq<u8>>>)
    ensures
        messages_spec(capture_texts(packet_payloads(a + b))).0 == messages_spec(
            capture_texts(packet_payloads(a)),
        ).0 + messages_spec(capture_texts(packet_payloads(b))).0,
        messages_spec(capture_texts(packet_payloads(a + b))).1 == messages_spec(
            capture_texts(packet_payloads(a)),
        ).1 + messages_spec(capture_texts(packet_payloads(b))).1,
{
    lemma_packet_payloads_concat(a, b);
    let pa = packet_payloads(a);
    let pb = packet_payloads(b);
    assert(capture_texts(pa + pb) =~= capture_texts(pa) + capture_texts(pb));
    crate::packets::lemma_messages_concat(capture_texts(pa), capture_texts(pb));
}

} // verus!
