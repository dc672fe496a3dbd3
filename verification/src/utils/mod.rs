//! Reading packets and holding them to what the proxy supports.
use vstd::prelude::*;

use crate::state::{AppState, Config};
use crate::utils::format::{read_packet, BodyView, FailureView, MessageView, PacketView};
use crate::utils::parser::{
    AerospikePacket, AerospikePacketBody, Failure, Fatal, INFO1_ALLOWED_MASK, INFO2_ALLOWED_MASK,
    INFO3_ALLOWED_MASK, INFO4_ALLOWED_MASK,
};

pub mod bytes;
pub mod format;
pub mod info;
pub mod laws;
pub mod layout;
pub mod parser;
pub mod text;

verus! {

/// Whether a message has only flags that interception supports.
pub open spec fn flags_supported(m: MessageView) -> bool {
    &&& m.info1 & !INFO1_ALLOWED_MASK == 0
    &&& m.info2 & !INFO2_ALLOWED_MASK == 0
    &&& m.info3 & !INFO3_ALLOWED_MASK == 0
    &&& m.info4 & !INFO4_ALLOWED_MASK == 0
}

/// Whether the packet may be served: it may unless interception is active and
/// it is a message with a flag that is not supported.
pub open spec fn feature_supported(config: Config, p: PacketView) -> bool {
    config.intercepts() ==> match p.body {
        BodyView::Info(_) => true,
        BodyView::Message(m) => flags_supported(m),
    }
}

/// The packet that `s` stands for, if it may be served.
pub open spec fn accepted_packet(config: Config, s: Seq<u8>) -> Result<PacketView, FailureView> {
    match read_packet(s) {
        Err(e) => Err(e),
        Ok(p) => if feature_supported(config, p) {
            Ok(p)
        } else {
            Err(FailureView::Fatal(Fatal::UnsupportedFeature))
        },
    }
}

/// Fails on a packet that may not be served. Nothing is checked unless
/// interception is active.
pub fn verify_supported_feature(packet: &AerospikePacket, state: &AppState) -> (r: Result<(), Fatal>)
    ensures
        match r {
            Ok(_) => feature_supported(state.config, packet@),
            Err(f) => !feature_supported(state.config, packet@) && f == Fatal::UnsupportedFeature,
        },
{
    if !state.intercept_messages() {
        return Ok(());
    }
    match &packet.body {
        AerospikePacketBody::Info(_) => Ok(()),
        AerospikePacketBody::Message(m) => {
            if (m.info1 & (!INFO1_ALLOWED_MASK) != 0) || (m.info2 & (!INFO2_ALLOWED_MASK) != 0) || (
            m.info3 & (!INFO3_ALLOWED_MASK) != 0) || (m.info4 & (!INFO4_ALLOWED_MASK) != 0) {
                Err(Fatal::UnsupportedFeature)
            } else {
                Ok(())
            }
        },
    }
}

/// Reads a packet from all of `bytes` and holds it to what is supported.
pub fn parse_to_as_packet(bytes: &[u8], state: &AppState) -> (r: Result<AerospikePacket, Failure>)
    ensures
        match accepted_packet(state.config, bytes@) {
            Ok(p) => r is Ok && r->Ok_0@ == p && r->Ok_0.body.wf(),
            Err(e) => r is Err && r->Err_0@ == e,
        },
{
    let packet = AerospikePacket::read(bytes)?;
    match verify_supported_feature(&packet, state) {
        Ok(()) => Ok(packet),
        Err(f) => Err(Failure::Fatal(f)),
    }
}

} // verus!
