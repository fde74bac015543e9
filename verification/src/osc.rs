//! OSC (Open Sound Control) packets as triggers. A datagram decodes into a
//! packet: a message with an address, or a bundle of nested packets. Every
//! message with a non-blank address becomes one [`Trigger::OscAddress`], in
//! document order.
use crate::text::{chars_of, string_of, trim, trim_chars};
use crate::triggers::Trigger;
use vstd::prelude::*;

verus! {

/// Default UDP port for the OSC listener.
pub const DEFAULT_OSC_PORT: u16 = 9000;

/// A decoded OSC packet, reduced to what the trigger system reads.
pub enum OscNode {
    /// A message and its address pattern.
    Message { addr: String },
    /// A bundle of nested packets, in order.
    Bundle { content: Vec<OscNode> },
}

#[verifier::external_type_specification]
#[verifier::external_body]
pub struct ExRoscPacket(rosc::OscPacket);

/// The packet that `rosc` decodes from a UDP datagram, reduced to addresses
/// and nesting; `None` when the datagram is not valid OSC.
pub uninterp spec fn decoded_packet(datagram: Seq<u8>) -> Option<OscNode>;

/// `rosc::decoder::decode_udp`: the datagram decoded as an OSC packet and
/// reduced to [`OscNode`]. The contract only names the result: it is
/// determined by the bytes of the datagram.
#[verifier::external_body]
fn decode_datagram(datagram: &[u8]) -> (r: Option<OscNode>)
    ensures
        r == decoded_packet(datagram@),
{
    match rosc::decoder::decode_udp(datagram) {
        Ok((_rest, packet)) => Some(packet_from_rosc(&packet)),
        Err(_) => None,
    }
}

/// Converts a `rosc` packet tree into an [`OscNode`], one node for one
/// node, keeping message addresses and bundle order.
#[verifier::external_body]
fn packet_from_rosc(p: &rosc::OscPacket) -> OscNode {
    match p {
        rosc::OscPacket::Message(m) => OscNode::Message { addr: m.addr.clone() },
        rosc::OscPacket::Bundle(b) => OscNode::Bundle {
            content: b.content.iter().map(packet_from_rosc).collect(),
        },
    }
}

/// Decode one UDP datagram into the triggers it carries; `None` when the
/// datagram is not valid OSC (it is then only logged).
pub fn datagram_triggers(datagram: &[u8]) -> (r: Option<Vec<Trigger>>)
    ensures
        match decoded_packet(datagram@) {
            Some(p) => r matches Some(ts) && triggers_have_addresses(ts@, packet_addresses(p)),
            None => r is None,
        },
{
    match decode_datagram(datagram) {
        Some(packet) => Some(packet_to_triggers(&packet)),
        None => None,
    }
}

/// The trigger addresses a packet yields: each message's trimmed address,
/// unless it is empty, in document order.
pub open spec fn packet_addresses(p: OscNode) -> Seq<Seq<char>>
    decreases p, 1nat,
{
    match p {
        OscNode::Message { addr } => if trim(addr@).len() == 0 {
            seq![]
        } else {
            seq![trim(addr@)]
        },
        OscNode::Bundle { content } => content_addresses(content@, content@.len() as int),
    }
}

/// The addresses of the first `n` packets of a bundle.
pub open spec fn content_addresses(ps: Seq<OscNode>, n: int) -> Seq<Seq<char>>
    decreases ps, 0nat, n,
{
    if n <= 0 || n > ps.len() {
        seq![]
    } else {
        content_addresses(ps, n - 1) + packet_addresses(ps[n - 1])
    }
}

/// The triggers carry exactly the given addresses.
pub open spec fn triggers_have_addresses(ts: Seq<Trigger>, addrs: Seq<Seq<char>>) -> bool {
    &&& ts.len() == addrs.len()
    &&& forall|i: int|
        0 <= i < ts.len() ==> (#[trigger] ts[i] matches Trigger::OscAddress { address } && address@
            == addrs[i])
}

/// Flatten an OSC packet (which may be a bundle of nested messages) into a
/// list of triggers. Empty addresses yield nothing.
pub fn packet_to_triggers(packet: &OscNode) -> (r: Vec<Trigger>)
    ensures
        triggers_have_addresses(r@, packet_addresses(*packet)),
{
    let mut out: Vec<Trigger> = Vec::new();
    collect(packet, &mut out);
    assert(out@ =~= Seq::<Trigger>::empty() + out@);
    out
}

#[verifier::loop_isolation(false)]
fn collect(packet: &OscNode, out: &mut Vec<Trigger>)
    requires
        triggers_have_addresses(old(out)@, old(out)@.map_values(|t: Trigger| trigger_address(t))),
    ensures
        triggers_have_addresses(
            final(out)@,
            old(out)@.map_values(|t: Trigger| trigger_address(t)) + packet_addresses(*packet),
        ),
    decreases packet,
{
    match packet {
        OscNode::Message { addr } => {
            let a = trim_chars(&chars_of(addr.as_str()));
            if a.len() == 0 {
                assert(old(out)@.map_values(|t: Trigger| trigger_address(t)) + packet_addresses(*packet)
                    =~= old(out)@.map_values(|t: Trigger| trigger_address(t)));
                return;
            }
            let ghost before = out@;
            out.push(Trigger::OscAddress { address: string_of(&a) });
            assert forall|i: int| 0 <= i < out@.len() implies (#[trigger] out@[i] matches Trigger::OscAddress { address }
                && address@ == (before.map_values(|t: Trigger| trigger_address(t)) + packet_addresses(*packet))[i]) by {
                if i < before.len() {
                    assert(out@[i] == before[i]);
                }
            }
        },
        OscNode::Bundle { content } => {
            let mut i: usize = 0;
            while i < content.len()
                invariant
                    i <= content.len(),
                    triggers_have_addresses(
                        out@,
                        old(out)@.map_values(|t: Trigger| trigger_address(t)) + content_addresses(content@, i as int),
                    ),
                decreases content.len() - i,
            {
                proof {
                    lemma_have_addresses_map(out@,
                        old(out)@.map_values(|t: Trigger| trigger_address(t)) + content_addresses(content@, i as int));
                }
                proof {
                    vstd::std_specs::vec::axiom_vec_index_decreases(*content, i as int);
                    assert(decreases_to!(*packet => (*packet)->content));
                    assert(decreases_to!(*content => content[i as int]));
                }
                collect(&content[i], out);
                i = i + 1;
                assert(old(out)@.map_values(|t: Trigger| trigger_address(t)) + content_addresses(content@, i as int)
                    =~= old(out)@.map_values(|t: Trigger| trigger_address(t)) + content_addresses(content@, i - 1) + packet_addresses(content@[i - 1]));
            }
        },
    }
}

/// The address of an OSC trigger (empty for any other trigger).
pub open spec fn trigger_address(t: Trigger) -> Seq<char> {
    match t {
        Trigger::OscAddress { address } => address@,
        _ => Seq::empty(),
    }
}

proof fn lemma_have_addresses_map(ts: Seq<Trigger>, addrs: Seq<Seq<char>>)
    requires
        triggers_have_addresses(ts, addrs),
    ensures
        addrs == ts.map_values(|t: Trigger| trigger_address(t)),
        triggers_have_addresses(ts, ts.map_values(|t: Trigger| trigger_address(t))),
{
    assert(addrs =~= ts.map_values(|t: Trigger| trigger_address(t)));
}

} // verus!
