//! The Wake-on-LAN magic packet: six bytes of `0xFF`, then the target's hardware address
//! sixteen times over.
use crate::mac::{mac_address_of, parse_mac_address, MacParseError, MAC_LEN};
use vstd::prelude::*;

verus! {

/// The number of leading synchronisation bytes.
pub const SYNC_LEN: usize = 6;

/// How many times the address is repeated after the synchronisation bytes.
pub const REPEATS: usize = 16;

/// The length of a magic packet.
pub const PACKET_LEN: usize = 102;

/// The UDP port that magic packets are sent to.
pub const WAKE_PORT: u16 = 9;

/// The magic packet for the address `mac`.
pub open spec fn magic_packet_of(mac: Seq<u8>) -> Seq<u8> {
    Seq::new(
        (SYNC_LEN + REPEATS * mac.len()) as nat,
        |i: int|
            if i < SYNC_LEN {
                0xFFu8
            } else {
                mac[(i - SYNC_LEN) % mac.len() as int]
            },
    )
}

/// The packet that waking the address spelled by `s` takes, or why `s` spells none.
pub open spec fn magic_packet_for(s: Seq<char>) -> Result<Seq<u8>, MacParseError> {
    match mac_address_of(s) {
        Ok(mac) => Ok(magic_packet_of(mac)),
        Err(e) => Err(e),
    }
}

/// For every string that spells a hardware address, the packet is 102 bytes long, opens
/// with six bytes of `0xFF`, and then holds the six-octet address sixteen times over.
pub proof fn lemma_magic_packet_layout(s: Seq<char>)
    requires
        mac_address_of(s) is Ok,
    ensures
        magic_packet_for(s) is Ok,
        mac_address_of(s)->Ok_0.len() == MAC_LEN,
        magic_packet_for(s)->Ok_0.len() == PACKET_LEN,
        forall|i: int| 0 <= i < SYNC_LEN ==> magic_packet_for(s)->Ok_0[i] == 0xFFu8,
        forall|k: int|
            0 <= k < REPEATS ==> #[trigger] magic_packet_for(s)->Ok_0.subrange(
                SYNC_LEN + MAC_LEN * k,
                SYNC_LEN + MAC_LEN * (k + 1),
            ) == mac_address_of(s)->Ok_0,
{
    let mac = mac_address_of(s)->Ok_0;
    let p = magic_packet_of(mac);
    assert forall|k: int| 0 <= k < REPEATS implies #[trigger] p.subrange(
        SYNC_LEN + MAC_LEN * k,
        SYNC_LEN + MAC_LEN * (k + 1),
    ) == mac by {
        assert forall|j: int| 0 <= j < MAC_LEN implies #[trigger] p.subrange(
            SYNC_LEN + MAC_LEN * k,
            SYNC_LEN + MAC_LEN * (k + 1),
        )[j] == mac[j] by {
            assert((MAC_LEN * k + j) % (MAC_LEN as int) == j) by (nonlinear_arith)
                requires
                    0 <= j < MAC_LEN,
                    0 <= k,
            ;
            assert(SYNC_LEN + MAC_LEN * k + j < PACKET_LEN) by (nonlinear_arith)
                requires
                    0 <= j < MAC_LEN,
                    0 <= k < REPEATS,
            ;
        }
        assert(p.subrange(SYNC_LEN + MAC_LEN * k, SYNC_LEN + MAC_LEN * (k + 1)) =~= mac);
    }
}

/// Reading an address depends on its text alone: equal strings give equal addresses and
/// equal packets, however often they are read.
pub proof fn lemma_packet_deterministic(a: Seq<char>, b: Seq<char>)
    requires
        a == b,
    ensures
        mac_address_of(a) == mac_address_of(b),
        magic_packet_for(a) == magic_packet_for(b),
{
}

/// Lays out the magic packet for a six-octet address.
pub fn assemble_magic_packet(mac: &Vec<u8>) -> (r: Vec<u8>)
    requires
        mac.len() == MAC_LEN,
    ensures
        r@ == magic_packet_of(mac@),
{
    let mut packet: Vec<u8> = Vec::new();
    let mut i: usize = 0;
    while i < SYNC_LEN
        invariant
            i <= SYNC_LEN,
            packet@ == magic_packet_of(mac@).take(i as int),
            mac.len() == MAC_LEN,
        decreases SYNC_LEN - i,
    {
        packet.push(0xFF);
        i = i + 1;
        assert(packet@ =~= magic_packet_of(mac@).take(i as int));
    }
    let mut k: usize = 0;
    while k < REPEATS
        invariant
            k <= REPEATS,
            packet@ == magic_packet_of(mac@).take(SYNC_LEN + MAC_LEN * k),
            mac.len() == MAC_LEN,
        decreases REPEATS - k,
    {
        let mut j: usize = 0;
        while j < MAC_LEN
            invariant
                k < REPEATS,
                j <= MAC_LEN,
                packet@ == magic_packet_of(mac@).take(SYNC_LEN + MAC_LEN * k + j),
                mac.len() == MAC_LEN,
            decreases MAC_LEN - j,
        {
            let ghost n = SYNC_LEN + MAC_LEN * k + j;
            assert((n - SYNC_LEN) % (MAC_LEN as int) == j as int) by (nonlinear_arith)
                requires
                    n == SYNC_LEN + MAC_LEN * k + j,
                    j < MAC_LEN,
            ;
            packet.push(mac[j]);
            j = j + 1;
            assert(packet@ =~= magic_packet_of(mac@).take(n + 1));
        }
        k = k + 1;
    }
    assert(packet@ =~= magic_packet_of(mac@));
    packet
}

/// Builds the magic packet that wakes the device whose hardware address `mac_address`
/// spells, or says why it spells none.
pub fn create_magic_packet(mac_address: &str) -> (r: Result<Vec<u8>, MacParseError>)
    ensures
        match r {
            Ok(p) => magic_packet_for(mac_address@) == Ok::<Seq<u8>, MacParseError>(p@),
            Err(e) => magic_packet_for(mac_address@) == Err::<Seq<u8>, MacParseError>(e),
        },
{
    match parse_mac_address(mac_address) {
        Ok(mac) => Ok(assemble_magic_packet(&mac)),
        Err(e) => Err(e),
    }
}

} // verus!
