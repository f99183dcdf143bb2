//! Traffic counters.
use vstd::prelude::*;

verus! {

/// The counters of a running engine. They wrap around at `2^64`.
#[derive(Debug, Clone, Copy, PartialEq, Eq, Structural)]
pub struct VpnEngineTrafficStats {
    pub upload_bytes: u64,
    pub download_bytes: u64,
    pub upload_packets: u64,
    pub download_packets: u64,
}

/// A counter after `n` more, modulo `2^64`.
pub open spec fn counted(total: u64, n: nat) -> u64 {
    ((total + n) % 0x1_0000_0000_0000_0000) as u64
}

/// Counting twice is counting the sum.
pub proof fn lemma_counted(total: u64, a: nat, b: nat)
    ensures
        counted(counted(total, a), b) == counted(total, a + b),
        counted(total, 0) == total,
{
}

/// Adds to a counter.
pub fn count(total: u64, n: u64) -> (r: u64)
    ensures
        r == counted(total, n as nat),
{
    total.wrapping_add(n)
}

impl Default for VpnEngineTrafficStats {
    fn default() -> (r: Self)
        ensures
            r.upload_bytes == 0,
            r.download_bytes == 0,
            r.upload_packets == 0,
            r.download_packets == 0,
    {
        VpnEngineTrafficStats {
            upload_bytes: 0,
            download_bytes: 0,
            upload_packets: 0,
            download_packets: 0,
        }
    }
}

impl VpnEngineTrafficStats {
    /// Counts octets sent to the service.
    pub fn add_upload_bytes(&mut self, n: usize)
        ensures
            *final(self) == (VpnEngineTrafficStats {
                upload_bytes: counted(old(self).upload_bytes, n as nat),
                ..*old(self)
            }),
    {
        self.upload_bytes = count(self.upload_bytes, n as u64);
    }

    /// Counts octets received from the service.
    pub fn add_download_bytes(&mut self, n: usize)
        ensures
            *final(self) == (VpnEngineTrafficStats {
                download_bytes: counted(old(self).download_bytes, n as nat),
                ..*old(self)
            }),
    {
        self.download_bytes = count(self.download_bytes, n as u64);
    }

    /// Counts a packet sent to the service.
    pub fn add_upload_packet(&mut self)
        ensures
            *final(self) == (VpnEngineTrafficStats {
                upload_packets: counted(old(self).upload_packets, 1),
                ..*old(self)
            }),
    {
        self.upload_packets = count(self.upload_packets, 1);
    }

    /// Counts a packet received from the service.
    pub fn add_download_packet(&mut self)
        ensures
            *final(self) == (VpnEngineTrafficStats {
                download_packets: counted(old(self).download_packets, 1),
                ..*old(self)
            }),
    {
        self.download_packets = count(self.download_packets, 1);
    }
}

/// A counter goes up by what is counted, and starts again at zero where it has
/// no room: two counts that differ by less than the room leave different
/// counters.
pub proof fn counting_adds_up(total: u64, n: nat, m: nat)
    ensures
        total + n <= u64::MAX ==> counted(total, n) == total + n,
        n <= u64::MAX && total + n > u64::MAX ==> counted(total, n) == total + n - u64::MAX - 1,
        n < m && m - n <= u64::MAX ==> counted(total, n) != counted(total, m),
{
    let room: int = 0x1_0000_0000_0000_0000;
    if n < m && m - n <= u64::MAX {
        let a = total + n;
        let b = total + m;
        vstd::arithmetic::div_mod::lemma_fundamental_div_mod(a, room);
        vstd::arithmetic::div_mod::lemma_fundamental_div_mod(b, room);
        if a % room == b % room {
            assert(b - a == room * (b / room) - room * (a / room));
        }
    }
}

} // verus!
