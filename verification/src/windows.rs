//! The Windows tunnel device: the adapter in use, what comes out of its ring,
//! and texts as Windows wants them.
use crate::ipv4::Ipv4Addr;
use crate::text::chars_of;
use crate::windows_log;
use crate::windows_log::path_beside;
use vstd::prelude::*;
use vstd::string::*;

verus! {

/// The error code of an empty ring.
pub const ERROR_NO_MORE_ITEMS: i32 = 259;

/// The octets of the ring of a session.
pub const RING_CAPACITY: u32 = 0x40_0000;

/// How long an empty ring is waited for, in milliseconds.
pub const READ_WAIT_MS: u32 = 100;

/// The answer of a wait that was fulfilled.
pub const WAIT_OBJECT_0: u32 = 0;

/// The answer of a wait that took too long.
pub const WAIT_TIMEOUT: u32 = 258;

// ---------------------------------------------------------------------------
// The adapter in use
// ---------------------------------------------------------------------------

/// The adapter of the running engine, from the number that is stored for it.
/// Zero stands for none.
pub fn active_adapter_luid(stored: u64) -> (r: Option<u64>)
    ensures
        r == stored_luid(stored),
        r is None <==> stored == 0,
        r is Some ==> r->0 == stored,
{
    if stored == 0 {
        None
    } else {
        Some(stored)
    }
}

/// The address of the running engine, from the number that is stored for it.
/// Zero stands for none.
pub fn active_adapter_ip(stored: u32) -> (r: Option<Ipv4Addr>)
    ensures
        r == stored_ip(stored),
        r is None <==> stored == 0,
        r is Some ==> r->0.bits == stored,
{
    if stored == 0 {
        None
    } else {
        Some(Ipv4Addr { bits: stored })
    }
}

/// What is stored of the adapter in use.
#[derive(Debug, Clone, Copy, PartialEq, Eq, Structural)]
pub struct ActiveAdapter {
    pub luid: u64,
    pub ip: u32,
}

impl ActiveAdapter {
    /// No adapter.
    pub fn none() -> (r: ActiveAdapter)
        ensures
            r == (ActiveAdapter { luid: 0, ip: 0 }),
    {
        ActiveAdapter { luid: 0, ip: 0 }
    }

    /// What is stored once a device was opened.
    pub open spec fn after_opening(self, luid: u64, local_ip: Ipv4Addr) -> ActiveAdapter {
        ActiveAdapter { luid, ip: local_ip.bits }
    }

    /// What is stored once a device was closed. What another device has stored
    /// since stays.
    pub open spec fn after_closing(self, luid: u64, local_ip: Ipv4Addr) -> ActiveAdapter {
        ActiveAdapter {
            luid: if self.luid == luid {
                0
            } else {
                self.luid
            },
            ip: if self.ip == local_ip.bits {
                0
            } else {
                self.ip
            },
        }
    }

    /// A device was opened.
    pub fn opened(&mut self, luid: u64, local_ip: Ipv4Addr)
        ensures
            *final(self) == old(self).after_opening(luid, local_ip),
            final(self).luid == luid,
            final(self).ip == local_ip.bits,
    {
        self.luid = luid;
        self.ip = local_ip.bits;
    }

    /// A device is closed. What another device has stored since stays. An
    /// adapter that was taken up survives its closing, so the address comes
    /// back that has to be removed from its interface.
    pub fn closed(&mut self, luid: u64, local_ip: Ipv4Addr) -> (r: AddressRemoval)
        ensures
            *final(self) == old(self).after_closing(luid, local_ip),
            old(self).luid == luid ==> final(self).luid == 0,
            old(self).luid != luid ==> final(self).luid == old(self).luid,
            old(self).ip == local_ip.bits ==> final(self).ip == 0,
            old(self).ip != local_ip.bits ==> final(self).ip == old(self).ip,
            r == (AddressRemoval { luid, address: local_ip }),
    {
        if self.luid == luid {
            self.luid = 0;
        }
        if self.ip == local_ip.bits {
            self.ip = 0;
        }
        AddressRemoval { luid, address: local_ip }
    }
}

/// An address that has to be removed from an interface.
#[derive(Debug, Clone, Copy, PartialEq, Eq, Structural)]
pub struct AddressRemoval {
    pub luid: u64,
    pub address: Ipv4Addr,
}

/// What the number that is stored for an adapter stands for.
pub open spec fn stored_luid(stored: u64) -> Option<u64> {
    if stored == 0 {
        None
    } else {
        Some(stored)
    }
}

/// What the number that is stored for an address stands for.
pub open spec fn stored_ip(stored: u32) -> Option<Ipv4Addr> {
    if stored == 0 {
        None
    } else {
        Some(Ipv4Addr { bits: stored })
    }
}

/// Closing a device that another one has followed clears nothing that the
/// newer one has stored: its adapter and its address are still those in use.
pub proof fn closing_a_stale_device_spares_the_newer(
    before: ActiveAdapter,
    luid: u64,
    ip: Ipv4Addr,
    newer: u64,
    newer_ip: Ipv4Addr,
)
    requires
        newer != luid,
        newer_ip != ip,
        newer != 0,
        newer_ip.bits != 0,
    ensures
        ({
            let end = before.after_opening(luid, ip).after_opening(newer, newer_ip).after_closing(
                luid,
                ip,
            );
            stored_luid(end.luid) == Some(newer) && stored_ip(end.ip) == Some(newer_ip)
        }),
{
    assert(newer_ip == (Ipv4Addr { bits: newer_ip.bits }));
}

/// Closing the device in use leaves none.
pub proof fn closing_the_device_in_use_leaves_none(
    before: ActiveAdapter,
    luid: u64,
    ip: Ipv4Addr,
)
    ensures
        ({
            let end = before.after_opening(luid, ip).after_closing(luid, ip);
            stored_luid(end.luid) is None && stored_ip(end.ip) is None
        }),
{
}

// ---------------------------------------------------------------------------
// Opening
// ---------------------------------------------------------------------------

/// A way to an adapter.
#[derive(Debug, Clone, Copy, PartialEq, Eq, Structural)]
pub enum AdapterStep {
    /// Take up one that a crashed run left behind.
    Open,
    Create,
}

/// What is made of a try.
#[derive(Debug)]
pub enum AdapterDecision {
    /// There is an adapter.
    Use,
    /// Try to make one.
    TryCreate,
    Fail(String),
}

/// Decides on a try to get an adapter: one that is there is taken up, and one
/// is made only where there is none. It fails only where neither works.
pub fn open_or_create_adapter(step: AdapterStep, got: bool, cause: &str) -> (r: AdapterDecision)
    ensures
        if got {
            r is Use
        } else {
            match step {
                AdapterStep::Open => r is TryCreate,
                AdapterStep::Create => r is Fail && r->Fail_0@ == "WintunCreateAdapter failed: "@
                    + cause@,
            }
        },
{
    if got {
        return AdapterDecision::Use;
    }
    match step {
        AdapterStep::Open => AdapterDecision::TryCreate,
        AdapterStep::Create => AdapterDecision::Fail(
            "WintunCreateAdapter failed: ".to_owned().concat(cause),
        ),
    }
}

// ---------------------------------------------------------------------------
// Paths
// ---------------------------------------------------------------------------

/// A relative path below a directory. A bare drive gets no separator.
pub open spec fn win_joined(dir: Seq<char>, name: Seq<char>) -> Seq<char> {
    if dir.len() == 0 || dir.last() == '\\' || dir.last() == '/' || is_drive(dir) {
        dir + name
    } else {
        dir + "\\"@ + name
    }
}

/// Whether a path is nothing but a drive.
pub open spec fn is_drive(dir: Seq<char>) -> bool {
    dir.len() == 2 && dir[1] == ':' && (('a' <= dir[0] && dir[0] <= 'z') || ('A' <= dir[0] && dir[0]
        <= 'Z'))
}

/// A relative path below a directory.
pub fn win_join(dir: &str, name: &str) -> (r: String)
    ensures
        r@ == win_joined(dir@, name@),
{
    let cs = chars_of(dir);
    let n = cs.len();
    let mut r = dir.to_owned();
    let drive = n == 2 && cs[1] == ':' && (('a' <= cs[0] && cs[0] <= 'z') || ('A' <= cs[0] && cs[0]
        <= 'Z'));
    if n > 0 && cs[n - 1] != '\\' && cs[n - 1] != '/' && !drive {
        r.append("\\");
    }
    r.append(name);
    r
}

/// The library of the tunnel driver, beside the executable. It is never looked
/// for in the working directory.
pub fn wintun_path(parent: &Option<String>) -> (r: Result<String, String>)
    ensures
        windows_log::leads_to(r, windows_log::beside(*parent, "wintun.dll"@)),
{
    path_beside(parent, "wintun.dll")
}

// ---------------------------------------------------------------------------
// Receiving
// ---------------------------------------------------------------------------

/// What the ring handed out.
#[derive(Debug)]
pub enum RingAnswer {
    /// A packet of some octets.
    Packet(u32),
    /// Nothing, with an error code and its text. Some errors have no code.
    Nothing { code: Option<i32>, cause: String },
}

/// What is made of it.
#[derive(Debug)]
pub enum RingRead {
    /// The octets to copy.
    Copy(usize),
    /// The ring is empty.
    Empty,
    /// The packet is larger than the buffer.
    TooLarge,
    /// The driver failed.
    Failed(String),
}

/// Decides on what the ring handed out, for a buffer of some octets.
pub fn receive_into(answer: RingAnswer, capacity: usize) -> (r: RingRead)
    ensures
        match answer {
            RingAnswer::Packet(size) => if size > capacity {
                r is TooLarge
            } else {
                r is Copy && r->Copy_0 == size
            },
            RingAnswer::Nothing { code, cause } => if code == Some(ERROR_NO_MORE_ITEMS) {
                r is Empty
            } else {
                r is Failed && r->Failed_0@ == "WintunReceivePacket failed: "@ + cause@
            },
        },
{
    match answer {
        RingAnswer::Packet(size) => if size as u64 > capacity as u64 {
            RingRead::TooLarge
        } else {
            RingRead::Copy(size as usize)
        },
        RingAnswer::Nothing { code, cause } => match code {
            Some(259) => RingRead::Empty,
            _ => RingRead::Failed(
                "WintunReceivePacket failed: ".to_owned().concat(cause.as_str()),
            ),
        },
    }
}

/// Whether the ring is looked at again after waiting for it.
pub fn wait_is_over(answer: u32) -> (r: bool)
    ensures
        r == (answer == 0 || answer == 258),
{
    answer == WAIT_OBJECT_0 || answer == WAIT_TIMEOUT
}

/// What the device does next to get a packet.
#[derive(Debug)]
pub enum DeviceStep {
    /// It got a packet of some octets, or nothing.
    Got(usize),
    /// Wait for the ring, and look again.
    Wait,
    /// The packet is larger than the buffer.
    TooLarge,
    Failed(String),
}

/// Decides on a look at the ring. An empty ring is waited for once.
pub fn receive(read: RingRead, waited: bool) -> (r: DeviceStep)
    ensures
        match read {
            RingRead::Copy(n) => r is Got && r->Got_0 == n,
            RingRead::Empty => if waited {
                r is Got && r->Got_0 == 0
            } else {
                r is Wait
            },
            RingRead::TooLarge => r is TooLarge,
            RingRead::Failed(cause) => r == DeviceStep::Failed(cause),
        },
{
    match read {
        RingRead::Copy(n) => DeviceStep::Got(n),
        RingRead::Empty => if waited {
            DeviceStep::Got(0)
        } else {
            DeviceStep::Wait
        },
        RingRead::TooLarge => DeviceStep::TooLarge,
        RingRead::Failed(cause) => DeviceStep::Failed(cause),
    }
}

/// What is said of a driver that cannot be loaded.
pub fn load_error(path: &str, cause: &str) -> (r: String)
    ensures
        r@ == "failed to load Wintun from "@ + path@ + ": "@ + cause@,
{
    let mut s = "failed to load Wintun from ".to_owned();
    s.append(path);
    s.append(": ");
    s.append(cause);
    s
}

/// What is said of a driver without one of its functions.
pub fn entry_point_error(name: &str, cause: &str) -> (r: String)
    ensures
        r@ == "Wintun entry point "@ + name@ + " is missing: "@ + cause@,
{
    let mut s = "Wintun entry point ".to_owned();
    s.append(name);
    s.append(" is missing: ");
    s.append(cause);
    s
}

/// What is said of a function of the driver that failed.
pub fn call_error(name: &str, cause: &str) -> (r: String)
    ensures
        r@ == name@ + " failed: "@ + cause@,
{
    let mut s = name.to_owned();
    s.append(" failed: ");
    s.append(cause);
    s
}

// ---------------------------------------------------------------------------
// Texts
// ---------------------------------------------------------------------------

/// The UTF-16 units of a character.
pub open spec fn units_of(c: char) -> Seq<u16> {
    let n = c as int;
    if n < 0x1_0000 {
        seq![n as u16]
    } else {
        seq![(0xd800 + (n - 0x1_0000) / 0x400) as u16, (0xdc00 + (n - 0x1_0000) % 0x400) as u16]
    }
}

/// The UTF-16 units of a text.
pub open spec fn utf16(s: Seq<char>) -> Seq<u16>
    decreases s.len(),
{
    if s.len() == 0 {
        Seq::empty()
    } else {
        utf16(s.drop_last()) + units_of(s.last())
    }
}

fn push_units(r: &mut Vec<u16>, c: char)
    ensures
        final(r)@ == old(r)@ + units_of(c),
{
    let ghost before = r@;
    let n: u32 = c as u32;
    if n < 0x1_0000 {
        r.push(n as u16);
    } else {
        let m: u32 = n - 0x1_0000;
        r.push((0xd800 + m / 0x400) as u16);
        r.push((0xdc00 + m % 0x400) as u16);
    }
    assert(r@ =~= before + units_of(c));
}

proof fn lemma_units(c: char, i: int)
    requires
        c != '\0',
        0 <= i < units_of(c).len(),
    ensures
        units_of(c)[i] != 0,
{
    assert(c as int != 0);
    let m = c as int - 0x1_0000;
    if m >= 0 {
        assert(0xd800 + m / 0x400 <= 0xdbff);
        assert(0xdc00 + m % 0x400 <= 0xdfff);
    }
}

/// The UTF-16 units of a text.
pub fn utf16_units(value: &str) -> (r: Vec<u16>)
    ensures
        r@ == utf16(value@),
{
    let cs = chars_of(value);
    let mut r: Vec<u16> = Vec::new();
    assert(value@.take(0) =~= Seq::<char>::empty());
    for i in 0..cs.len()
        invariant
            cs@ == value@,
            r@ == utf16(value@.take(i as int)),
    {
        let ghost one = value@.take(i + 1);
        assert(one.drop_last() =~= value@.take(i as int));
        assert(one.last() == cs@[i as int]);
        push_units(&mut r, cs[i]);
    }
    assert(value@.take(cs.len() as int) =~= value@);
    r
}

/// A text as Windows wants it: in UTF-16, with a zero at the end.
pub fn wide(value: &str) -> (r: Vec<u16>)
    ensures
        r@ == utf16(value@).push(0),
{
    let mut r = utf16_units(value);
    r.push(0);
    r
}

/// The zero ends the text: there is no other one unless the text holds one.
pub proof fn only_the_end_is_zero(s: Seq<char>, i: int)
    requires
        forall|k: int| 0 <= k < s.len() ==> #[trigger] s[k] != '\0',
        0 <= i < utf16(s).len(),
    ensures
        utf16(s)[i] != 0,
    decreases s.len(),
{
    if s.len() > 0 {
        let head = utf16(s.drop_last());
        assert(forall|k: int|
            0 <= k < s.len() - 1 ==> #[trigger] s.drop_last()[k] == s[k]);
        if i < head.len() {
            only_the_end_is_zero(s.drop_last(), i);
        } else {
            let c = s[s.len() - 1];
            assert(utf16(s)[i] == units_of(c)[i - head.len()]);
            lemma_units(c, i - head.len());
        }
    }
}

/// A path below a directory is the directory, one separator, and the name. A
/// directory that ends with a separator, and a bare drive, get none, and the
/// name can be told from the path.
pub proof fn a_path_is_a_directory_and_a_name(dir: Seq<char>, name: Seq<char>, other: Seq<char>)
    ensures
        dir.len() > 2 && dir.last() != '\\' && dir.last() != '/' ==> win_joined(dir, name) == dir
            + seq!['\\'] + name,
        dir.len() > 0 && (dir.last() == '\\' || dir.last() == '/') ==> win_joined(dir, name) == dir
            + name,
        dir.len() == 0 ==> win_joined(dir, name) == name,
        dir.len() == 2 && dir[1] == ':' && (('a' <= dir[0] && dir[0] <= 'z') || ('A' <= dir[0]
            && dir[0] <= 'Z')) ==> win_joined(dir, name) == dir + name,
        win_joined(dir, name) == win_joined(dir, other) ==> name == other,
{
    reveal_strlit("\\");
    assert("\\"@ =~= seq!['\\']);
    if dir.len() == 0 {
        assert(dir + name =~= name);
    }
    let skip = win_joined(dir, name).len() - name.len();
    assert(win_joined(dir, name).skip(skip) =~= name);
    assert(win_joined(dir, other).skip(skip) =~= other);
}

/// An ordinary character is its own unit. Any other has two, and can be put
/// together from them again.
pub proof fn a_character_is_known_by_its_units(c: char)
    ensures
        (c as int) < 0x1_0000 ==> units_of(c).len() == 1 && units_of(c)[0] == c as int,
        c as int >= 0x1_0000 ==> {
            &&& units_of(c).len() == 2
            &&& 0xd800 <= units_of(c)[0] <= 0xdbff
            &&& 0xdc00 <= units_of(c)[1] <= 0xdfff
            &&& (units_of(c)[0] - 0xd800) * 0x400 + (units_of(c)[1] - 0xdc00) + 0x1_0000 == c as int
        },
{
    let n = c as int;
    if n >= 0x1_0000 {
        let m = n - 0x1_0000;
        assert(n <= 0x10_ffff);
        assert(0 <= m / 0x400 < 0x400);
        assert(0 <= m % 0x400 < 0x400);
    }
}

/// The units of a text are those of its characters, in order.
pub proof fn the_units_of_a_text_are_in_order(a: Seq<char>, c: char, b: Seq<char>)
    ensures
        utf16(a + b) == utf16(a) + utf16(b),
        utf16(seq![c]) == units_of(c),
        utf16(Seq::empty()) == Seq::<u16>::empty(),
    decreases b.len(),
{
    let one = seq![c];
    assert(one.drop_last() =~= Seq::<char>::empty());
    assert(utf16(one.drop_last()) == Seq::<u16>::empty());
    assert(Seq::<u16>::empty() + units_of(c) =~= units_of(c));
    if b.len() == 0 {
        assert(a + b =~= a);
        assert(utf16(a) + utf16(b) =~= utf16(a));
    } else {
        let fewer = b.drop_last();
        the_units_of_a_text_are_in_order(a, c, fewer);
        assert((a + b).drop_last() =~= a + fewer);
        assert((a + b).last() == b.last());
        assert(utf16(a + b) =~= utf16(a) + utf16(b));
    }
}

/// The ring holds four mebioctets, and a reader that finds it empty looks up
/// ten times a second.
pub proof fn the_ring_is_large_and_the_wait_is_short()
    ensures
        RING_CAPACITY == 4 * 1024 * 1024,
        10 * READ_WAIT_MS == 1000,
{
}

} // verus!
