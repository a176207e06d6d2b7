//! The record that the kernel fills in for GET_SUBVOL_INFO.

use vstd::prelude::*;

use crate::btrfs::{SubvolInfo, Uuid};
use crate::outside;
use crate::util::time::Timestamp;

verus! {

/// The request: read, type 0x94, number 60, with a record of `ARGS_SIZE` bytes.
pub const BTRFS_IOC_GET_SUBVOL_INFO: u64 = 0x81f8_943c;

pub const ARGS_SIZE: usize = 504;

pub const OFF_TREEID: usize = 0;

pub const OFF_NAME: usize = 8;

pub const OFF_PARENT_ID: usize = 264;

pub const OFF_GENERATION: usize = 280;

pub const OFF_FLAGS: usize = 288;

pub const OFF_UUID: usize = 296;

pub const OFF_PARENT_UUID: usize = 312;

pub const OFF_RECEIVED_UUID: usize = 328;

pub const OFF_CTRANSID: usize = 344;

pub const OFF_OTRANSID: usize = 352;

pub const OFF_CTIME: usize = 376;

pub const OFF_OTIME: usize = 392;

/// The number that bytes write, the lowest byte first.
pub open spec fn little_endian(b: Seq<u8>) -> nat
    decreases b.len(),
{
    if b.len() == 0 {
        0
    } else {
        b[0] as nat + 256 * little_endian(b.skip(1))
    }
}

/// The eight bytes at `off` as a number.
pub fn u64_at(b: &[u8], off: usize) -> (r: u64)
    requires
        off + 8 <= b.len(),
    ensures
        r == little_endian(b@.subrange(off as int, off + 8)),
{
    let lo: u32 = u32_at(b, off);
    let hi: u32 = u32_at(b, off + 4);
    proof {
        let s = b@.subrange(off as int, off + 8);
        reveal_with_fuel(little_endian, 9);
        let t = s.skip(1).skip(1).skip(1).skip(1);
        assert(t =~= b@.subrange(off + 4, off + 8));
        assert(b@.subrange(off as int, off + 4).skip(1).skip(1).skip(1).skip(1) =~= Seq::<
            u8,
        >::empty());
        assert(little_endian(b@.subrange(off as int, off + 4)) == s[0] + 256 * s[1] + 65536 * s[2]
            + 16777216 * s[3]);
        assert(little_endian(s) == s[0] + 256 * s[1] + 65536 * s[2] + 16777216 * s[3] + 4294967296
            * little_endian(t));
    }
    lo as u64 + hi as u64 * 4294967296
}

/// The four bytes at `off` as a number.
pub fn u32_at(b: &[u8], off: usize) -> (r: u32)
    requires
        off + 4 <= b.len(),
    ensures
        r == little_endian(b@.subrange(off as int, off + 4)),
{
    proof {
        let s = b@.subrange(off as int, off + 4);
        reveal_with_fuel(little_endian, 5);
        assert(s.skip(1).skip(1).skip(1).skip(1) =~= Seq::<u8>::empty());
    }
    b[off] as u32 + 256 * b[off + 1] as u32 + 65536 * b[off + 2] as u32 + 16777216 * b[off
        + 3] as u32
}

/// The sixteen bytes at `off` as an identity.
pub fn uuid_at(b: &[u8], off: usize) -> (r: Uuid)
    requires
        off + 16 <= b.len(),
    ensures
        r@ == b@.subrange(off as int, off + 16),
{
    let mut a: [u8; 16] = [0; 16];
    let mut i: usize = 0;
    while i < 16
        invariant
            i <= 16,
            off + 16 <= b.len(),
            forall|k: int| 0 <= k < i ==> #[trigger] a@[k] == b@[off + k],
        decreases 16 - i,
    {
        a[i] = b[off + i];
        i += 1;
    }
    assert(a@ =~= b@.subrange(off as int, off + 16));
    Uuid(a)
}

/// A 64-bit pattern read as a signed number.
pub open spec fn as_signed_64(n: int) -> int {
    if n < 0x8000_0000_0000_0000 {
        n
    } else {
        n - 0x1_0000_0000_0000_0000
    }
}

/// The instant of a seconds field and a nanoseconds field: none where the seconds are zero, the
/// nanoseconds are not below a second, or calendars do not reach that far.
pub open spec fn time_field(b: Seq<u8>) -> Option<int> {
    let sec = as_signed_64(little_endian(b.take(8)) as int);
    let nsec = little_endian(b.skip(8)) as int;
    if sec != 0 && nsec <= 999_999_999 && -377_705_023_201 <= sec <= 253_402_207_200 {
        Some(sec * 1_000_000_000 + nsec)
    } else if sec != 0 && nsec > 0xffff_ffff - 999_999_999 && -377_705_023_201 < sec
        <= 253_402_207_200 {
        Some(sec * 1_000_000_000 + (nsec - 0x1_0000_0000))
    } else {
        None
    }
}

/// The instant at `off`: eight bytes of seconds, four of nanoseconds.
pub fn ts_at(b: &[u8], off: usize) -> (r: Option<Timestamp>)
    requires
        off + 12 <= b.len(),
    ensures
        match r {
            Some(t) => time_field(b@.subrange(off as int, off + 12)) == Some(t.ns as int),
            None => time_field(b@.subrange(off as int, off + 12)) is None,
        },
{
    let raw: u64 = u64_at(b, off);
    let frac: u32 = u32_at(b, off + 8);
    proof {
        let s = b@.subrange(off as int, off + 12);
        assert(s.take(8) =~= b@.subrange(off as int, off + 8));
        assert(s.skip(8) =~= b@.subrange(off + 8, off + 12));
    }
    let sec: i128 = if raw < 0x8000_0000_0000_0000 {
        raw as i128
    } else {
        raw as i128 - 0x1_0000_0000_0000_0000
    };
    let nsec: i128 = if frac < 0x8000_0000 {
        frac as i128
    } else {
        frac as i128 - 0x1_0000_0000
    };
    if sec == 0 || nsec < -999_999_999 || nsec > 999_999_999 {
        return None;
    }
    if sec < -377_705_023_201 || sec > 253_402_207_200 || (sec == -377_705_023_201 && nsec < 0) {
        return None;
    }
    Some(Timestamp { ns: sec * 1_000_000_000 + nsec })
}

fn non_nil(u: Uuid) -> (r: Option<Uuid>)
    ensures
        known(u@) == match r {
            Some(x) => Some(x@),
            None => None,
        },
{
    if u.is_nil() {
        None
    } else {
        Some(u)
    }
}

/// An identity, unless it is that of nothing.
pub open spec fn known(b: Seq<u8>) -> Option<Seq<u8>> {
    if b == Seq::new(16, |i: int| 0u8) {
        None
    } else {
        Some(b)
    }
}

/// The bytes before the first zero.
pub open spec fn until_zero(b: Seq<u8>) -> Seq<u8>
    decreases b.len(),
{
    if b.len() == 0 || b[0] == 0 {
        Seq::empty()
    } else {
        seq![b[0]] + until_zero(b.skip(1))
    }
}

pub open spec fn opt_uuid(u: Option<Uuid>) -> Option<Seq<u8>> {
    match u {
        Some(x) => Some(x@),
        None => None,
    }
}

pub open spec fn opt_time(t: Option<Timestamp>) -> Option<int> {
    match t {
        Some(x) => Some(x.ns as int),
        None => None,
    }
}

/// Reads the kernel's record.
pub fn parse_args(b: &[u8; 504]) -> (r: SubvolInfo)
    ensures
        r.id == little_endian(b@.subrange(0, 8)),
        r.name@ == outside::lossy(until_zero(b@.subrange(8, 264))),
        r.parent_id == little_endian(b@.subrange(264, 272)),
        r.generation == little_endian(b@.subrange(280, 288)),
        r.flags == little_endian(b@.subrange(288, 296)),
        r.uuid@ == b@.subrange(296, 312),
        opt_uuid(r.parent_uuid) == known(b@.subrange(312, 328)),
        opt_uuid(r.received_uuid) == known(b@.subrange(328, 344)),
        r.ctransid == little_endian(b@.subrange(344, 352)),
        r.otransid == little_endian(b@.subrange(352, 360)),
        opt_time(r.ctime) == time_field(b@.subrange(376, 388)),
        opt_time(r.otime) == time_field(b@.subrange(392, 404)),
{
    let mut raw: Vec<u8> = Vec::new();
    let mut i: usize = OFF_NAME;
    let ghost field = b@.subrange(8, 264);
    assert(field.skip(0) =~= field);
    assert(raw@ + until_zero(field.skip(0)) =~= until_zero(field));
    while i < OFF_PARENT_ID && b[i] != 0
        invariant
            OFF_NAME <= i <= OFF_PARENT_ID,
            field == b@.subrange(8, 264),
            raw@ + until_zero(field.skip(i - 8)) == until_zero(field),
        decreases OFF_PARENT_ID - i,
    {
        let ghost before = raw@;
        assert(field.skip(i - 8)[0] == b@[i as int]);
        assert(field.skip(i - 8).skip(1) =~= field.skip(i + 1 - 8));
        raw.push(b[i]);
        assert(raw@ + until_zero(field.skip(i + 1 - 8)) =~= before + until_zero(
            field.skip(i - 8),
        ));
        i += 1;
    }
    proof {
        let rest = field.skip(i - 8);
        assert(rest.len() == 0 || rest[0] == b@[i as int]);
        assert(until_zero(rest) =~= Seq::<u8>::empty());
        assert(raw@ =~= until_zero(field));
    }
    SubvolInfo {
        id: u64_at(b, OFF_TREEID),
        name: outside::from_utf8_lossy(raw.as_slice()),
        parent_id: u64_at(b, OFF_PARENT_ID),
        generation: u64_at(b, OFF_GENERATION),
        flags: u64_at(b, OFF_FLAGS),
        uuid: uuid_at(b, OFF_UUID),
        parent_uuid: non_nil(uuid_at(b, OFF_PARENT_UUID)),
        received_uuid: non_nil(uuid_at(b, OFF_RECEIVED_UUID)),
        ctransid: u64_at(b, OFF_CTRANSID),
        otransid: u64_at(b, OFF_OTRANSID),
        ctime: ts_at(b, OFF_CTIME),
        otime: ts_at(b, OFF_OTIME),
    }
}

/// The first byte of a number is its lowest: the rest counts 256 times as much.
pub proof fn law_low_bytes_come_first(b: Seq<u8>)
    requires
        b.len() > 0,
    ensures
        little_endian(b) % 256 == b[0],
        little_endian(b) / 256 == little_endian(b.skip(1)),
        little_endian(Seq::empty()) == 0,
        b.len() == 2 ==> little_endian(b) == b[0] + 0x100 * b[1],
        b.len() == 4 ==> little_endian(b) == b[0] + 0x100 * b[1] + 0x1_0000 * b[2] + 0x100_0000
            * b[3],
{
    reveal_with_fuel(little_endian, 5);
    let n = little_endian(b.skip(1));
    assert(little_endian(b) == b[0] as nat + 256 * n);
    if b.len() == 2 {
        assert(b.skip(1)[0] == b[1]);
        assert(b.skip(1).skip(1).len() == 0);
    }
    if b.len() == 4 {
        assert(b.skip(1)[0] == b[1]);
        assert(b.skip(1).skip(1)[0] == b[2]);
        assert(b.skip(1).skip(1).skip(1)[0] == b[3]);
        assert(b.skip(1).skip(1).skip(1).skip(1).len() == 0);
    }
}

/// A field without seconds says nothing; any other says the instant so many seconds and
/// nanoseconds after the epoch, as far as calendars reach.
pub proof fn law_time_fields_count_from_the_epoch(b: Seq<u8>, s: nat, n: nat)
    requires
        b.len() == 12,
        little_endian(b.take(8)) == s,
        little_endian(b.skip(8)) == n,
    ensures
        s == 0 ==> time_field(b) is None,
        0 < s <= 253_402_207_200 && n < 1_000_000_000 ==> time_field(b) == Some(
            (s * 1_000_000_000 + n) as int,
        ),
        253_402_207_200 < s < 0x8000_0000_0000_0000 ==> time_field(b) is None,
        0x1_0000_0000_0000_0000 - 377_705_023_201 <= s < 0x1_0000_0000_0000_0000 && n
            < 1_000_000_000 ==> time_field(b) == Some(
            (s - 0x1_0000_0000_0000_0000) * 1_000_000_000 + n,
        ),
{
}

/// A name ends before its first zero byte.
pub proof fn law_names_end_before_the_first_zero(b: Seq<u8>)
    ensures
        until_zero(b).len() <= b.len(),
        until_zero(b) == b.take(until_zero(b).len() as int),
        forall|i: int| 0 <= i < until_zero(b).len() ==> #[trigger] b[i] != 0,
        until_zero(b).len() < b.len() ==> b[until_zero(b).len() as int] == 0,
    decreases b.len(),
{
    if b.len() > 0 && b[0] != 0 {
        let t = b.skip(1);
        law_names_end_before_the_first_zero(t);
        let r = until_zero(t);
        assert(seq![b[0]] + r =~= b.take(1 + r.len() as int)) by {
            assert forall|i: int| 0 <= i < 1 + r.len() implies (seq![b[0]] + r)[i] == b[i] by {
                if i > 0 {
                    assert(r[i - 1] == t.take(r.len() as int)[i - 1]);
                    assert(t[i - 1] == b[i]);
                }
            }
        }
        assert forall|i: int| 0 <= i < 1 + r.len() implies #[trigger] b[i] != 0 by {
            if i > 0 {
                assert(t[i - 1] == b[i]);
            }
        }
        if 1 + r.len() < b.len() {
            assert(t[r.len() as int] == b[1 + r.len() as int]);
        }
    } else {
        assert(b.take(0) =~= Seq::<u8>::empty());
    }
}

/// An identity of zeros is that of nothing; any other is known.
pub proof fn law_zeros_are_no_identity(b: Seq<u8>)
    requires
        b.len() == 16,
    ensures
        known(b) is None <==> forall|i: int| 0 <= i < 16 ==> #[trigger] b[i] == 0,
        known(b) matches Some(u) ==> u == b,
{
    if forall|i: int| 0 <= i < 16 ==> #[trigger] b[i] == 0 {
        assert(b =~= Seq::new(16, |i: int| 0u8));
    }
}

} // verus!
