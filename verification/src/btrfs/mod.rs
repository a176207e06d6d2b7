//! What btrfs says of a subvolume: identity, counters and usage.

use vstd::prelude::*;

use crate::util::text::{cat3, chars_of};
use crate::util::time::Timestamp;

pub mod command;
pub mod fake;
pub mod ioctl;

verus! {

/// The identity that btrfs gives a subvolume.
#[derive(Clone, Copy, Debug, PartialEq, Eq, Hash, PartialOrd, Ord, Default)]
pub struct Uuid(pub [u8; 16]);

impl View for Uuid {
    type V = Seq<u8>;

    open spec fn view(&self) -> Seq<u8> {
        self.0@
    }
}

/// The lower-case hexadecimal digit of a value below sixteen.
pub open spec fn hex_digit(n: int) -> char {
    if n < 10 {
        (48 + n) as char
    } else {
        (87 + n) as char
    }
}

/// Two hexadecimal digits for each byte.
pub open spec fn hex(b: Seq<u8>) -> Seq<char> {
    Seq::new(
        2 * b.len(),
        |i: int|
            if i % 2 == 0 {
                hex_digit(b[i / 2] as int / 16)
            } else {
                hex_digit(b[i / 2] as int % 16)
            },
    )
}

/// The usual spelling of an identity: groups of 8, 4, 4, 4 and 12 digits.
pub open spec fn uuid_text(b: Seq<u8>) -> Seq<char> {
    let h = hex(b);
    h.subrange(0, 8) + "-"@ + h.subrange(8, 12) + "-"@ + h.subrange(12, 16) + "-"@ + h.subrange(
        16,
        20,
    ) + "-"@ + h.subrange(20, 32)
}

/// The value of a hexadecimal digit of either case.
pub open spec fn hex_value(c: char) -> Option<int> {
    if '0' <= c <= '9' {
        Some(c as int - 48)
    } else if 'a' <= c <= 'f' {
        Some(c as int - 87)
    } else if 'A' <= c <= 'F' {
        Some(c as int - 55)
    } else {
        None
    }
}

/// The byte that two characters write: two digits, or a plus sign and one digit.
pub open spec fn byte_value(a: char, b: char) -> Option<int> {
    match hex_value(b) {
        None => None,
        Some(y) => if a == '+' {
            Some(y)
        } else {
            match hex_value(a) {
                Some(x) => Some(16 * x + y),
                None => None,
            }
        },
    }
}

pub open spec fn not_dash(c: char) -> bool {
    c != '-'
}

/// The identity that a text spells: sixteen bytes in hexadecimal, dashes anywhere.
pub open spec fn uuid_bytes(s: Seq<char>) -> Option<Seq<u8>> {
    let h = s.filter(|c: char| not_dash(c));
    if h.len() == 32 && forall|i: int|
        0 <= i < 16 ==> #[trigger] byte_value(h[2 * i], h[2 * i + 1]) is Some {
        Some(Seq::new(16, |i: int| byte_value(h[2 * i], h[2 * i + 1])->0 as u8))
    } else {
        None
    }
}

/// The texts of two digits for each byte.
pub fn hex_string(b: &[u8]) -> (r: String)
    ensures
        r@ == hex(b@),
{
    let mut out = String::new();
    let mut i: usize = 0;
    assert(out@ =~= hex(b@.take(0)));
    while i < b.len()
        invariant
            i <= b@.len(),
            out@ == hex(b@.take(i as int)),
        decreases b@.len() - i,
    {
        let x: u8 = b[i];
        out.push(hex_char(x / 16));
        out.push(hex_char(x % 16));
        assert(out@ =~= hex(b@.take(i + 1)));
        i += 1;
    }
    assert(b@.take(i as int) =~= b@);
    out
}

fn hex_char(n: u8) -> (c: char)
    requires
        n < 16,
    ensures
        c == hex_digit(n as int),
{
    if n < 10 {
        (48 + n) as char
    } else {
        (87 + n) as char
    }
}

fn digit_value(c: char) -> (r: Option<u8>)
    ensures
        match r {
            Some(x) => hex_value(c) == Some(x as int) && x < 16,
            None => hex_value(c) is None,
        },
{
    let n: u32 = c as u32;
    if '0' <= c && c <= '9' {
        Some((n - 48) as u8)
    } else if 'a' <= c && c <= 'f' {
        Some((n - 87) as u8)
    } else if 'A' <= c && c <= 'F' {
        Some((n - 55) as u8)
    } else {
        None
    }
}

fn pair_value(a: char, b: char) -> (r: Option<u8>)
    ensures
        match r {
            Some(x) => byte_value(a, b) == Some(x as int),
            None => byte_value(a, b) is None,
        },
{
    match digit_value(b) {
        None => None,
        Some(y) => if a == '+' {
            Some(y)
        } else {
            match digit_value(a) {
                Some(x) => Some(16 * x + y),
                None => None,
            }
        },
    }
}

impl Uuid {
    /// The identity of nothing.
    pub fn nil() -> (r: Uuid)
        ensures
            r@ == Seq::new(16, |i: int| 0u8),
    {
        let r = Uuid([0; 16]);
        assert(r@ =~= Seq::new(16, |i: int| 0u8));
        r
    }

    pub fn is_nil(&self) -> (r: bool)
        ensures
            r == (self@ == Seq::new(16, |i: int| 0u8)),
    {
        self.same(&Uuid::nil())
    }

    /// Whether two identities are the same.
    pub fn same(&self, other: &Uuid) -> (r: bool)
        ensures
            r == (self@ == other@),
    {
        let mut i: usize = 0;
        while i < 16
            invariant
                i <= 16,
                forall|k: int| 0 <= k < i ==> #[trigger] self@[k] == other@[k],
            decreases 16 - i,
        {
            if self.0[i] != other.0[i] {
                assert(self@[i as int] != other@[i as int]);
                return false;
            }
            i += 1;
        }
        assert(self@ =~= other@);
        true
    }

    /// The usual spelling.
    pub fn to_string(&self) -> (r: String)
        ensures
            r@ == uuid_text(self@),
    {
        let h = hex_string(&self.0);
        let v = chars_of(h.as_str());
        let a = crate::util::text::string_of(&v, 0, 8);
        let b = crate::util::text::string_of(&v, 8, 12);
        let c = crate::util::text::string_of(&v, 12, 16);
        let d = crate::util::text::string_of(&v, 16, 20);
        let e = crate::util::text::string_of(&v, 20, 32);
        let mut s = cat3(a.as_str(), "-", b.as_str());
        s.append("-");
        s.append(c.as_str());
        s.append("-");
        s.append(d.as_str());
        s.append("-");
        s.append(e.as_str());
        s
    }

    /// The first eight digits.
    pub fn short(&self) -> (r: String)
        ensures
            r@ == hex(self@).take(8),
            r@ == uuid_text(self@).take(8),
    {
        let h = hex_string(&self.0);
        let v = chars_of(h.as_str());
        let a = crate::util::text::string_of(&v, 0, 8);
        assert(a@ =~= hex(self@).take(8));
        assert(a@ =~= uuid_text(self@).take(8));
        a
    }

    /// Reads an identity.
    pub fn parse(s: &str) -> (r: Result<Uuid, String>)
        ensures
            match r {
                Ok(u) => uuid_bytes(s@) == Some(u@),
                Err(m) => uuid_bytes(s@) is None && m@ == "invalid uuid "@
                    + crate::outside::quoted(s@),
            },
    {
        let v = chars_of(s);
        let ghost keep = |c: char| not_dash(c);
        let mut h: Vec<char> = Vec::new();
        let mut i: usize = 0;
        proof {
            reveal(Seq::filter);
        }
        assert(h@ =~= v@.take(0).filter(keep));
        while i < v.len()
            invariant
                i <= v@.len(),
                keep == (|c: char| not_dash(c)),
                h@ == v@.take(i as int).filter(keep),
            decreases v@.len() - i,
        {
            assert(v@.take(i + 1) =~= v@.take(i as int).push(v@[i as int]));
            proof {
                v@.take(i as int).lemma_filter_push(v@[i as int], keep);
            }
            if v[i] != '-' {
                h.push(v[i]);
            }
            i += 1;
        }
        assert(v@.take(v@.len() as int) =~= s@);
        if h.len() != 32 {
            return Err(crate::util::text::cat2("invalid uuid ", crate::outside::quote(s).as_str()));
        }
        let mut b: [u8; 16] = [0; 16];
        let mut k: usize = 0;
        while k < 16
            invariant
                k <= 16,
                h@.len() == 32,
                h@ == s@.filter(|c: char| not_dash(c)),
                forall|j: int|
                    0 <= j < k ==> #[trigger] byte_value(h@[2 * j], h@[2 * j + 1]) == Some(
                        b@[j] as int,
                    ),
            decreases 16 - k,
        {
            match pair_value(h[2 * k], h[2 * k + 1]) {
                Some(x) => {
                    b[k] = x;
                },
                None => {
                    assert(byte_value(h@[2 * k as int], h@[2 * k as int + 1]) is None);
                    return Err(
                        crate::util::text::cat2("invalid uuid ", crate::outside::quote(s).as_str()),
                    );
                },
            }
            k += 1;
        }
        assert(uuid_bytes(s@) is Some);
        assert(uuid_bytes(s@)->0 =~= b@);
        Ok(Uuid(b))
    }
}

proof fn lemma_filter_all(s: Seq<char>)
    requires
        forall|i: int| 0 <= i < s.len() ==> not_dash(#[trigger] s[i]),
    ensures
        s.filter(|c: char| not_dash(c)) == s,
    decreases s.len(),
{
    let keep = |c: char| not_dash(c);
    reveal(Seq::filter);
    if s.len() > 0 {
        lemma_filter_all(s.drop_last());
        assert(s =~= s.drop_last().push(s.last()));
        s.drop_last().lemma_filter_push(s.last(), keep);
    }
}

/// The usual spelling of an identity reads back as that identity.
pub proof fn law_uuid_round_trip(b: Seq<u8>)
    requires
        b.len() == 16,
    ensures
        uuid_bytes(uuid_text(b)) == Some(b),
{
    let keep = |c: char| not_dash(c);
    let h = hex(b);
    reveal_strlit("-");
    assert forall|i: int| 0 <= i < h.len() implies not_dash(#[trigger] h[i]) by {}
    let p0 = h.subrange(0, 8);
    let p1 = h.subrange(8, 12);
    let p2 = h.subrange(12, 16);
    let p3 = h.subrange(16, 20);
    let p4 = h.subrange(20, 32);
    lemma_filter_all(p0);
    lemma_filter_all(p1);
    lemma_filter_all(p2);
    lemma_filter_all(p3);
    lemma_filter_all(p4);
    assert("-"@.filter(keep) =~= Seq::<char>::empty()) by {
        reveal(Seq::filter);
        assert("-"@ =~= Seq::<char>::empty().push('-'));
        Seq::<char>::empty().lemma_filter_push('-', keep);
    }
    let a1 = p0 + "-"@;
    let a2 = a1 + p1;
    let a3 = a2 + "-"@;
    let a4 = a3 + p2;
    let a5 = a4 + "-"@;
    let a6 = a5 + p3;
    let a7 = a6 + "-"@;
    Seq::filter_distributes_over_add(p0, "-"@, keep);
    Seq::filter_distributes_over_add(a1, p1, keep);
    Seq::filter_distributes_over_add(a2, "-"@, keep);
    Seq::filter_distributes_over_add(a3, p2, keep);
    Seq::filter_distributes_over_add(a4, "-"@, keep);
    Seq::filter_distributes_over_add(a5, p3, keep);
    Seq::filter_distributes_over_add(a6, "-"@, keep);
    Seq::filter_distributes_over_add(a7, p4, keep);
    let f = uuid_text(b).filter(keep);
    assert(f =~= h);
    assert forall|i: int| 0 <= i < 16 implies #[trigger] byte_value(f[2 * i], f[2 * i + 1]) == Some(
        b[i] as int,
    ) by {
        assert(f[2 * i] == hex_digit(b[i] as int / 16));
        assert(f[2 * i + 1] == hex_digit(b[i] as int % 16));
    }
    assert(uuid_bytes(uuid_text(b))->0 =~= b);
}

/// What btrfs reports of one subvolume.
#[derive(Clone, Debug)]
pub struct SubvolInfo {
    pub id: u64,
    pub name: String,
    pub parent_id: u64,
    pub generation: u64,
    pub flags: u64,
    pub uuid: Uuid,
    pub parent_uuid: Option<Uuid>,
    pub received_uuid: Option<Uuid>,
    /// Transaction of the last content change (inherited by snapshots; not bumped by snapshotting).
    pub ctransid: u64,
    /// Transaction the subvolume was created in.
    pub otransid: u64,
    pub ctime: Option<Timestamp>,
    pub otime: Option<Timestamp>,
}

impl SubvolInfo {
    /// Whether the lowest flag is set.
    pub fn readonly(&self) -> (r: bool)
        ensures
            r == (self.flags % 2 == 1),
    {
        let f: u64 = self.flags;
        assert((f & 1 != 0) == (f % 2 == 1)) by (bit_vector);
        f & 1 != 0
    }
}

#[derive(Clone, Copy, Debug, PartialEq, Eq, Structural)]
pub struct DuStats {
    pub total: u64,
    pub exclusive: u64,
    pub set_shared: u64,
}

#[derive(Clone, Copy, Debug, PartialEq, Eq, Structural)]
pub struct FsUsage {
    pub total: u64,
    pub free: u64,
}

#[derive(Clone, Debug)]
pub struct DefragOpts {
    pub compress: String,
    pub level: Option<u8>,
    pub flush: bool,
}

/// Each byte is written by two digits, the higher one first; digits above nine are small letters.
pub proof fn law_bytes_are_written_in_small_letters(b: Seq<u8>, i: int)
    requires
        0 <= i < b.len(),
    ensures
        hex(b).len() == 2 * b.len(),
        ({
            let x = hex(b)[2 * i];
            let y = hex(b)[2 * i + 1];
            &&& ('0' <= x <= '9' || 'a' <= x <= 'f') && ('0' <= y <= '9' || 'a' <= y <= 'f')
            &&& byte_value(x, y) == Some(b[i] as int)
        }),
{
    let h = b[i] as int / 16;
    let l = b[i] as int % 16;
    assert((2 * i) / 2 == i && (2 * i) % 2 == 0);
    assert((2 * i + 1) / 2 == i && (2 * i + 1) % 2 == 1);
    assert(hex(b)[2 * i] == hex_digit(h));
    assert(hex(b)[2 * i + 1] == hex_digit(l));
    assert(0 <= h < 16 && 0 <= l < 16);
    assert(b[i] == 16 * h + l);
}

/// An identity is spelled by 32 digits in groups of eight, four, four, four and twelve.
pub proof fn law_identities_are_spelled_in_groups(b: Seq<u8>)
    requires
        b.len() == 16,
    ensures
        ({
            let t = uuid_text(b);
            &&& t.len() == 36
            &&& t[8] == '-' && t[13] == '-' && t[18] == '-' && t[23] == '-'
            &&& t.subrange(0, 8) == hex(b).subrange(0, 8)
            &&& t.subrange(24, 36) == hex(b).subrange(20, 32)
        }),
{
    reveal_strlit("-");
    assert(uuid_text(b).subrange(0, 8) =~= hex(b).subrange(0, 8));
    assert(uuid_text(b).subrange(24, 36) =~= hex(b).subrange(20, 32));
}

} // verus!
