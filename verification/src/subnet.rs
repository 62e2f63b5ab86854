//! True CIDR containment for the access check: dotted-quad IPv4 addresses
//! and `base/prefix` subnets are parsed exactly, and membership is a mask
//! comparison on the parsed 32-bit values. The check's domain is IPv4, the
//! address family of the local network the service guards: a string that is
//! not a well-formed IPv4 address — an IPv6 address among them — or a subnet
//! that is not a well-formed IPv4 CIDR block, never passes the check.

use vstd::prelude::*;

verus! {

/// An ASCII decimal digit.
pub open spec fn is_digit(c: char) -> bool {
    48 <= c as u32 && c as u32 <= 57
}

/// The value of one digit.
pub open spec fn digit_val(c: char) -> int {
    c as u32 - 48
}

/// Every character is a digit.
pub open spec fn all_digits(s: Seq<char>) -> bool {
    forall|i: int| 0 <= i < s.len() ==> is_digit(#[trigger] s[i])
}

/// The value of a digit string, most significant digit first.
pub open spec fn digits_val(s: Seq<char>) -> int
    decreases s.len(),
{
    if s.len() == 0 {
        0
    } else {
        digits_val(s.drop_last()) * 10 + digit_val(s.last())
    }
}

/// A plain decimal number up to `max`: at least one digit, no leading zero
/// (except the number zero itself), value within bound.
pub open spec fn plain_number(s: Seq<char>, max: int) -> bool {
    1 <= s.len() && all_digits(s) && (s.len() > 1 ==> s[0] as u32 != 48) && digits_val(s) <= max
}

/// The digits of a digit string are worth at least zero and at most all
/// nines, so a string of at most three digits stays under a thousand.
pub proof fn lemma_digits_val_range(s: Seq<char>)
    requires
        all_digits(s),
    ensures
        0 <= digits_val(s),
        s.len() <= 1 ==> digits_val(s) <= 9,
        s.len() <= 2 ==> digits_val(s) <= 99,
        s.len() <= 3 ==> digits_val(s) <= 999,
    decreases s.len(),
{
    if s.len() > 0 {
        let pre = s.drop_last();
        assert(all_digits(pre)) by {
            assert(forall|i: int| 0 <= i < pre.len() ==> pre[i] == s[i]);
        }
        lemma_digits_val_range(pre);
    }
}

/// A number that does not start with zero is worth at least one, ten, a
/// hundred or a thousand, by its length.
pub proof fn lemma_digits_val_min(s: Seq<char>)
    requires
        all_digits(s),
        s.len() >= 1,
        s[0] as u32 != 48,
    ensures
        s.len() == 1 ==> digits_val(s) >= 1,
        s.len() == 2 ==> digits_val(s) >= 10,
        s.len() == 3 ==> digits_val(s) >= 100,
        s.len() >= 4 ==> digits_val(s) >= 1000,
    decreases s.len(),
{
    if s.len() == 1 {
        assert(digits_val(s.drop_last()) == 0);
        assert(s.last() == s[0]);
    } else {
        let pre = s.drop_last();
        assert(all_digits(pre) && pre[0] == s[0]) by {
            assert(forall|i: int| 0 <= i < pre.len() ==> pre[i] == s[i]);
        }
        lemma_digits_val_min(pre);
        lemma_digits_val_range(pre);
        if s.len() >= 5 {
            assert(pre.len() >= 4);
        }
        assert(digit_val(s.last()) >= 0);
    }
}

/// Parses the decimal number in `s[from..to]`, accepted only when it is a
/// plain number no greater than `max`: at least one digit, no leading zero,
/// within the bound.
fn parse_decimal(s: &str, from: usize, to: usize, max: u32) -> (r: Option<u32>)
    requires
        from <= to <= s@.len(),
        max <= 999,
    ensures
        match r {
            Some(v) => plain_number(s@.subrange(from as int, to as int), max as int) && v
                == digits_val(s@.subrange(from as int, to as int)) && v <= max,
            None => !plain_number(s@.subrange(from as int, to as int), max as int),
        },
{
    let ghost part = s@.subrange(from as int, to as int);
    if to == from {
        return None;
    }
    if to - from > 3 {
        proof {
            if plain_number(part, max as int) {
                lemma_digits_val_min(part);
            }
        }
        return None;
    }
    if to - from > 1 && s.get_char(from) as u32 == 48 {
        proof {
            assert(part[0] == s@[from as int]);
        }
        return None;
    }
    let mut acc: u32 = 0;
    let mut idx: usize = from;
    while idx < to
        invariant
            part == s@.subrange(from as int, to as int),
            from <= idx <= to <= s@.len(),
            to - from <= 3,
            all_digits(s@.subrange(from as int, idx as int)),
            acc == digits_val(s@.subrange(from as int, idx as int)),
            acc <= 999,
        decreases to - idx,
    {
        let c = s.get_char(idx);
        let d = c as u32;
        if d < 48 || d > 57 {
            proof {
                assert(part[idx as int - from as int] == s@[idx as int]);
                assert(!is_digit(s@[idx as int]));
            }
            return None;
        }
        let ghost pre = s@.subrange(from as int, idx as int);
        let ghost cur = s@.subrange(from as int, idx as int + 1);
        proof {
            assert(cur.drop_last() =~= pre);
            assert(cur.last() == s@[idx as int]);
            assert(pre.len() <= 2);
            lemma_digits_val_range(pre);
            assert(forall|i: int| 0 <= i < cur.len() ==> is_digit(#[trigger] cur[i])) by {
                assert(forall|i: int| 0 <= i < pre.len() ==> cur[i] == pre[i]);
            }
        }
        acc = acc * 10 + (d - 48);
        idx = idx + 1;
    }
    proof {
        assert(s@.subrange(from as int, idx as int) =~= part);
    }
    if acc > max {
        return None;
    }
    Some(acc)
}

/// The dot separating two octets.
pub open spec fn is_dot(c: char) -> bool {
    c as u32 == 46
}

/// `s` splits into four octets around dots at positions `i < j < k`.
pub open spec fn ipv4_split_at(s: Seq<char>, i: int, j: int, k: int) -> bool {
    0 <= i < j < k < s.len() && is_dot(s[i]) && is_dot(s[j]) && is_dot(s[k]) && plain_number(
        s.subrange(0, i),
        255,
    ) && plain_number(s.subrange(i + 1, j), 255) && plain_number(s.subrange(j + 1, k), 255)
        && plain_number(s.subrange(k + 1, s.len() as int), 255)
}

/// `s` is a dotted-quad IPv4 address.
pub open spec fn valid_ipv4(s: Seq<char>) -> bool {
    exists|i: int, j: int, k: int| ipv4_split_at(s, i, j, k)
}

/// The 32-bit value of the address split at `i`, `j`, `k`.
pub open spec fn ipv4_value_at(s: Seq<char>, i: int, j: int, k: int) -> int {
    digits_val(s.subrange(0, i)) * 0x1000000 + digits_val(s.subrange(i + 1, j)) * 0x10000
        + digits_val(s.subrange(j + 1, k)) * 0x100 + digits_val(s.subrange(k + 1, s.len() as int))
}

/// The 32-bit value of a dotted-quad address.
pub open spec fn ipv4_value(s: Seq<char>) -> int {
    let (i, j, k) = choose|i: int, j: int, k: int| ipv4_split_at(s, i, j, k);
    ipv4_value_at(s, i, j, k)
}

/// Away from its three dots, a dotted quad holds digits only.
proof fn lemma_split_digits(s: Seq<char>, i: int, j: int, k: int)
    requires
        ipv4_split_at(s, i, j, k),
    ensures
        forall|p: int|
            0 <= p < s.len() && p != i && p != j && p != k ==> is_digit(#[trigger] s[p]),
{
    assert forall|p: int|
        0 <= p < s.len() && p != i && p != j && p != k implies is_digit(#[trigger] s[p]) by {
        if p < i {
            assert(s.subrange(0, i)[p] == s[p]);
        } else if p < j {
            assert(s.subrange(i + 1, j)[p - i - 1] == s[p]);
        } else if p < k {
            assert(s.subrange(j + 1, k)[p - j - 1] == s[p]);
        } else {
            assert(s.subrange(k + 1, s.len() as int)[p - k - 1] == s[p]);
        }
    }
}

/// A dotted quad splits in only one way: the dots pin the split down.
proof fn lemma_ipv4_split_unique(s: Seq<char>, i: int, j: int, k: int, x: int, y: int, z: int)
    requires
        ipv4_split_at(s, i, j, k),
        ipv4_split_at(s, x, y, z),
    ensures
        i == x && j == y && k == z,
{
    lemma_split_digits(s, i, j, k);
    lemma_split_digits(s, x, y, z);
    assert(i == x || i == y || i == z);
    assert(j == x || j == y || j == z);
    assert(k == x || k == y || k == z);
    assert(x == i || x == j || x == k);
    assert(y == i || y == j || y == k);
    assert(z == i || z == j || z == k);
}

/// Records the positions in `s` where `sep` occurs, in increasing order.
fn separator_positions(s: &str, sep: u32) -> (ds: Vec<usize>)
    ensures
        forall|d: int| 0 <= d < ds@.len() ==> #[trigger] ds@[d] < s@.len(),
        forall|d: int| 0 <= d < ds@.len() ==> s@[#[trigger] ds@[d] as int] as u32 == sep,
        forall|p: int|
            0 <= p < s@.len() && (#[trigger] s@[p]) as u32 == sep ==> exists|d: int|
                0 <= d < ds@.len() && ds@[d] == p,
        forall|d1: int, d2: int| 0 <= d1 < d2 < ds@.len() ==> ds@[d1] < ds@[d2],
{
    let n = s.unicode_len();
    let mut ds: Vec<usize> = Vec::new();
    let mut i: usize = 0;
    while i < n
        invariant
            n == s@.len(),
            0 <= i <= n,
            forall|d: int| 0 <= d < ds@.len() ==> #[trigger] ds@[d] < i,
            forall|d: int| 0 <= d < ds@.len() ==> s@[#[trigger] ds@[d] as int] as u32 == sep,
            forall|p: int|
                0 <= p < i && (#[trigger] s@[p]) as u32 == sep ==> exists|d: int|
                    0 <= d < ds@.len() && ds@[d] == p,
            forall|d1: int, d2: int| 0 <= d1 < d2 < ds@.len() ==> ds@[d1] < ds@[d2],
        decreases n - i,
    {
        let c = s.get_char(i);
        if c as u32 == sep {
            let ghost before = ds@;
            ds.push(i);
            proof {
                assert(forall|d: int| 0 <= d < before.len() ==> ds@[d] == before[d]);
                assert(ds@[ds@.len() - 1] == i);
            }
        }
        i = i + 1;
    }
    ds
}

/// Parses a dotted-quad IPv4 address; accepted exactly when the string is
/// one, with the address's 32-bit value as the result.
pub fn parse_ipv4(s: &str) -> (r: Option<u32>)
    ensures
        match r {
            Some(v) => valid_ipv4(s@) && v == ipv4_value(s@),
            None => !valid_ipv4(s@),
        },
{
    let n = s.unicode_len();
    let dots = separator_positions(s, 46);
    if dots.len() != 3 {
        proof {
            if valid_ipv4(s@) {
                let (x, y, z) = choose|x: int, y: int, z: int| ipv4_split_at(s@, x, y, z);
                lemma_split_digits(s@, x, y, z);
                let dv = dots@;
                assert(exists|d: int| 0 <= d < dv.len() && dv[d] == x);
                assert(exists|d: int| 0 <= d < dv.len() && dv[d] == y);
                assert(exists|d: int| 0 <= d < dv.len() && dv[d] == z);
                let a = choose|d: int| 0 <= d < dv.len() && dv[d] == x;
                let b = choose|d: int| 0 <= d < dv.len() && dv[d] == y;
                let c = choose|d: int| 0 <= d < dv.len() && dv[d] == z;
                assert(a != b && b != c && a != c);
                assert(dv.len() >= 3);
                assert(dv.len() >= 4);
                let stray = if dv[0] != x && dv[0] != y && dv[0] != z {
                    0int
                } else if dv[1] != x && dv[1] != y && dv[1] != z {
                    1int
                } else if dv[2] != x && dv[2] != y && dv[2] != z {
                    2int
                } else {
                    3int
                };
                assert(dv[stray] != x && dv[stray] != y && dv[stray] != z) by {
                    assert(dv[0] < dv[1] < dv[2] < dv[3]);
                }
                assert(is_digit(s@[dv[stray] as int]));
                assert(false);
            }
        }
        return None;
    }
    let i = dots[0];
    let j = dots[1];
    let k = dots[2];
    proof {
        assert(i < j < k < s@.len());
    }
    let a = parse_decimal(s, 0, i, 255);
    let b = parse_decimal(s, i + 1, j, 255);
    let c = parse_decimal(s, j + 1, k, 255);
    let d = parse_decimal(s, k + 1, n, 255);
    proof {
        if valid_ipv4(s@) {
            let (x, y, z) = choose|x: int, y: int, z: int| ipv4_split_at(s@, x, y, z);
            lemma_split_digits(s@, x, y, z);
            assert(exists|dd: int| 0 <= dd < dots@.len() && dots@[dd] == x);
            assert(exists|dd: int| 0 <= dd < dots@.len() && dots@[dd] == y);
            assert(exists|dd: int| 0 <= dd < dots@.len() && dots@[dd] == z);
            assert(x == i && y == j && z == k) by {
                let a1 = choose|dd: int| 0 <= dd < dots@.len() && dots@[dd] == x;
                let b1 = choose|dd: int| 0 <= dd < dots@.len() && dots@[dd] == y;
                let c1 = choose|dd: int| 0 <= dd < dots@.len() && dots@[dd] == z;
                assert(a1 != b1 && b1 != c1 && a1 != c1);
                assert(a1 == 0 && b1 == 1 && c1 == 2) by {
                    assert(x < y < z);
                    assert(forall|d1: int, d2: int|
                        0 <= d1 < d2 < dots@.len() ==> dots@[d1] < dots@[d2]);
                }
            }
            assert(ipv4_split_at(s@, i as int, j as int, k as int));
        }
    }
    match (a, b, c, d) {
        (Some(a), Some(b), Some(c), Some(d)) => {
            proof {
                assert(ipv4_split_at(s@, i as int, j as int, k as int));
                let (x, y, z) = choose|x: int, y: int, z: int| ipv4_split_at(s@, x, y, z);
                lemma_ipv4_split_unique(s@, i as int, j as int, k as int, x, y, z);
            }
            let v = a * 0x1000000 + b * 0x10000 + c * 0x100 + d;
            Some(v)
        },
        _ => {
            proof {
                if valid_ipv4(s@) {
                    assert(false);
                }
            }
            None
        },
    }
}

/// The slash separating base address and prefix length.
pub open spec fn is_slash(c: char) -> bool {
    c as u32 == 47
}

/// `s` splits at the slash at `i` into an IPv4 base address and a prefix
/// length of at most 32.
pub open spec fn cidr_split_at(s: Seq<char>, i: int) -> bool {
    0 <= i < s.len() && is_slash(s[i]) && valid_ipv4(s.subrange(0, i)) && plain_number(
        s.subrange(i + 1, s.len() as int),
        32,
    )
}

/// `s` is a CIDR block: dotted quad, slash, prefix length.
pub open spec fn valid_cidr(s: Seq<char>) -> bool {
    exists|i: int| cidr_split_at(s, i)
}

/// Where the slash of a CIDR block stands.
pub open spec fn cidr_slash(s: Seq<char>) -> int {
    choose|i: int| cidr_split_at(s, i)
}

/// The 32-bit base address of a CIDR block.
pub open spec fn cidr_base(s: Seq<char>) -> int {
    ipv4_value(s.subrange(0, cidr_slash(s)))
}

/// The prefix length of a CIDR block.
pub open spec fn cidr_prefix(s: Seq<char>) -> int {
    digits_val(s.subrange(cidr_slash(s) + 1, s.len() as int))
}

/// A dotted quad holds digits and dots only.
proof fn lemma_ipv4_chars(t: Seq<char>)
    requires
        valid_ipv4(t),
    ensures
        forall|p: int| 0 <= p < t.len() ==> is_digit(#[trigger] t[p]) || is_dot(t[p]),
{
    let (x, y, z) = choose|x: int, y: int, z: int| ipv4_split_at(t, x, y, z);
    lemma_split_digits(t, x, y, z);
}

/// The slash of a CIDR block is its only slash.
proof fn lemma_cidr_only_slash(s: Seq<char>, x: int)
    requires
        cidr_split_at(s, x),
    ensures
        forall|p: int| 0 <= p < s.len() && is_slash(#[trigger] s[p]) ==> p == x,
{
    lemma_ipv4_chars(s.subrange(0, x));
    assert forall|p: int| 0 <= p < s.len() && is_slash(#[trigger] s[p]) implies p == x by {
        if p < x {
            assert(s.subrange(0, x)[p] == s[p]);
        } else if p > x {
            assert(s.subrange(x + 1, s.len() as int)[p - x - 1] == s[p]);
            assert(is_digit(s[p]));
        }
    }
}

/// Parses a CIDR block; accepted exactly when the string is one, with the
/// base address value and the prefix length as the result.
pub fn parse_cidr(s: &str) -> (r: Option<(u32, u8)>)
    ensures
        match r {
            Some((base, prefix)) => valid_cidr(s@) && base == cidr_base(s@) && prefix
                == cidr_prefix(s@) && prefix <= 32,
            None => !valid_cidr(s@),
        },
{
    let n = s.unicode_len();
    let slashes = separator_positions(s, 47);
    if slashes.len() != 1 {
        proof {
            if valid_cidr(s@) {
                let x = choose|x: int| cidr_split_at(s@, x);
                lemma_cidr_only_slash(s@, x);
                assert(exists|d: int| 0 <= d < slashes@.len() && slashes@[d] == x);
                if slashes@.len() >= 2 {
                    assert(is_slash(s@[slashes@[0] as int]) && is_slash(s@[slashes@[1] as int]));
                    assert(slashes@[0] == x && slashes@[1] == x);
                }
                assert(false);
            }
        }
        return None;
    }
    let i = slashes[0];
    proof {
        assert(i < s@.len());
        if valid_cidr(s@) {
            let x = choose|x: int| cidr_split_at(s@, x);
            lemma_cidr_only_slash(s@, x);
            assert(exists|d: int| 0 <= d < slashes@.len() && slashes@[d] == x);
            assert(x == i as int);
        }
    }
    let base_str = s.substring_char(0, i);
    let base = parse_ipv4(base_str);
    let prefix = parse_decimal(s, i + 1, n, 32);
    match (base, prefix) {
        (Some(base), Some(prefix)) => {
            proof {
                assert(cidr_split_at(s@, i as int));
                let x = choose|x: int| cidr_split_at(s@, x);
                lemma_cidr_only_slash(s@, i as int);
                assert(is_slash(s@[x]));
                assert(x == i as int);
            }
            Some((base, prefix as u8))
        },
        _ => {
            proof {
                if valid_cidr(s@) {
                    assert(cidr_split_at(s@, i as int));
                    assert(false);
                }
            }
            None
        },
    }
}

/// The mask whose high `prefix` bits are set.
pub open spec fn spec_mask(prefix: u8) -> u32
    recommends
        prefix <= 32,
{
    if prefix == 0 {
        0u32
    } else {
        0xffff_ffffu32 << (32u32 - prefix as u32)
    }
}

/// The address lies in the subnet: it agrees with the base address on the
/// high `prefix` bits.
pub open spec fn in_subnet(ip: u32, base: u32, prefix: u8) -> bool
    recommends
        prefix <= 32,
{
    ip & spec_mask(prefix) == base & spec_mask(prefix)
}

/// Law: subnet membership is exactly the closed range from the network
/// address to the broadcast address, so both boundary addresses are inside
/// and every address outside the range is not.
pub proof fn lemma_subnet_range(ip: u32, base: u32, prefix: u8)
    requires
        prefix <= 32,
    ensures
        in_subnet(ip, base, prefix) <==> ((base & spec_mask(prefix)) <= ip && ip <= ((base
            & spec_mask(prefix)) | !spec_mask(prefix))),
{
    if prefix == 0 {
        assert(ip & 0u32 == 0u32 && base & 0u32 == 0u32 && (0u32 | !0u32) == 0xffff_ffffu32 && ip
            <= 0xffff_ffffu32) by (bit_vector);
    } else {
        let sh: u32 = (32 - prefix) as u32;
        assert((ip & (0xffff_ffffu32 << sh) == base & (0xffff_ffffu32 << sh)) <==> ((base & (
        0xffff_ffffu32 << sh)) <= ip && ip <= ((base & (0xffff_ffffu32 << sh)) | !(0xffff_ffffu32
            << sh)))) by (bit_vector)
            requires
                sh < 32u32,
        ;
    }
}

/// Law: the network address and the broadcast address of a subnet are both
/// inside it.
pub proof fn lemma_subnet_boundaries(base: u32, prefix: u8)
    requires
        prefix <= 32,
    ensures
        in_subnet(base & spec_mask(prefix), base, prefix),
        in_subnet((base & spec_mask(prefix)) | !spec_mask(prefix), base, prefix),
{
    if prefix == 0 {
        assert((base & 0u32) & 0u32 == base & 0u32 && ((base & 0u32) | !0u32) & 0u32 == base
            & 0u32) by (bit_vector);
    } else {
        let sh: u32 = (32 - prefix) as u32;
        assert((base & (0xffff_ffffu32 << sh)) & (0xffff_ffffu32 << sh) == base & (0xffff_ffffu32
            << sh) && ((base & (0xffff_ffffu32 << sh)) | !(0xffff_ffffu32 << sh)) & (0xffff_ffffu32
            << sh) == base & (0xffff_ffffu32 << sh)) by (bit_vector)
            requires
                sh < 32u32,
        ;
    }
}

/// Whether the address agrees with the subnet base on the high bits.
pub fn ip_in_subnet_v4(ip: u32, base: u32, prefix: u8) -> (r: bool)
    requires
        prefix <= 32,
    ensures
        r == in_subnet(ip, base, prefix),
{
    let m: u32 = if prefix == 0 {
        0
    } else {
        0xffff_ffffu32 << (32u32 - prefix as u32)
    };
    ip & m == base & m
}

/// The access check: the subnet is a well-formed CIDR block, the address a
/// well-formed dotted quad, and the address lies in the subnet.
pub open spec fn subnet_allows(subnet: Seq<char>, ip: Seq<char>) -> bool {
    valid_cidr(subnet) && valid_ipv4(ip) && in_subnet(
        ipv4_value(ip) as u32,
        cidr_base(subnet) as u32,
        cidr_prefix(subnet) as u8,
    )
}

/// Runs the access check on a configured subnet and a peer address, both as
/// text. A malformed subnet or address denies access; only IPv4 addresses
/// and subnets are well formed here, so an IPv6-configured subnet admits
/// nobody.
pub fn check_access(subnet: &str, ip: &str) -> (r: bool)
    ensures
        r == subnet_allows(subnet@, ip@),
{
    match parse_cidr(subnet) {
        Some((base, prefix)) => match parse_ipv4(ip) {
            Some(v) => ip_in_subnet_v4(v, base, prefix),
            None => false,
        },
        None => false,
    }
}

} // verus!
