//! Addresses: IPv4/IPv6 values, domain-or-socket addresses, and CIDR
//! prefixes, with verified text parsing.

use vstd::prelude::*;

use crate::strutil::{spec_split, split_char};

verus! {

/// A numeric IP address.
#[derive(Debug, Clone, Copy, PartialEq, Eq, Structural)]
pub enum IpAddress {
    V4(u32),
    V6(u128),
}

/// A connection target: either a socket address or an unresolved domain.
/// Equality is structural; domains are not pre-resolved.
#[derive(Debug, Clone, PartialEq)]
pub enum Address {
    Socket(IpAddress, u16),
    Domain(String, u16),
}

// ---------------------------------------------------------------------------
// Decimal groups
// ---------------------------------------------------------------------------
pub open spec fn is_dec_digit(c: char) -> bool {
    '0' <= c && c <= '9'
}

pub open spec fn dec_digit_val(c: char) -> nat {
    (c as nat - '0' as nat) as nat
}

pub open spec fn all_dec_digits(s: Seq<char>) -> bool {
    forall|i: int| 0 <= i < s.len() ==> is_dec_digit(s[i])
}

/// The numeric value of a digit string.
pub open spec fn dec_val(s: Seq<char>) -> nat
    decreases s.len(),
{
    if s.len() == 0 {
        0
    } else {
        dec_val(s.drop_last()) * 10 + dec_digit_val(s.last())
    }
}

/// A canonical decimal group: digits only, no redundant leading zero.
pub open spec fn is_canon_dec(s: Seq<char>) -> bool {
    &&& s.len() >= 1
    &&& all_dec_digits(s)
    &&& (s.len() > 1 ==> s[0] != '0')
}

proof fn lemma_dec_val_take_mono(s: Seq<char>, i: int)
    requires
        0 <= i <= s.len(),
    ensures
        dec_val(s.take(i)) <= dec_val(s),
    decreases s.len() - i,
{
    if i < s.len() {
        assert(s.take(i + 1).drop_last() =~= s.take(i));
        assert(s.take(i + 1).last() == s[i]);
        assert(dec_val(s.take(i)) <= dec_val(s.take(i + 1)));
        lemma_dec_val_take_mono(s, i + 1);
    } else {
        assert(s.take(i) =~= s);
    }
}

/// Parses a canonical decimal group of value at most `max`. Returns the value
/// exactly when the input is such a group, and nothing otherwise.
pub fn parse_dec(s: &str, max: u64) -> (r: Option<u64>)
    requires
        max <= 0xFFFF_FFFF,
    ensures
        r == if is_canon_dec(s@) && dec_val(s@) <= max {
            Some(dec_val(s@) as u64)
        } else {
            None::<u64>
        },
{
    let n = s.unicode_len();
    if n == 0 {
        return None;
    }
    if n > 1 && s.get_char(0) == '0' {
        return None;
    }
    let mut acc: u64 = 0;
    let mut i: usize = 0;
    proof {
        assert(s@.take(0) =~= Seq::<char>::empty());
    }
    while i < n
        invariant
            0 <= i <= n,
            n == s@.len(),
            max <= 0xFFFF_FFFF,
            acc == dec_val(s@.take(i as int)),
            acc <= max,
            forall|j: int| 0 <= j < i ==> is_dec_digit(s@[j]),
        decreases n - i,
    {
        let c = s.get_char(i);
        if !('0' <= c && c <= '9') {
            return None;
        }
        let d: u64 = (c as u32 as u64) - ('0' as u32 as u64);
        proof {
            assert(s@.take(i as int + 1).drop_last() =~= s@.take(i as int));
            assert(s@.take(i as int + 1).last() == s@[i as int]);
        }
        acc = acc * 10 + d;
        i += 1;
        if acc > max {
            proof {
                lemma_dec_val_take_mono(s@, i as int);
            }
            return None;
        }
    }
    proof {
        assert(s@.take(n as int) =~= s@);
    }
    Some(acc)
}

// ---------------------------------------------------------------------------
// Hexadecimal groups
// ---------------------------------------------------------------------------
pub open spec fn is_hex_digit(c: char) -> bool {
    ('0' <= c && c <= '9') || ('a' <= c && c <= 'f') || ('A' <= c && c <= 'F')
}

pub open spec fn hex_digit_val(c: char) -> nat {
    if '0' <= c && c <= '9' {
        (c as nat - '0' as nat) as nat
    } else if 'a' <= c && c <= 'f' {
        (c as nat - 'a' as nat + 10) as nat
    } else {
        (c as nat - 'A' as nat + 10) as nat
    }
}

/// A textual address group of an IPv6 address: one to four hex digits.
pub open spec fn is_hex_group(s: Seq<char>) -> bool {
    &&& 1 <= s.len() <= 4
    &&& (forall|i: int| 0 <= i < s.len() ==> is_hex_digit(s[i]))
}

/// The numeric value of a hex digit string.
pub open spec fn hex_val(s: Seq<char>) -> nat
    decreases s.len(),
{
    if s.len() == 0 {
        0
    } else {
        hex_val(s.drop_last()) * 16 + hex_digit_val(s.last())
    }
}

/// Caps for the value of a hex group by digit count.
spec fn hex_cap(k: nat) -> nat {
    if k == 0 {
        1
    } else if k == 1 {
        16
    } else if k == 2 {
        256
    } else if k == 3 {
        4096
    } else {
        65536
    }
}

proof fn lemma_hex_val_bound(s: Seq<char>)
    requires
        forall|i: int| 0 <= i < s.len() ==> is_hex_digit(s[i]),
        s.len() <= 4,
    ensures
        hex_val(s) < hex_cap(s.len() as nat),
    decreases s.len(),
{
    if s.len() > 0 {
        lemma_hex_val_bound(s.drop_last());
        assert(hex_digit_val(s.last()) < 16);
    }
}

/// Parses one hex group of an IPv6 address.
pub fn parse_hex_group(s: &str) -> (r: Option<u16>)
    ensures
        r == if is_hex_group(s@) {
            Some(hex_val(s@) as u16)
        } else {
            None::<u16>
        },
{
    let n = s.unicode_len();
    if n == 0 || n > 4 {
        return None;
    }
    let mut acc: u32 = 0;
    let mut i: usize = 0;
    proof {
        assert(s@.take(0) =~= Seq::<char>::empty());
    }
    while i < n
        invariant
            0 <= i <= n,
            n == s@.len(),
            n <= 4,
            acc == hex_val(s@.take(i as int)),
            acc < 0x10000,
            forall|j: int| 0 <= j < i ==> is_hex_digit(s@[j]),
        decreases n - i,
    {
        let c = s.get_char(i);
        let d: u32;
        if '0' <= c && c <= '9' {
            d = (c as u32) - ('0' as u32);
        } else if 'a' <= c && c <= 'f' {
            d = (c as u32) - ('a' as u32) + 10;
        } else if 'A' <= c && c <= 'F' {
            d = (c as u32) - ('A' as u32) + 10;
        } else {
            return None;
        }
        proof {
            assert(s@.take(i as int + 1).drop_last() =~= s@.take(i as int));
            assert(s@.take(i as int + 1).last() == s@[i as int]);
            lemma_hex_val_bound(s@.take(i as int + 1));
        }
        acc = acc * 16 + d;
        i += 1;
    }
    proof {
        assert(s@.take(n as int) =~= s@);
    }
    Some(acc as u16)
}

// ---------------------------------------------------------------------------
// IPv4
// ---------------------------------------------------------------------------
/// The dotted-quad grammar of an IPv4 address: four canonical decimal groups,
/// each at most 255.
pub open spec fn spec_parse_ipv4(s: Seq<char>) -> Option<u32> {
    let gs = spec_split(s, '.');
    if gs.len() == 4 && (forall|i: int|
        0 <= i < 4 ==> is_canon_dec(#[trigger] gs[i]) && dec_val(gs[i]) <= 255) {
        Some(
            (dec_val(gs[0]) * 0x1000000 + dec_val(gs[1]) * 0x10000 + dec_val(gs[2]) * 0x100
                + dec_val(gs[3])) as u32,
        )
    } else {
        None
    }
}

/// Parses a dotted-quad IPv4 address.
pub fn parse_ipv4(s: &str) -> (r: Option<u32>)
    ensures
        r == spec_parse_ipv4(s@),
{
    let groups = split_char(s, '.');
    if groups.len() != 4 {
        return None;
    }
    let a = match parse_dec(groups[0].as_str(), 255) {
        Some(v) => v,
        None => {
            return None;
        }
    };
    let b = match parse_dec(groups[1].as_str(), 255) {
        Some(v) => v,
        None => {
            return None;
        }
    };
    let c = match parse_dec(groups[2].as_str(), 255) {
        Some(v) => v,
        None => {
            return None;
        }
    };
    let d = match parse_dec(groups[3].as_str(), 255) {
        Some(v) => v,
        None => {
            return None;
        }
    };
    Some((a * 0x1000000 + b * 0x10000 + c * 0x100 + d) as u32)
}

// ---------------------------------------------------------------------------
// IPv6
// ---------------------------------------------------------------------------
/// 65536 to the `k`.
pub open spec fn pow16(k: nat) -> nat
    decreases k,
{
    if k == 0 {
        1
    } else {
        0x10000 * pow16((k - 1) as nat)
    }
}

pub open spec fn all_hex_groups(gs: Seq<Seq<char>>) -> bool {
    forall|i: int| 0 <= i < gs.len() ==> is_hex_group(#[trigger] gs[i])
}

/// The numeric value of a sequence of 16-bit groups, first group highest.
pub open spec fn groups_val(gs: Seq<Seq<char>>) -> nat
    decreases gs.len(),
{
    if gs.len() == 0 {
        0
    } else {
        groups_val(gs.drop_last()) * 0x10000 + hex_val(gs.last())
    }
}

proof fn lemma_groups_val_bound(gs: Seq<Seq<char>>)
    requires
        all_hex_groups(gs),
    ensures
        groups_val(gs) < pow16(gs.len() as nat),
    decreases gs.len(),
{
    if gs.len() > 0 {
        lemma_groups_val_bound(gs.drop_last());
        lemma_hex_val_bound(gs.last());
        let p = pow16((gs.len() - 1) as nat);
        assert(groups_val(gs.drop_last()) * 0x10000 + 0x10000 <= p * 0x10000)
            by (nonlinear_arith)
            requires
                groups_val(gs.drop_last()) < p,
        ;
    }
}

proof fn lemma_pow16_le(a: nat, b: nat)
    requires
        a <= b,
    ensures
        pow16(a) <= pow16(b),
        pow16(a) >= 1,
    decreases b,
{
    if a < b {
        lemma_pow16_le(a, (b - 1) as nat);
        assert(pow16((b - 1) as nat) <= 0x10000 * pow16((b - 1) as nat)) by (nonlinear_arith)
            requires
                pow16((b - 1) as nat) >= 1,
        ;
    } else if b > 0 {
        lemma_pow16_le((a - 1) as nat, (b - 1) as nat);
        assert(pow16((b - 1) as nat) >= 1 ==> 0x10000 * pow16((b - 1) as nat) >= 1)
            by (nonlinear_arith);
    }
}

/// The textual form of an IPv6 address: colon-separated hex groups, either
/// eight of them, or fewer with one `::` standing for the missing zeros.
/// Embedded dotted-quad forms are not part of this grammar.
pub open spec fn spec_parse_ipv6(s: Seq<char>) -> Option<u128> {
    let gs = spec_split(s, ':');
    let n = gs.len() as int;
    if forall|i: int| 0 <= i < n ==> #[trigger] gs[i].len() != 0 {
        // no `::`: exactly eight groups
        if n == 8 && all_hex_groups(gs) {
            Some(groups_val(gs) as u128)
        } else {
            None
        }
    } else if n == 3 && gs[0].len() == 0 && gs[1].len() == 0 && gs[2].len() == 0 {
        // "::"
        Some(0)
    } else if n >= 3 && gs[0].len() == 0 && gs[1].len() == 0 && (forall|i: int|
        2 <= i < n ==> #[trigger] gs[i].len() != 0) {
        // "::R"
        let right = gs.skip(2);
        if right.len() <= 7 && all_hex_groups(right) {
            Some(groups_val(right) as u128)
        } else {
            None
        }
    } else if n >= 3 && gs[n - 1].len() == 0 && gs[n - 2].len() == 0 && (forall|i: int|
        0 <= i < n - 2 ==> #[trigger] gs[i].len() != 0) {
        // "L::"
        let left = gs.take(n - 2);
        if left.len() <= 7 && all_hex_groups(left) {
            Some((groups_val(left) * pow16((8 - left.len()) as nat)) as u128)
        } else {
            None
        }
    } else if exists|e: int|
        1 <= e < n - 1 && #[trigger] gs[e].len() == 0 && (forall|i: int|
            0 <= i < n && i != e ==> #[trigger] gs[i].len() != 0) {
        // "L::R"
        let e = choose|e: int|
            1 <= e < n - 1 && #[trigger] gs[e].len() == 0 && (forall|i: int|
                0 <= i < n && i != e ==> #[trigger] gs[i].len() != 0);
        let left = gs.take(e);
        let right = gs.skip(e + 1);
        if left.len() + right.len() <= 7 && all_hex_groups(left) && all_hex_groups(right) {
            Some(
                (groups_val(left) * pow16((8 - left.len()) as nat) + groups_val(right)) as u128,
            )
        } else {
            None
        }
    } else {
        None
    }
}

/// Parses the hex groups `gs[from..to]` and combines them, first group
/// highest.
fn parse_groups_val(gs: &Vec<String>, from: usize, to: usize) -> (r: Option<u128>)
    requires
        from <= to <= gs@.len(),
        to - from <= 8,
    ensures
        ({
            let sub = gs@.map_values(|g: String| g@).subrange(from as int, to as int);
            r == if all_hex_groups(sub) {
                Some(groups_val(sub) as u128)
            } else {
                None::<u128>
            }
        }),
{
    let ghost whole = gs@.map_values(|g: String| g@).subrange(from as int, to as int);
    let mut acc: u128 = 0;
    let mut i: usize = from;
    proof {
        assert(whole.take(0) =~= Seq::<Seq<char>>::empty());
    }
    while i < to
        invariant
            from <= i <= to <= gs@.len(),
            to - from <= 8,
            whole == gs@.map_values(|g: String| g@).subrange(from as int, to as int),
            acc == groups_val(whole.take(i - from)),
            acc < pow16((i - from) as nat),
            all_hex_groups(whole.take(i - from)),
        decreases to - i,
    {
        let v = match parse_hex_group(gs[i].as_str()) {
            Some(v) => v,
            None => {
                proof {
                    assert(whole[i - from] == gs@.map_values(|g: String| g@)[i as int]);
                }
                return None;
            }
        };
        proof {
            let k = i - from;
            assert(whole[k] == gs@.map_values(|g: String| g@)[i as int]);
            assert(whole.take(k + 1).drop_last() =~= whole.take(k));
            assert(whole.take(k + 1).last() == whole[k]);
            lemma_hex_val_bound(whole[k]);
            lemma_pow16_le((k + 1) as nat, 8);
            reveal_with_fuel(pow16, 9);
            assert(pow16(8) == 0x1_0000_0000_0000_0000_0000_0000_0000_0000);
            assert(acc * 0x10000 + 0x10000 <= pow16(k as nat) * 0x10000) by (nonlinear_arith)
                requires
                    acc < pow16(k as nat),
            ;
        }
        acc = acc * 0x10000 + (v as u128);
        i += 1;
    }
    proof {
        assert(whole.take(to - from) =~= whole);
    }
    Some(acc)
}

/// Parses a textual IPv6 address.
#[verifier::rlimit(60)]
pub fn parse_ipv6(s: &str) -> (r: Option<u128>)
    ensures
        r == spec_parse_ipv6(s@),
{
    let groups = split_char(s, ':');
    let ghost gs = spec_split(s@, ':');
    proof {
        assert(groups@.map_values(|g: String| g@) =~= gs);
    }
    let n = groups.len();
    // find the empty groups
    let mut empties: Vec<usize> = Vec::new();
    let mut i: usize = 0;
    while i < n
        invariant
            0 <= i <= n,
            n == gs.len(),
            groups@.map_values(|g: String| g@) =~= gs,
            forall|j: int|
                0 <= j < empties@.len() ==> 0 <= #[trigger] empties@[j] < i && gs[empties@[j] as int].len()
                    == 0,
            forall|j1: int, j2: int| 0 <= j1 < j2 < empties@.len() ==> empties@[j1] < empties@[j2],
            forall|j: int|
                0 <= j < i && gs[j].len() == 0 ==> exists|m: int|
                    0 <= m < empties@.len() && empties@[m] == j,
        decreases n - i,
    {
        proof {
            assert(gs[i as int] == groups@.map_values(|g: String| g@)[i as int]);
        }
        if groups[i].as_str().is_empty() {
            let ghost before = empties@;
            empties.push(i);
            proof {
                assert forall|j: int| 0 <= j < i + 1 && gs[j].len() == 0 implies exists|m: int|
                    0 <= m < empties@.len() && empties@[m] == j by {
                    if j == i as int {
                        assert(empties@[empties@.len() - 1] == j);
                    } else {
                        let m = choose|m: int| 0 <= m < before.len() && before[m] == j;
                        assert(empties@[m] == j);
                    }
                }
            }
        } else {
            proof {
                assert(gs[i as int].len() != 0);
            }
        }
        i += 1;
    }
    if empties.len() == 0 {
        // exactly eight groups, no `::`
        if n != 8 {
            proof {
                assert(forall|i: int| 0 <= i < gs.len() ==> #[trigger] gs[i].len() != 0);
            }
            return None;
        }
        proof {
            assert(forall|i: int| 0 <= i < gs.len() ==> #[trigger] gs[i].len() != 0);
            assert(gs.subrange(0, 8) =~= gs);
        }
        match parse_groups_val(&groups, 0, 8) {
            Some(v) => {
                proof {
                    lemma_groups_val_bound(gs);
                    reveal_with_fuel(pow16, 9);
                    assert(pow16(8) == 0x1_0000_0000_0000_0000_0000_0000_0000_0000);
                }
                Some(v)
            }
            None => None,
        }
    } else if empties.len() == 1 {
        let e = empties[0];
        proof {
            assert(gs[e as int].len() == 0);
            assert forall|i: int| 0 <= i < gs.len() && i != e implies #[trigger] gs[i].len()
                != 0 by {
                if gs[i].len() == 0 {
                    let m = choose|m: int| 0 <= m < empties@.len() && empties@[m] == i;
                    assert(m == 0);
                }
            }
        }
        if e == 0 || e == n - 1 {
            // a single leading or trailing empty group means a bare ":" edge
            return None;
        }
        // "L::R"
        proof {
            let we = choose|we: int|
                1 <= we < gs.len() - 1 && #[trigger] gs[we].len() == 0 && (forall|i: int|
                    0 <= i < gs.len() && i != we ==> #[trigger] gs[i].len() != 0);
            assert(gs[we].len() == 0);
            assert(we == e as int);
        }
        if n - 1 > 7 {
            // more than seven groups beside the empty one
            proof {
                let left = gs.take(e as int);
                let right = gs.skip(e as int + 1);
                assert(left.len() + right.len() == n - 1);
            }
            return None;
        }
        let lv = match parse_groups_val(&groups, 0, e) {
            Some(v) => v,
            None => {
                proof {
                    assert(gs.take(e as int) =~= gs.subrange(0, e as int));
                }
                return None;
            }
        };
        let rv = match parse_groups_val(&groups, e + 1, n) {
            Some(v) => v,
            None => {
                proof {
                    assert(gs.skip(e as int + 1) =~= gs.subrange(e as int + 1, n as int));
                }
                return None;
            }
        };
        proof {
            let left = gs.take(e as int);
            let right = gs.skip(e as int + 1);
            assert(left =~= gs.subrange(0, e as int));
            assert(right =~= gs.subrange(e as int + 1, n as int));
            lemma_groups_val_bound(left);
            lemma_groups_val_bound(right);
            lemma_pow16_le(left.len() as nat, 8);
            lemma_pow16_le(right.len() as nat, (8 - e) as nat);
            reveal_with_fuel(pow16, 9);
            assert(pow16(8) == 0x1_0000_0000_0000_0000_0000_0000_0000_0000);
        }
        Some(shift_add(lv, e, 8 - e, rv))
    } else if empties.len() == 2 {
        let e0 = empties[0];
        let e1 = empties[1];
        proof {
            assert forall|i: int| 0 <= i < gs.len() && i != e0 && i != e1 implies #[trigger] gs[i].len()
                != 0 by {
                if gs[i].len() == 0 {
                    let m = choose|m: int| 0 <= m < empties@.len() && empties@[m] == i;
                    assert(m == 0 || m == 1);
                }
            }
        }
        if e0 == 0 && e1 == 1 {
            // "::R"
            if n < 3 {
                return None;
            }
            if n - 2 > 7 {
                proof {
                    assert(gs.skip(2).len() == n - 2);
                }
                return None;
            }
            proof {
                assert(gs.skip(2) =~= gs.subrange(2, n as int));
            }
            match parse_groups_val(&groups, 2, n) {
                Some(v) => {
                    proof {
                        lemma_groups_val_bound(gs.skip(2));
                        lemma_pow16_le(gs.skip(2).len() as nat, 8);
                        reveal_with_fuel(pow16, 9);
                        assert(pow16(8) == 0x1_0000_0000_0000_0000_0000_0000_0000_0000);
                    }
                    Some(v)
                }
                None => None,
            }
        } else if e0 == n - 2 && e1 == n - 1 {
            // "L::"
            if n < 3 {
                return None;
            }
            if n - 2 > 7 {
                proof {
                    assert(gs.take(n as int - 2).len() == n - 2);
                }
                return None;
            }
            proof {
                assert(gs.take(n as int - 2) =~= gs.subrange(0, n as int - 2));
            }
            match parse_groups_val(&groups, 0, n - 2) {
                Some(v) => {
                    proof {
                        lemma_groups_val_bound(gs.take(n as int - 2));
                        lemma_pow16_le(gs.take(n as int - 2).len() as nat, 8);
                        lemma_pow16_le(0, (8 - (n - 2)) as nat);
                        reveal_with_fuel(pow16, 9);
                        assert(pow16(8) == 0x1_0000_0000_0000_0000_0000_0000_0000_0000);
                    }
                    Some(shift_add(v, n - 2, 8 - (n - 2), 0))
                }
                None => None,
            }
        } else {
            return None;
        }
    } else if empties.len() == 3 {
        let e0 = empties[0];
        let e1 = empties[1];
        let e2 = empties[2];
        proof {
            assert forall|i: int|
                0 <= i < gs.len() && i != e0 && i != e1 && i != e2 implies #[trigger] gs[i].len()
                != 0 by {
                if gs[i].len() == 0 {
                    let m = choose|m: int| 0 <= m < empties@.len() && empties@[m] == i;
                    assert(m == 0 || m == 1 || m == 2);
                }
            }
        }
        if n == 3 && e0 == 0 && e1 == 1 && e2 == 2 {
            // "::"
            Some(0)
        } else {
            None
        }
    } else {
        proof {
            assert(empties@[0] < empties@[1] && empties@[1] < empties@[2] && empties@[2]
                < empties@[3]);
        }
        None
    }
}

/// Shifts `left` up by `16 * (zeros + rlen_groups)`... combines the two halves
/// of a `::` form: `left` occupies the top groups, `right` the bottom ones.
fn shift_add(left: u128, llen: usize, shift_groups: usize, right: u128) -> (r: u128)
    requires
        llen + shift_groups == 8,
        left < pow16(llen as nat),
        right < pow16(shift_groups as nat),
    ensures
        r == (left * pow16(shift_groups as nat) + right) as u128,
{
    proof {
        reveal_with_fuel(pow16, 9);
        assert(pow16(8) == 0x1_0000_0000_0000_0000_0000_0000_0000_0000);
        assert(pow16(0) == 1);
        assert(left * pow16(0) == left) by (nonlinear_arith)
            requires
                pow16(0) == 1,
        ;
        lemma_pow16_le(llen as nat, (llen + 0) as nat);
    }
    let mut acc: u128 = left;
    let mut t: usize = 0;
    while t < shift_groups
        invariant
            0 <= t <= shift_groups,
            llen + shift_groups == 8,
            acc == left * pow16(t as nat),
            left < pow16(llen as nat),
            acc < pow16((llen + t) as nat),
        decreases shift_groups - t,
    {
        proof {
            lemma_pow16_le((llen + t + 1) as nat, 8);
            reveal_with_fuel(pow16, 9);
            assert(pow16(8) == 0x1_0000_0000_0000_0000_0000_0000_0000_0000);
            assert(acc * 0x10000 < pow16((llen + t) as nat) * 0x10000) by (nonlinear_arith)
                requires
                    acc < pow16((llen + t) as nat),
            ;
            assert(left * pow16(t as nat) * 0x10000 == left * (pow16(t as nat) * 0x10000))
                by (nonlinear_arith);
        }
        acc = acc * 0x10000;
        t += 1;
    }
    proof {
        lemma_pow16_le(llen as nat, 8);
        lemma_pow16_le(shift_groups as nat, 8);
        reveal_with_fuel(pow16, 9);
        assert(pow16(8) == 0x1_0000_0000_0000_0000_0000_0000_0000_0000);
        assert(left * pow16(shift_groups as nat) + pow16(shift_groups as nat) <= pow16(
            llen as nat,
        ) * pow16(shift_groups as nat)) by (nonlinear_arith)
            requires
                left < pow16(llen as nat),
        ;
        lemma_pow16_mul(llen as nat, shift_groups as nat);
    }
    acc + right
}

proof fn lemma_pow16_mul(a: nat, b: nat)
    ensures
        pow16(a) * pow16(b) == pow16(a + b),
    decreases b,
{
    if b == 0 {
        assert(pow16(a) * 1 == pow16(a)) by (nonlinear_arith);
    } else {
        lemma_pow16_mul(a, (b - 1) as nat);
        assert(pow16(a) * (0x10000 * pow16((b - 1) as nat)) == 0x10000 * (pow16(a) * pow16(
            (b - 1) as nat,
        ))) by (nonlinear_arith);
        assert(pow16((a + b) as nat) == 0x10000 * pow16((a + b - 1) as nat));
    }
}

// ---------------------------------------------------------------------------
// CIDR prefixes
// ---------------------------------------------------------------------------
/// An IP prefix: an address and a prefix length.
#[derive(Debug, Clone, Copy, PartialEq, Eq)]
pub struct IpCidr {
    pub addr: IpAddress,
    pub prefix: u8,
}

impl IpCidr {
    /// The prefix length does not exceed the address width.
    pub open spec fn wf(&self) -> bool {
        match self.addr {
            IpAddress::V4(_) => self.prefix <= 32,
            IpAddress::V6(_) => self.prefix <= 128,
        }
    }
}

/// Whether `ip` lies in the prefix: the two addresses are of the same family
/// and agree on the topmost `prefix` bits. A zero-length prefix accepts every
/// address of its family.
pub open spec fn spec_cidr_contains(c: IpCidr, ip: IpAddress) -> bool {
    match (c.addr, ip) {
        (IpAddress::V4(a), IpAddress::V4(b)) => c.prefix == 0 || (a >> (32 - c.prefix) as u32) == (
        b >> (32 - c.prefix) as u32),
        (IpAddress::V6(a), IpAddress::V6(b)) => c.prefix == 0 || (a >> (128 - c.prefix) as u128)
            == (b >> (128 - c.prefix) as u128),
        _ => false,
    }
}

impl IpCidr {
    /// Decides membership of `ip` in this prefix.
    pub fn contains(&self, ip: &IpAddress) -> (r: bool)
        requires
            self.wf(),
        ensures
            r == spec_cidr_contains(*self, *ip),
    {
        match (&self.addr, ip) {
            (IpAddress::V4(a), IpAddress::V4(b)) => {
                self.prefix == 0 || (*a >> (32 - self.prefix) as u32) == (*b >> (
                32 - self.prefix) as u32)
            }
            (IpAddress::V6(a), IpAddress::V6(b)) => {
                self.prefix == 0 || (*a >> (128 - self.prefix) as u128) == (*b >> (
                128 - self.prefix) as u128)
            }
            _ => false,
        }
    }
}

/// A zero-length IPv4 prefix accepts every IPv4 address, and a zero-length
/// IPv6 prefix every IPv6 address.
pub proof fn lemma_cidr_zero_accepts_all(c: IpCidr, ip: IpAddress)
    requires
        c.prefix == 0,
        c.addr is V4 <==> ip is V4,
    ensures
        spec_cidr_contains(c, ip),
{
}

/// The CIDR grammar: an IP address, a slash, and a canonical decimal prefix
/// length within the address width.
pub open spec fn spec_parse_cidr(s: Seq<char>) -> Option<IpCidr> {
    let gs = spec_split(s, '/');
    if gs.len() == 2 {
        let p = gs[1];
        if is_canon_dec(p) {
            if spec_parse_ipv4(gs[0]) is Some && dec_val(p) <= 32 {
                Some(
                    IpCidr {
                        addr: IpAddress::V4(spec_parse_ipv4(gs[0])->0),
                        prefix: dec_val(p) as u8,
                    },
                )
            } else if spec_parse_ipv4(gs[0]) is None && spec_parse_ipv6(gs[0]) is Some && dec_val(
                p,
            ) <= 128 {
                Some(
                    IpCidr {
                        addr: IpAddress::V6(spec_parse_ipv6(gs[0])->0),
                        prefix: dec_val(p) as u8,
                    },
                )
            } else {
                None
            }
        } else {
            None
        }
    } else {
        None
    }
}

/// Parses CIDR text such as a zero-prefixed catch-all or a private range.
/// Malformed text is a `BadRequest`.
pub fn parse_cidr(s: &str) -> (r: Result<IpCidr, crate::Error>)
    ensures
        match r {
            Ok(c) => spec_parse_cidr(s@) == Some(c) && c.wf(),
            Err(e) => spec_parse_cidr(s@) is None && e == crate::Error::BadRequest,
        },
{
    let gs = split_char(s, '/');
    if gs.len() != 2 {
        return Err(crate::Error::BadRequest);
    }
    let addr = parse_ip(gs[0].as_str());
    let is4 = match &addr {
        Some(IpAddress::V4(_)) => true,
        _ => false,
    };
    let max: u64 = if is4 {
        32
    } else {
        128
    };
    let p = match parse_dec(gs[1].as_str(), max) {
        Some(p) => p,
        None => {
            return Err(crate::Error::BadRequest);
        }
    };
    match addr {
        Some(a) => Ok(IpCidr { addr: a, prefix: p as u8 }),
        None => Err(crate::Error::BadRequest),
    }
}

// ---------------------------------------------------------------------------
// Reserved and mapped addresses
// ---------------------------------------------------------------------------
/// Whether the address is reserved: unspecified, loopback, private,
/// link-local, multicast or future-use for IPv4; unspecified, loopback,
/// unique-local or unicast link-local for IPv6.
pub open spec fn spec_is_reserved(ip: IpAddress) -> bool {
    match ip {
        IpAddress::V4(a) => {
            let b0 = a >> 24;
            let b1 = (a >> 16) & 0xFF;
            ||| b0 == 0
            ||| b0 == 127
            ||| b0 == 10
            ||| (b0 == 172 && 16 <= b1 < 32)
            ||| (b0 == 192 && b1 == 168)
            ||| (b0 == 169 && b1 == 254)
            ||| b0 >= 224
        }
        IpAddress::V6(a) => {
            let seg0 = (a >> 112) as u32;
            ||| a == 0
            ||| a == 1
            ||| (seg0 & 0xFE00) == 0xFC00
            ||| (seg0 & 0xFFC0) == 0xFE80
        }
    }
}

/// Decides whether an address is reserved.
pub fn is_reserved(ip: &IpAddress) -> (r: bool)
    ensures
        r == spec_is_reserved(*ip),
{
    match ip {
        IpAddress::V4(a) => {
            let b0 = *a >> 24;
            let b1 = (*a >> 16) & 0xFF;
            b0 == 0 || b0 == 127 || b0 == 10 || (b0 == 172 && 16 <= b1 && b1 < 32) || (b0 == 192
                && b1 == 168) || (b0 == 169 && b1 == 254) || b0 >= 224
        }
        IpAddress::V6(a) => {
            let seg0 = (*a >> 112) as u32;
            *a == 0 || *a == 1 || (seg0 & 0xFE00) == 0xFC00 || (seg0 & 0xFFC0) == 0xFE80
        }
    }
}

/// The IPv4 address embedded in an IPv4-mapped IPv6 address, if the value is
/// one.
pub open spec fn spec_to_ipv4_mapped(a: u128) -> Option<u32> {
    if a >> 32 == 0xFFFF {
        Some((a & 0xFFFF_FFFF) as u32)
    } else {
        None
    }
}

/// Converts an IPv4-mapped IPv6 address back to the IPv4 it encodes.
pub fn to_ipv4_mapped(a: u128) -> (r: Option<u32>)
    ensures
        r == spec_to_ipv4_mapped(a),
{
    if a >> 32 == 0xFFFF {
        Some((a & 0xFFFF_FFFF) as u32)
    } else {
        None
    }
}

/// Rewrites a socket address holding an IPv4-mapped IPv6 value to the plain
/// IPv4 form; every other address is returned unchanged.
pub fn resolve_mapped_address(addr: Address) -> (r: Address)
    ensures
        r == match addr {
            Address::Socket(IpAddress::V6(a), port) => {
                if spec_to_ipv4_mapped(a) is Some {
                    Address::Socket(IpAddress::V4(spec_to_ipv4_mapped(a)->0), port)
                } else {
                    addr
                }
            },
            _ => addr,
        },
{
    match addr {
        Address::Socket(IpAddress::V6(a), port) => match to_ipv4_mapped(a) {
            Some(v4) => Address::Socket(IpAddress::V4(v4), port),
            None => Address::Socket(IpAddress::V6(a), port),
        },
        other => other,
    }
}

/// Parses either form of IP address text.
pub fn parse_ip(s: &str) -> (r: Option<IpAddress>)
    ensures
        r == if spec_parse_ipv4(s@) is Some {
            Some(IpAddress::V4(spec_parse_ipv4(s@)->0))
        } else if spec_parse_ipv6(s@) is Some {
            Some(IpAddress::V6(spec_parse_ipv6(s@)->0))
        } else {
            None::<IpAddress>
        },
{
    match parse_ipv4(s) {
        Some(v) => Some(IpAddress::V4(v)),
        None => match parse_ipv6(s) {
            Some(v) => Some(IpAddress::V6(v)),
            None => None,
        },
    }
}

/// The canonical decimal digits of `n`, most significant first.
pub open spec fn dec_digits(n: nat) -> Seq<char>
    decreases n,
{
    if n < 10 {
        seq![digit_char(n)]
    } else {
        dec_digits(n / 10).push(digit_char(n % 10))
    }
}

/// The digit character for a value below ten.
pub open spec fn digit_char(d: nat) -> char {
    if d == 0 {
        '0'
    } else if d == 1 {
        '1'
    } else if d == 2 {
        '2'
    } else if d == 3 {
        '3'
    } else if d == 4 {
        '4'
    } else if d == 5 {
        '5'
    } else if d == 6 {
        '6'
    } else if d == 7 {
        '7'
    } else if d == 8 {
        '8'
    } else {
        '9'
    }
}

/// Renders a number in canonical decimal.
pub fn render_dec(n: u64) -> (r: String)
    ensures
        r@ == dec_digits(n as nat),
    decreases n,
{
    let d = n % 10;
    let c: char = if d == 0 {
        '0'
    } else if d == 1 {
        '1'
    } else if d == 2 {
        '2'
    } else if d == 3 {
        '3'
    } else if d == 4 {
        '4'
    } else if d == 5 {
        '5'
    } else if d == 6 {
        '6'
    } else if d == 7 {
        '7'
    } else if d == 8 {
        '8'
    } else {
        '9'
    };
    if n < 10 {
        let mut s = String::new();
        crate::strutil::push_char(&mut s, c);
        proof {
            assert(s@ =~= seq![digit_char(n as nat)]);
        }
        s
    } else {
        let mut s = render_dec(n / 10);
        crate::strutil::push_char(&mut s, c);
        s
    }
}

} // verus!
