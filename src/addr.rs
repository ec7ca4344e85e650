//! Textual IP addresses: dotted-quad IPv4 and colon-separated IPv6.

use vstd::prelude::*;
use crate::text::chars_of;

verus! {

/// The fields of a text between separators: `a.b` has fields `a` and `b`,
/// and a text without separators is one field.
pub open spec fn fields(s: Seq<char>, sep: char) -> Seq<Seq<char>>
    decreases s.len(),
{
    if s.len() == 0 {
        seq![Seq::<char>::empty()]
    } else {
        let f = fields(s.drop_last(), sep);
        if s.last() == sep {
            f.push(Seq::<char>::empty())
        } else {
            f.update(f.len() - 1, f.last().push(s.last()))
        }
    }
}

pub proof fn lemma_fields_nonempty(s: Seq<char>, sep: char)
    ensures
        fields(s, sep).len() >= 1,
    decreases s.len(),
{
    if s.len() > 0 {
        lemma_fields_nonempty(s.drop_last(), sep);
    }
}

/// The value of a decimal digit.
pub open spec fn dec_digit(c: char) -> Option<int> {
    if '0' <= c && c <= '9' {
        Some(c as int - '0' as int)
    } else {
        None
    }
}

/// The value of a hexadecimal digit, of either case.
pub open spec fn hex_digit(c: char) -> Option<int> {
    if '0' <= c && c <= '9' {
        Some(c as int - '0' as int)
    } else if 'a' <= c && c <= 'f' {
        Some(c as int - 'a' as int + 10)
    } else if 'A' <= c && c <= 'F' {
        Some(c as int - 'A' as int + 10)
    } else {
        None
    }
}

/// The value of a digit of base 16 (`hex`) or 10.
pub open spec fn digit(c: char, hex: bool) -> Option<int> {
    if hex {
        hex_digit(c)
    } else {
        dec_digit(c)
    }
}

/// The value of a string of digits in base 10 (`hex` false) or 16.
pub open spec fn digits_value(s: Seq<char>, hex: bool) -> int
    decreases s.len(),
{
    if s.len() == 0 {
        0
    } else {
        let d = digit(s.last(), hex);
        digits_value(s.drop_last(), hex) * (if hex {
            16int
        } else {
            10int
        }) + d.unwrap_or(0)
    }
}

/// Whether every character is a digit of the base.
pub open spec fn all_digits(s: Seq<char>, hex: bool) -> bool {
    forall|i: int| 0 <= i < s.len() ==> (#[trigger] digit(s[i], hex)) is Some
}

/// A field of an IPv4 address: one to three decimal digits, no leading zero,
/// at most 255.
pub open spec fn octet_ok(p: Seq<char>) -> bool {
    &&& 1 <= p.len() <= 3
    &&& all_digits(p, false)
    &&& (p.len() == 1 || p[0] != '0')
    &&& digits_value(p, false) <= 255
}

/// A field of an IPv6 address: one to four hexadecimal digits.
pub open spec fn group_ok(p: Seq<char>) -> bool {
    1 <= p.len() <= 4 && all_digits(p, true)
}

/// The value of fields read as digits of base `b`, the first field highest.
pub open spec fn fields_value(f: Seq<Seq<char>>, hex: bool) -> int
    decreases f.len(),
{
    if f.len() == 0 {
        0
    } else {
        fields_value(f.drop_last(), hex) * (if hex {
            65536int
        } else {
            256int
        }) + digits_value(f.last(), hex)
    }
}

/// The IPv4 address that a text denotes: four octet fields separated by dots.
pub open spec fn ipv4_of(s: Seq<char>) -> Option<u32> {
    let f = fields(s, '.');
    if f.len() == 4 && forall|i: int| 0 <= i < 4 ==> octet_ok(#[trigger] f[i]) {
        Some(fields_value(f, false) as u32)
    } else {
        None
    }
}

/// The fields of `v` between separators `sep`.
pub(crate) fn split_fields(v: &Vec<char>, sep: char) -> (r: Vec<Vec<char>>)
    ensures
        r@.len() == fields(v@, sep).len(),
        forall|k: int| 0 <= k < r@.len() ==> (#[trigger] r@[k])@ == fields(v@, sep)[k],
{
    let mut done: Vec<Vec<char>> = Vec::new();
    let mut cur: Vec<char> = Vec::new();
    let mut i: usize = 0;
    proof {
        assert(v@.take(0) =~= Seq::<char>::empty());
    }
    while i < v.len()
        invariant
            0 <= i <= v@.len(),
            done@.len() + 1 == fields(v@.take(i as int), sep).len(),
            forall|k: int| 0 <= k < done@.len() ==> (#[trigger] done@[k])@ == fields(v@.take(i as int), sep)[k],
            cur@ == fields(v@.take(i as int), sep).last(),
        decreases v@.len() - i,
    {
        let ghost fs = fields(v@.take(i as int), sep);
        proof {
            assert(v@.take(i + 1).drop_last() =~= v@.take(i as int));
            assert(v@.take(i + 1).last() == v@[i as int]);
            lemma_fields_nonempty(v@.take(i as int), sep);
        }
        let c = v[i];
        if c == sep {
            let finished = cur;
            done.push(finished);
            cur = Vec::new();
            proof {
                let nf = fields(v@.take(i + 1), sep);
                assert(nf == fs.push(Seq::<char>::empty()));
                assert(cur@ =~= nf.last());
            }
        } else {
            cur.push(c);
        }
        i = i + 1;
    }
    proof {
        assert(v@.take(v@.len() as int) =~= v@);
    }
    let ghost fs = fields(v@, sep);
    let ghost before = done@;
    done.push(cur);
    proof {
        assert forall|k: int| 0 <= k < done@.len() implies (#[trigger] done@[k])@ == fs[k] by {
            if k < before.len() {
                assert(done@[k] == before[k]);
            }
        }
    }
    done
}

/// The value of a string of at most four digits, where all are digits of the base.
fn digits_of(p: &Vec<char>, hex: bool) -> (r: Option<u32>)
    requires
        p@.len() <= 4,
    ensures
        r is Some <==> all_digits(p@, hex),
        r matches Some(n) ==> n == digits_value(p@, hex) && n < 65536,
{
    let mut n: u32 = 0;
    let mut i: usize = 0;
    let ghost base: int = if hex { 16 } else { 10 };
    while i < p.len()
        invariant
            0 <= i <= p@.len() <= 4,
            base == (if hex { 16int } else { 10int }),
            all_digits(p@.take(i as int), hex),
            n == digits_value(p@.take(i as int), hex),
            n < pow_of(base, i as nat),
            pow_of(base, i as nat) <= 65536,
        decreases p@.len() - i,
    {
        let c = p[i];
        let d: u32 = if '0' <= c && c <= '9' {
            (c as u32) - ('0' as u32)
        } else if hex && 'a' <= c && c <= 'f' {
            (c as u32) - ('a' as u32) + 10
        } else if hex && 'A' <= c && c <= 'F' {
            (c as u32) - ('A' as u32) + 10
        } else {
            proof {
                assert(!all_digits(p@, hex)) by {
                    assert(p@[i as int] == c);
                }
            }
            return None;
        };
        proof {
            assert(p@.take(i + 1).drop_last() =~= p@.take(i as int));
            assert(p@.take(i + 1).last() == c);
            lemma_pow_step(base, i as nat);
            assert(d < base);
            assert(n * base + d < pow_of(base, (i + 1) as nat)) by (nonlinear_arith)
                requires
                    n < pow_of(base, i as nat),
                    d < base,
                    pow_of(base, (i + 1) as nat) == pow_of(base, i as nat) * base,
                    base > 0,
            ;
            lemma_pow_bound(base, (i + 1) as nat);
            assert(all_digits(p@.take(i + 1), hex)) by {
                assert forall|k: int| 0 <= k < i + 1 implies (#[trigger] digit(p@.take(i + 1)[k], hex)) is Some by {
                    if k < i {
                        assert(p@.take(i + 1)[k] == p@.take(i as int)[k]);
                    }
                }
            }
        }
        n = n * (if hex { 16 } else { 10 }) + d;
        i = i + 1;
    }
    proof {
        assert(p@.take(p@.len() as int) =~= p@);
    }
    Some(n)
}

/// `b` to the power `e`.
pub open spec fn pow_of(b: int, e: nat) -> int
    decreases e,
{
    if e == 0 {
        1
    } else {
        pow_of(b, (e - 1) as nat) * b
    }
}

proof fn lemma_pow_step(b: int, e: nat)
    ensures
        pow_of(b, e + 1) == pow_of(b, e) * b,
{
}

proof fn lemma_pow_bound(b: int, e: nat)
    requires
        b == 10 || b == 16,
        e <= 4,
    ensures
        pow_of(b, e) <= 65536,
        pow_of(b, e) > 0,
{
    reveal_with_fuel(pow_of, 5);
}

/// Reads an IPv4 address in dotted-quad form.
pub fn parse_ipv4(s: &str) -> (r: Option<u32>)
    ensures
        r == ipv4_of(s@),
{
    let v = chars_of(s);
    ipv4_chars(&v)
}

/// Reads an IPv4 address given by its characters.
fn ipv4_chars(v: &Vec<char>) -> (r: Option<u32>)
    ensures
        r == ipv4_of(v@),
{
    let f = split_fields(v, '.');
    if f.len() != 4 {
        return None;
    }
    let ghost fs = fields(v@, '.');
    let mut value: u32 = 0;
    let mut i: usize = 0;
    while i < 4
        invariant
            f@.len() == 4,
            fs.len() == 4,
            fs == fields(v@, '.'),
            forall|k: int| 0 <= k < 4 ==> (#[trigger] f@[k])@ == fs[k],
            0 <= i <= 4,
            forall|k: int| 0 <= k < i ==> octet_ok(#[trigger] fs[k]),
            value == fields_value(fs.take(i as int), false),
            value < pow_of(256, i as nat),
        decreases 4 - i,
    {
        let p = &f[i];
        proof {
            assert(p@ == fs[i as int]);
        }
        if p.len() < 1 || p.len() > 3 {
            proof {
                assert(!octet_ok(fs[i as int]));
            }
            return None;
        }
        let d = match digits_of(p, false) {
            Some(d) => d,
            None => {
                proof {
                    assert(!octet_ok(fs[i as int]));
                }
                return None;
            },
        };
        if (p.len() > 1 && p[0] == '0') || d > 255 {
            proof {
                assert(!octet_ok(fs[i as int]));
            }
            return None;
        }
        proof {
            assert(octet_ok(fs[i as int]));
            assert(fs.take(i + 1).drop_last() =~= fs.take(i as int));
            assert(fs.take(i + 1).last() == fs[i as int]);
            reveal_with_fuel(pow_of, 5);
            assert(i < 4);
            assert(pow_of(256, (i + 1) as nat) == pow_of(256, i as nat) * 256);
            assert(pow_of(256, i as nat) <= 16777216) by {
                reveal_with_fuel(pow_of, 4);
            }
            assert(value * 256 + d < pow_of(256, (i + 1) as nat)) by (nonlinear_arith)
                requires
                    value < pow_of(256, i as nat),
                    d <= 255,
                    pow_of(256, (i + 1) as nat) == pow_of(256, i as nat) * 256,
            ;
            assert(pow_of(256, (i + 1) as nat) <= 4294967296) by {
                reveal_with_fuel(pow_of, 5);
            }
        }
        value = value * 256 + d;
        i = i + 1;
    }
    proof {
        assert(fs.take(4) =~= fs);
    }
    Some(value)
}

/// Whether the text holds `::` at position `k`.
pub open spec fn colons_at(s: Seq<char>, k: int) -> bool {
    s[k] == ':' && s[k + 1] == ':'
}

/// The position of the first `::` of the text, if it has one.
pub open spec fn double_colon(s: Seq<char>) -> Option<nat>
    decreases s.len(),
{
    if s.len() < 2 {
        None
    } else if s[0] == ':' && s[1] == ':' {
        Some(0)
    } else {
        match double_colon(s.drop_first()) {
            Some(p) => Some(p + 1),
            None => None,
        }
    }
}

/// The groups of one side of a `::`: none where the side is empty.
pub open spec fn side_groups(s: Seq<char>) -> Seq<Seq<char>> {
    if s.len() == 0 {
        Seq::empty()
    } else {
        fields(s, ':')
    }
}

/// `n` zero groups.
pub open spec fn zero_groups(n: nat) -> Seq<Seq<char>> {
    Seq::new(n, |i: int| seq!['0'])
}

/// The eight groups that a text spells out, where it has the shape of an
/// IPv6 address: eight groups, or groups on either side of one `::` that
/// stands for at least one zero group.
pub open spec fn ipv6_groups(s: Seq<char>) -> Option<Seq<Seq<char>>> {
    match double_colon(s) {
        None => {
            let f = fields(s, ':');
            if f.len() == 8 {
                Some(f)
            } else {
                None
            }
        },
        Some(p) => {
            let h = side_groups(s.take(p as int));
            let t = side_groups(s.skip((p + 2) as int));
            if h.len() + t.len() <= 7 {
                Some(h + zero_groups((8 - h.len() - t.len()) as nat) + t)
            } else {
                None
            }
        },
    }
}

/// The IPv6 address that a text of hex groups denotes: groups of one to
/// four hex digits.
pub open spec fn ipv6_hex_of(s: Seq<char>) -> Option<u128> {
    match ipv6_groups(s) {
        Some(g) => if forall|i: int| 0 <= i < g.len() ==> group_ok(#[trigger] g[i]) {
            Some(fields_value(g, true) as u128)
        } else {
            None
        },
        None => None,
    }
}

/// The position of the first `::` in `v`, if any.
fn double_colon_in(v: &Vec<char>) -> (r: Option<usize>)
    ensures
        match r {
            Some(p) => double_colon(v@) == Some(p as nat) && p + 2 <= v@.len(),
            None => double_colon(v@) is None,
        },
{
    let n = v.len();
    let mut i: usize = 0;
    while n > 0 && i < n - 1
        invariant
            n == v@.len(),
            0 <= i,
            i <= n || n == 0,
            forall|k: int| 0 <= k < i && k + 1 < n ==> !(#[trigger] colons_at(v@, k)),
        decreases n - i,
    {
        if v[i] == ':' && v[i + 1] == ':' {
            proof {
                lemma_double_colon_at(v@, i as int);
            }
            return Some(i);
        }
        i = i + 1;
    }
    proof {
        lemma_no_double_colon(v@);
    }
    None
}

proof fn lemma_double_colon_at(s: Seq<char>, i: int)
    requires
        0 <= i,
        i + 1 < s.len(),
        s[i] == ':' && s[i + 1] == ':',
        forall|k: int| 0 <= k < i && k + 1 < s.len() ==> !(#[trigger] colons_at(s, k)),
    ensures
        double_colon(s) == Some(i as nat),
    decreases i,
{
    if i > 0 {
        assert(!colons_at(s, 0));
        let t = s.drop_first();
        assert forall|k: int| 0 <= k < i - 1 && k + 1 < t.len() implies !(#[trigger] colons_at(t, k)) by {
            assert(t[k] == s[k + 1] && t[k + 1] == s[k + 2]);
            assert(!colons_at(s, k + 1));
        }
        lemma_double_colon_at(t, i - 1);
    }
}

proof fn lemma_no_double_colon(s: Seq<char>)
    requires
        forall|k: int| 0 <= k && k + 1 < s.len() ==> !(#[trigger] colons_at(s, k)),
    ensures
        double_colon(s) is None,
    decreases s.len(),
{
    if s.len() >= 2 {
        assert(!colons_at(s, 0));
        let t = s.drop_first();
        assert forall|k: int| 0 <= k && k + 1 < t.len() implies !(#[trigger] colons_at(t, k)) by {
            assert(t[k] == s[k + 1] && t[k + 1] == s[k + 2]);
            assert(!colons_at(s, k + 1));
        }
        lemma_no_double_colon(t);
    }
}

/// The groups of one side of a `::`.
fn side_of(v: &Vec<char>) -> (r: Vec<Vec<char>>)
    ensures
        r@.len() == side_groups(v@).len(),
        forall|k: int| 0 <= k < r@.len() ==> (#[trigger] r@[k])@ == side_groups(v@)[k],
{
    if v.len() == 0 {
        Vec::new()
    } else {
        split_fields(v, ':')
    }
}

/// The value of at most eight groups, where every one is a group of one to
/// four hex digits.
fn groups_value(g: &Vec<Vec<char>>) -> (r: Option<u128>)
    requires
        g@.len() <= 8,
    ensures
        r is Some <==> forall|k: int| 0 <= k < g@.len() ==> group_ok(#[trigger] g@[k]@),
        r matches Some(n) ==> n == fields_value(g@.map_values(|x: Vec<char>| x@), true),
{
    let ghost fs = g@.map_values(|x: Vec<char>| x@);
    let mut value: u128 = 0;
    let mut i: usize = 0;
    proof {
        lemma_pow_mono(65536, 0, 8);
    }
    while i < g.len()
        invariant
            g@.len() <= 8,
            fs == g@.map_values(|x: Vec<char>| x@),
            0 <= i <= g@.len(),
            forall|k: int| 0 <= k < i ==> group_ok(#[trigger] g@[k]@),
            value == fields_value(fs.take(i as int), true),
            value < pow_of(65536, i as nat),
            pow_of(65536, i as nat) <= pow_of(65536, 8),
        decreases g@.len() - i,
    {
        let p = &g[i];
        if p.len() < 1 || p.len() > 4 {
            return None;
        }
        let d = match digits_of(p, true) {
            Some(d) => d,
            None => return None,
        };
        proof {
            assert(fs[i as int] == p@);
            assert(fs.take(i + 1).drop_last() =~= fs.take(i as int));
            assert(fs.take(i + 1).last() == fs[i as int]);
            lemma_pow_step(65536, i as nat);
            assert(value * 65536 + d < pow_of(65536, (i + 1) as nat)) by (nonlinear_arith)
                requires
                    value < pow_of(65536, i as nat),
                    d < 65536,
                    pow_of(65536, (i + 1) as nat) == pow_of(65536, i as nat) * 65536,
            ;
            lemma_pow_mono(65536, (i + 1) as nat, 8);
            reveal_with_fuel(pow_of, 9);
            assert(pow_of(65536, 8) == 0x1_0000_0000_0000_0000_0000_0000_0000_0000);
        }
        value = value * 65536 + d as u128;
        i = i + 1;
    }
    proof {
        assert(fs.take(g@.len() as int) =~= fs);
    }
    Some(value)
}

proof fn lemma_pow_mono(b: int, e1: nat, e2: nat)
    requires
        b >= 1,
        e1 <= e2,
    ensures
        pow_of(b, e1) <= pow_of(b, e2),
    decreases e2,
{
    if e1 < e2 {
        lemma_pow_mono(b, e1, (e2 - 1) as nat);
        lemma_pow_pos(b, (e2 - 1) as nat);
        assert(pow_of(b, (e2 - 1) as nat) <= pow_of(b, (e2 - 1) as nat) * b) by (nonlinear_arith)
            requires
                b >= 1,
                pow_of(b, (e2 - 1) as nat) >= 1,
        ;
    }
}

proof fn lemma_pow_pos(b: int, e: nat)
    requires
        b >= 1,
    ensures
        pow_of(b, e) >= 1,
    decreases e,
{
    if e > 0 {
        lemma_pow_pos(b, (e - 1) as nat);
        assert(pow_of(b, (e - 1) as nat) * b >= 1) by (nonlinear_arith)
            requires
                b >= 1,
                pow_of(b, (e - 1) as nat) >= 1,
        ;
    }
}

/// Reads an IPv6 address of hex groups, given by its characters.
fn ipv6_hex_chars(v: &Vec<char>) -> (r: Option<u128>)
    ensures
        r == ipv6_hex_of(v@),
{
    let mut all: Vec<Vec<char>>;
    match double_colon_in(v) {
        None => {
            all = split_fields(v, ':');
            if all.len() != 8 {
                return None;
            }
            proof {
                assert(all@.map_values(|x: Vec<char>| x@) =~= fields(v@, ':'));
            }
        },
        Some(p) => {
            let head = crate::text::sub_chars(v, 0, p);
            let n = v.len();
            assert(p + 2 <= n);
            let tail = crate::text::sub_chars(v, p + 2, n);
            let h = side_of(&head);
            let t = side_of(&tail);
            if h.len() > 7 || t.len() > 7 - h.len() {
                proof {
                    assert(head@ =~= v@.take(p as int));
                    assert(tail@ =~= v@.skip(p + 2));
                }
                return None;
            }
            all = Vec::new();
            let mut i: usize = 0;
            while i < h.len()
                invariant
                    0 <= i <= h@.len(),
                    all@.len() == i,
                    forall|k: int| 0 <= k < i ==> (#[trigger] all@[k])@ == h@[k]@,
                decreases h@.len() - i,
            {
                all.push(h[i].clone());
                i = i + 1;
            }
            let zeros = 8 - h.len() - t.len();
            let mut j: usize = 0;
            while j < zeros
                invariant
                    0 <= j <= zeros,
                    all@.len() == h@.len() + j,
                    forall|k: int| 0 <= k < h@.len() ==> (#[trigger] all@[k])@ == h@[k]@,
                    forall|k: int| h@.len() <= k < h@.len() + j ==> (#[trigger] all@[k])@ == seq!['0'],
                decreases zeros - j,
            {
                let mut z: Vec<char> = Vec::new();
                z.push('0');
                all.push(z);
                j = j + 1;
            }
            let mut k: usize = 0;
            while k < t.len()
                invariant
                    0 <= k <= t@.len(),
                    h@.len() + zeros + t@.len() == 8,
                    all@.len() == h@.len() + zeros + k,
                    forall|m: int| 0 <= m < h@.len() ==> (#[trigger] all@[m])@ == h@[m]@,
                    forall|m: int| h@.len() <= m < h@.len() + zeros ==> (#[trigger] all@[m])@ == seq!['0'],
                    forall|m: int| h@.len() + zeros <= m < h@.len() + zeros + k ==> (#[trigger] all@[m])@ == t@[m - h@.len() - zeros]@,
                decreases t@.len() - k,
            {
                all.push(t[k].clone());
                k = k + 1;
            }
            proof {
                assert(head@ =~= v@.take(p as int));
                assert(tail@ =~= v@.skip(p + 2));
                let hs = side_groups(v@.take(p as int));
                let ts = side_groups(v@.skip(p + 2));
                assert(all@.map_values(|x: Vec<char>| x@) =~= hs + zero_groups(zeros as nat) + ts);
            }
        },
    }
    let r = groups_value(&all);
    proof {
        let g = all@.map_values(|x: Vec<char>| x@);
        assert(ipv6_groups(v@) == Some(g));
        assert((forall|k: int| 0 <= k < all@.len() ==> group_ok(#[trigger] all@[k]@)) == (forall|
            i: int,
        | 0 <= i < g.len() ==> group_ok(#[trigger] g[i]))) by {
            if forall|k: int| 0 <= k < all@.len() ==> group_ok(#[trigger] all@[k]@) {
                assert forall|i: int| 0 <= i < g.len() implies group_ok(#[trigger] g[i]) by {
                    assert(g[i] == all@[i]@);
                }
            }
            if forall|i: int| 0 <= i < g.len() ==> group_ok(#[trigger] g[i]) {
                assert forall|k: int| 0 <= k < all@.len() implies group_ok(#[trigger] all@[k]@) by {
                    assert(g[k] == all@[k]@);
                }
            }
        }
    }
    r
}

/// The position of the first occurrence of `c` in the text, if any.
pub open spec fn first_index(s: Seq<char>, c: char) -> Option<nat>
    decreases s.len(),
{
    if s.len() == 0 {
        None
    } else if s[0] == c {
        Some(0)
    } else {
        match first_index(s.drop_first(), c) {
            Some(p) => Some(p + 1),
            None => None,
        }
    }
}

proof fn lemma_first_index(s: Seq<char>, c: char, i: int)
    requires
        0 <= i <= s.len(),
        forall|k: int| 0 <= k < i ==> s[k] != c,
    ensures
        i < s.len() && s[i] == c ==> first_index(s, c) == Some(i as nat),
        i == s.len() ==> first_index(s, c) is None,
    decreases i,
{
    if i > 0 {
        lemma_first_index(s.drop_first(), c, i - 1);
    }
}

/// The first position of `c` in `v`, if any.
pub(crate) fn first_index_in(v: &Vec<char>, c: char) -> (r: Option<usize>)
    ensures
        match r {
            Some(k) => first_index(v@, c) == Some(k as nat) && k < v@.len(),
            None => first_index(v@, c) is None,
        },
{
    let mut i: usize = 0;
    while i < v.len()
        invariant
            0 <= i <= v@.len(),
            forall|k: int| 0 <= k < i ==> v@[k] != c,
        decreases v@.len() - i,
    {
        if v[i] == c {
            proof {
                lemma_first_index(v@, c, i as int);
            }
            return Some(i);
        }
        i = i + 1;
    }
    proof {
        lemma_first_index(v@, c, i as int);
    }
    None
}

/// The position of the last occurrence of `c` in the text, if any.
pub open spec fn last_index(s: Seq<char>, c: char) -> Option<nat>
    decreases s.len(),
{
    if s.len() == 0 {
        None
    } else if s.last() == c {
        Some((s.len() - 1) as nat)
    } else {
        last_index(s.drop_last(), c)
    }
}

/// The text split before an IPv4 address that ends it: what comes up to
/// and including the last colon, and the rest, where the rest holds a dot.
pub open spec fn v4_tail(s: Seq<char>) -> Option<(Seq<char>, Seq<char>)> {
    match last_index(s, ':') {
        Some(k) => if s.skip((k + 1) as int).contains('.') {
            Some((s.take((k + 1) as int), s.skip((k + 1) as int)))
        } else {
            None
        },
        None => None,
    }
}

/// The low 32 bits of a 128-bit value.
pub const LOW_32: u128 = 0x1_0000_0000;

/// The IPv6 address that a text denotes: hex groups, where the last two may
/// be written as an IPv4 address (`::ffff:192.0.2.1`), which then gives the
/// low 32 bits.
pub open spec fn ipv6_of(s: Seq<char>) -> Option<u128> {
    match v4_tail(s) {
        Some((h, t)) => match (ipv6_hex_of(h + seq!['0', ':', '0']), ipv4_of(t)) {
            (Some(x), Some(y)) => Some((x as int - x as int % (LOW_32 as int) + y as int) as u128),
            _ => None,
        },
        None => ipv6_hex_of(s),
    }
}

/// The last position of `c` in `v`, if any.
fn last_index_in(v: &Vec<char>, c: char) -> (r: Option<usize>)
    ensures
        match r {
            Some(k) => last_index(v@, c) == Some(k as nat) && k < v@.len(),
            None => last_index(v@, c) is None,
        },
{
    let mut i: usize = v.len();
    proof {
        lemma_take_all(v@);
    }
    while i > 0
        invariant
            0 <= i <= v@.len(),
            last_index(v@, c) == last_index(v@.take(i as int), c),
        decreases i,
    {
        proof {
            assert(v@.take(i as int).drop_last() =~= v@.take(i - 1));
        }
        if v[i - 1] == c {
            return Some(i - 1);
        }
        i = i - 1;
    }
    proof {
        assert(v@.take(0) =~= Seq::<char>::empty());
    }
    None
}

proof fn lemma_take_all(s: Seq<char>)
    ensures
        s.take(s.len() as int) == s,
{
    assert(s.take(s.len() as int) =~= s);
}

/// Whether `v` holds a dot.
fn has_dot(v: &Vec<char>) -> (r: bool)
    ensures
        r == v@.contains('.'),
{
    let mut i: usize = 0;
    while i < v.len()
        invariant
            0 <= i <= v@.len(),
            forall|k: int| 0 <= k < i ==> v@[k] != '.',
        decreases v@.len() - i,
    {
        if v[i] == '.' {
            return true;
        }
        i = i + 1;
    }
    false
}

/// Reads an IPv6 address: eight groups of one to four hex digits separated
/// by colons, where one `::` may stand for one or more zero groups, and the
/// last two groups may be written as an IPv4 address.
pub fn parse_ipv6(s: &str) -> (r: Option<u128>)
    ensures
        r == ipv6_of(s@),
{
    let v = chars_of(s);
    proof {
        lemma_take_all(v@);
    }
    if let Some(k) = last_index_in(&v, ':') {
        let n = v.len();
        let tail = crate::text::sub_chars(&v, k + 1, n);
        proof {
            assert(tail@ =~= v@.skip(k + 1));
        }
        if has_dot(&tail) {
            let mut head = crate::text::sub_chars(&v, 0, k + 1);
            proof {
                assert(head@ =~= v@.take(k + 1));
            }
            head.push('0');
            head.push(':');
            head.push('0');
            proof {
                assert(head@ =~= v@.take(k + 1) + seq!['0', ':', '0']);
            }
            let x = match ipv6_hex_chars(&head) {
                Some(x) => x,
                None => return None,
            };
            let y = match ipv4_chars(&tail) {
                Some(y) => y,
                None => return None,
            };
            proof {
                let xi = x as int;
                let yi = y as int;
                let l = LOW_32 as int;
                assert(0 <= xi % l <= xi && xi - xi % l + yi < 0x1_0000_0000_0000_0000_0000_0000_0000_0000)
                    by (nonlinear_arith)
                    requires
                        0 <= xi < 0x1_0000_0000_0000_0000_0000_0000_0000_0000,
                        0 <= yi < 0x1_0000_0000,
                        l == 0x1_0000_0000,
                ;
            }
            return Some(x - x % LOW_32 + y as u128);
        }
    }
    ipv6_hex_chars(&v)
}

} // verus!
