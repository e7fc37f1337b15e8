use vstd::prelude::*;

verus! {

/// An IP address, IPv4 or IPv6, carried as plain integers so that
/// specifications can speak about it directly.
#[derive(Debug, Clone, Copy, PartialEq, Eq, Hash, Structural)]
pub enum Addr {
    /// An IPv4 address given by its four octets, most significant first.
    V4(u8, u8, u8, u8),
    /// An IPv6 address given by its eight 16-bit groups, most significant first.
    V6(u16, u16, u16, u16, u16, u16, u16, u16),
}

impl Addr {
    /// True when this address belongs to the IPv4 family.
    pub open spec fn spec_is_v4(self) -> bool {
        self is V4
    }

    /// True when this address belongs to the IPv6 family.
    pub open spec fn spec_is_v6(self) -> bool {
        self is V6
    }

    /// Returns `true` iff this is an IPv4 address.
    pub fn is_ipv4(&self) -> (r: bool)
        ensures
            r == self.spec_is_v4(),
    {
        match self {
            Addr::V4(..) => true,
            Addr::V6(..) => false,
        }
    }

    /// Returns `true` iff this is an IPv6 address.
    pub fn is_ipv6(&self) -> (r: bool)
        ensures
            r == self.spec_is_v6(),
    {
        match self {
            Addr::V4(..) => false,
            Addr::V6(..) => true,
        }
    }
}

/// Whether `b` is an ASCII decimal digit.
pub open spec fn is_digit(b: u8) -> bool {
    48 <= b <= 57
}

/// The numeric value of a sequence of decimal digits, most significant first.
pub open spec fn digits_val(s: Seq<u8>) -> nat
    decreases s.len(),
{
    if s.len() == 0 {
        0
    } else {
        (digits_val(s.drop_last()) * 10 + (s.last() - 48)) as nat
    }
}

/// Whether `b` is an ASCII hexadecimal digit.
pub open spec fn is_hex_digit(b: u8) -> bool {
    is_digit(b) || (97 <= b <= 102) || (65 <= b <= 70)
}

/// The numeric value of one hexadecimal digit.
pub open spec fn hex_digit_val(b: u8) -> nat {
    if is_digit(b) {
        (b - 48) as nat
    } else if 97 <= b <= 102 {
        (b - 87) as nat
    } else {
        (b - 55) as nat
    }
}

/// The numeric value of a sequence of hexadecimal digits, most significant
/// first.
pub open spec fn hex_val(s: Seq<u8>) -> nat
    decreases s.len(),
{
    if s.len() == 0 {
        0
    } else {
        (hex_val(s.drop_last()) * 16 + hex_digit_val(s.last())) as nat
    }
}

/// The parts of `s` split on every occurrence of the byte `sep`: always at
/// least one part, empty parts where separators meet an end or each other.
pub open spec fn spec_split(s: Seq<u8>, sep: u8) -> Seq<Seq<u8>>
    decreases s.len(),
{
    if s.len() == 0 {
        seq![Seq::empty()]
    } else if s[0] == sep {
        seq![Seq::empty()] + spec_split(s.drop_first(), sep)
    } else {
        let rest = spec_split(s.drop_first(), sep);
        rest.update(0, seq![s[0]] + rest[0])
    }
}

/// Splitting yields at least one part.
pub proof fn lemma_split_len(s: Seq<u8>, sep: u8)
    ensures
        spec_split(s, sep).len() >= 1,
    decreases s.len(),
{
    if s.len() != 0 {
        lemma_split_len(s.drop_first(), sep);
    }
}

/// How the split starts: if the first `i` bytes of `s` are separator-free
/// and byte `i` (when it exists) is the separator, then the first part is
/// exactly those `i` bytes, followed by the split of what comes after the
/// separator; with no separator at all, `s` is its own single part.
pub proof fn lemma_split_head(s: Seq<u8>, sep: u8, i: int)
    requires
        0 <= i <= s.len(),
        forall|j: int| 0 <= j < i ==> s[j] != sep,
        i < s.len() ==> s[i] == sep,
    ensures
        i == s.len() ==> spec_split(s, sep) == seq![s],
        i < s.len() ==> spec_split(s, sep) == seq![s.take(i)] + spec_split(s.skip(i + 1), sep),
    decreases i,
{
    lemma_split_len(s, sep);
    if i == 0 {
        if s.len() == 0 {
            assert(seq![Seq::<u8>::empty()] =~~= seq![s]);
        } else {
            assert(s.take(0) =~= Seq::<u8>::empty());
            assert(s.skip(1) =~= s.drop_first());
        }
    } else {
        let d = s.drop_first();
        lemma_split_len(d, sep);
        assert(forall|j: int| 0 <= j < i - 1 ==> d[j] != sep);
        lemma_split_head(d, sep, i - 1);
        let rest = spec_split(d, sep);
        if i == s.len() {
            assert(rest == seq![d]);
            assert(rest.update(0, seq![s[0]] + rest[0]) =~= seq![s]) by {
                assert(seq![s[0]] + d =~= s);
            }
        } else {
            assert(rest == seq![d.take(i - 1)] + spec_split(d.skip(i), sep));
            assert(rest[0] == d.take(i - 1));
            assert(seq![s[0]] + d.take(i - 1) =~= s.take(i));
            assert(d.skip(i) =~= s.skip(i + 1));
            assert(rest.update(0, seq![s.take(i)][0]) =~= seq![s.take(i)] + spec_split(
                s.skip(i + 1),
                sep,
            ));
        }
    }
}

/// Split `s` on every occurrence of `sep`.
fn split_on(s: &[u8], sep: u8) -> (parts: Vec<Vec<u8>>)
    ensures
        parts@.map_values(|p: Vec<u8>| p@) == spec_split(s@, sep),
{
    let mut parts: Vec<Vec<u8>> = Vec::new();
    let mut cur: Vec<u8> = Vec::new();
    let mut start: usize = 0;
    let mut i: usize = 0;
    proof {
        assert(cur@ =~= s@.subrange(0, 0));
        assert(s@.skip(0) =~= s@);
        assert(parts@.map_values(|p: Vec<u8>| p@) + spec_split(s@, sep) =~= spec_split(s@, sep));
    }
    while i < s.len()
        invariant
            start <= i <= s@.len(),
            cur@ == s@.subrange(start as int, i as int),
            forall|j: int| start <= j < i ==> s@[j] != sep,
            parts@.map_values(|p: Vec<u8>| p@) + spec_split(s@.skip(start as int), sep)
                == spec_split(s@, sep),
        decreases s@.len() - i,
    {
        if s[i] == sep {
            proof {
                let tail = s@.skip(start as int);
                assert(forall|j: int|
                    0 <= j < i - start ==> tail[j] == s@[start + j] && tail[j] != sep);
                assert(tail[i - start] == sep);
                lemma_split_head(tail, sep, i - start);
                assert(tail.take(i - start) =~= s@.subrange(start as int, i as int));
                assert(tail.skip(i - start + 1) =~= s@.skip(i + 1));
                assert(parts@.map_values(|p: Vec<u8>| p@).push(cur@) =~= parts@.push(
                    cur,
                ).map_values(|p: Vec<u8>| p@));
                assert(parts@.push(cur).map_values(|p: Vec<u8>| p@) + spec_split(
                    s@.skip(i + 1),
                    sep,
                ) =~= parts@.map_values(|p: Vec<u8>| p@) + (seq![cur@] + spec_split(
                    s@.skip(i + 1),
                    sep,
                )));
            }
            parts.push(cur);
            cur = Vec::new();
            start = i + 1;
            proof {
                assert(cur@ =~= s@.subrange(start as int, start as int));
            }
        } else {
            cur.push(s[i]);
            proof {
                assert(cur@ =~= s@.subrange(start as int, i + 1));
            }
        }
        i = i + 1;
    }
    proof {
        let tail = s@.skip(start as int);
        assert(forall|j: int| 0 <= j < tail.len() ==> tail[j] == s@[start + j] && tail[j] != sep);
        lemma_split_head(tail, sep, tail.len() as int);
        assert(cur@ =~= tail);
        assert(parts@.map_values(|p: Vec<u8>| p@).push(cur@) =~= parts@.push(cur).map_values(
            |p: Vec<u8>| p@,
        ));
        assert(parts@.map_values(|p: Vec<u8>| p@) + seq![cur@] =~= parts@.map_values(
            |p: Vec<u8>| p@,
        ).push(cur@));
    }
    parts.push(cur);
    parts
}

/// Where the byte pattern `pat` first occurs in `s`: the smallest index at
/// which `pat` stands as a contiguous run, if any.
pub open spec fn spec_find(s: Seq<u8>, pat: Seq<u8>) -> Option<int>
    decreases s.len(),
{
    if pat.len() == 0 {
        Some(0)
    } else if s.len() < pat.len() {
        None
    } else if s.take(pat.len() as int) == pat {
        Some(0)
    } else {
        match spec_find(s.drop_first(), pat) {
            Some(i) => Some(i + 1),
            None => None,
        }
    }
}

/// `spec_find` returns the first match: if `pat` stands at `i` and nowhere
/// earlier, the find is `i`.
pub proof fn lemma_find_at(s: Seq<u8>, pat: Seq<u8>, i: int)
    requires
        0 <= i,
        i + pat.len() <= s.len(),
        s.subrange(i, i + pat.len()) == pat,
        forall|j: int| 0 <= j < i ==> #[trigger] s.subrange(j, j + pat.len()) != pat,
    ensures
        spec_find(s, pat) == Some(i),
    decreases i,
{
    assert(s.take(pat.len() as int) =~= s.subrange(0, pat.len() as int));
    if i == 0 || pat.len() == 0 {
        if i != 0 {
            assert(s.subrange(0, 0 + pat.len() as int) =~= pat);
            assert(false);
        }
    } else {
        assert(s.subrange(0, 0 + pat.len() as int) != pat);
        let d = s.drop_first();
        assert(d =~= s.subrange(1, s.len() as int));
        assert(d.subrange(i - 1, i - 1 + pat.len()) =~= s.subrange(i, i + pat.len()));
        assert forall|j: int| 0 <= j < i - 1 implies #[trigger] d.subrange(j, j + pat.len())
            != pat by {
            assert(s.subrange(j + 1, j + 1 + pat.len()) != pat);
            assert(d.subrange(j, j + pat.len()) =~= s.subrange(j + 1, j + 1 + pat.len()));
        }
        lemma_find_at(d, pat, i - 1);
    }
}

/// `spec_find` is `None` when `pat` stands nowhere in `s`.
pub proof fn lemma_find_none(s: Seq<u8>, pat: Seq<u8>)
    requires
        forall|j: int| 0 <= j && j + pat.len() <= s.len() ==> #[trigger] s.subrange(j, j + pat.len()) != pat,
    ensures
        spec_find(s, pat) is None,
    decreases s.len(),
{
    if pat.len() == 0 {
        assert(s.subrange(0, 0 + pat.len() as int) =~= pat);
        assert(false);
    } else if s.len() < pat.len() {
    } else {
        assert(s.subrange(0, 0 + pat.len() as int) != pat);
        assert(s.take(pat.len() as int) =~= s.subrange(0, pat.len() as int));
        let d = s.drop_first();
        assert(d =~= s.subrange(1, s.len() as int));
        assert forall|j: int| 0 <= j && j + pat.len() <= d.len() implies #[trigger] d.subrange(
            j,
            j + pat.len(),
        ) != pat by {
            assert(s.subrange(j + 1, j + 1 + pat.len()) != pat);
            assert(d.subrange(j, j + pat.len()) =~= s.subrange(j + 1, j + 1 + pat.len()));
        }
        lemma_find_none(d, pat);
    }
}

/// Whether `pat` stands at position `at` of `s`.
fn match_at(s: &[u8], pat: &[u8], at: usize) -> (r: bool)
    requires
        at + pat@.len() <= s@.len(),
    ensures
        r == (s@.subrange(at as int, at as int + pat@.len() as int) == pat@),
{
    let n = s.len();
    let mut k: usize = 0;
    while k < pat.len()
        invariant
            n == s@.len(),
            at + pat@.len() <= s@.len(),
            k <= pat@.len(),
            forall|m: int| 0 <= m < k ==> s@[at + m] == pat@[m],
        decreases pat@.len() - k,
    {
        if s[at + k] != pat[k] {
            proof {
                assert(s@.subrange(at as int, at as int + pat@.len() as int)[k as int] == s@[at
                    + k]);
            }
            return false;
        }
        k = k + 1;
    }
    proof {
        assert(s@.subrange(at as int, at as int + pat@.len() as int) =~= pat@);
    }
    true
}

/// Find the first occurrence of `pat` in `s` at or after position `from`.
pub(crate) fn find_from(s: &[u8], pat: &[u8], from: usize) -> (r: Option<usize>)
    requires
        from <= s@.len(),
    ensures
        match r {
            Some(i) => from <= i && i + pat@.len() <= s@.len() && spec_find(
                s@.skip(from as int),
                pat@,
            ) == Some(i - from),
            None => spec_find(s@.skip(from as int), pat@) is None,
        },
{
    let ghost tail = s@.skip(from as int);
    if pat.len() == 0 {
        return Some(from);
    }
    if pat.len() > s.len() - from {
        return None;
    }
    let mut j: usize = from;
    while j <= s.len() - pat.len()
        invariant
            tail == s@.skip(from as int),
            1 <= pat@.len(),
            pat@.len() + from <= s@.len(),
            from <= j <= s@.len() - pat@.len() + 1,
            forall|m: int| 0 <= m < j - from ==> #[trigger] tail.subrange(m, m + pat@.len()) != pat@,
        decreases s@.len() - pat@.len() + 1 - j,
    {
        let hit = match_at(s, pat, j);
        proof {
            assert(tail.subrange(j - from, j - from + pat@.len()) =~= s@.subrange(
                j as int,
                j as int + pat@.len(),
            ));
        }
        if hit {
            proof {
                lemma_find_at(tail, pat@, j - from);
            }
            return Some(j);
        }
        j = j + 1;
    }
    proof {
        lemma_find_none(tail, pat@);
    }
    None
}

/// Copy the bytes of `s` between positions `a` and `b`.
pub(crate) fn copy_range(s: &[u8], a: usize, b: usize) -> (r: Vec<u8>)
    requires
        a <= b <= s@.len(),
    ensures
        r@ == s@.subrange(a as int, b as int),
{
    let mut r: Vec<u8> = Vec::new();
    let mut i: usize = a;
    while i < b
        invariant
            a <= i <= b <= s@.len(),
            r@ == s@.subrange(a as int, i as int),
        decreases b - i,
    {
        r.push(s[i]);
        i = i + 1;
        proof {
            assert(r@ =~= s@.subrange(a as int, i as int));
        }
    }
    r
}

/// Bounds on the value of a short run of decimal digits.
pub proof fn lemma_digits_val_le(s: Seq<u8>)
    requires
        forall|i: int| 0 <= i < s.len() ==> is_digit(#[trigger] s[i]),
    ensures
        s.len() == 0 ==> digits_val(s) == 0,
        s.len() == 1 ==> digits_val(s) <= 9,
        s.len() == 2 ==> digits_val(s) <= 99,
        s.len() == 3 ==> digits_val(s) <= 999,
    decreases s.len(),
{
    if s.len() > 0 {
        lemma_digits_val_le(s.drop_last());
    }
}

/// Bounds on the value of a short run of hexadecimal digits.
pub proof fn lemma_hex_val_le(s: Seq<u8>)
    requires
        forall|i: int| 0 <= i < s.len() ==> is_hex_digit(#[trigger] s[i]),
    ensures
        s.len() == 0 ==> hex_val(s) == 0,
        s.len() == 1 ==> hex_val(s) <= 0xf,
        s.len() == 2 ==> hex_val(s) <= 0xff,
        s.len() == 3 ==> hex_val(s) <= 0xfff,
        s.len() == 4 ==> hex_val(s) <= 0xffff,
    decreases s.len(),
{
    if s.len() > 0 {
        lemma_hex_val_le(s.drop_last());
    }
}

/// A decimal octet as IPv4 text writes it: one to three digits, no leading
/// zero unless the octet is exactly `0`, value at most 255.
pub open spec fn is_dec_octet(s: Seq<u8>) -> bool {
    &&& 1 <= s.len() <= 3
    &&& forall|i: int| 0 <= i < s.len() ==> is_digit(#[trigger] s[i])
    &&& (s.len() > 1 ==> s[0] != 48)
    &&& digits_val(s) <= 255
}

/// Parse one decimal octet of dotted-quad IPv4 text.
fn parse_octet(part: &[u8]) -> (r: Option<u8>)
    ensures
        match r {
            Some(v) => is_dec_octet(part@) && v == digits_val(part@),
            None => !is_dec_octet(part@),
        },
{
    let n = part.len();
    if n < 1 || n > 3 {
        return None;
    }
    if n > 1 && part[0] == 48 {
        return None;
    }
    let mut acc: u32 = 0;
    let mut i: usize = 0;
    proof {
        assert(part@.take(0) =~= Seq::<u8>::empty());
    }
    while i < n
        invariant
            n == part@.len(),
            1 <= n <= 3,
            i <= n,
            forall|m: int| 0 <= m < i ==> is_digit(#[trigger] part@[m]),
            acc == digits_val(part@.take(i as int)),
        decreases n - i,
    {
        let b = part[i];
        if b < 48 || b > 57 {
            return None;
        }
        proof {
            lemma_digits_val_le(part@.take(i as int));
        }
        acc = acc * 10 + (b - 48) as u32;
        i = i + 1;
        proof {
            assert(part@.take(i as int).drop_last() =~= part@.take(i - 1));
            assert(part@.take(i as int).last() == part@[i - 1]);
        }
    }
    proof {
        assert(part@.take(n as int) =~= part@);
    }
    if acc > 255 {
        return None;
    }
    Some(acc as u8)
}

/// One group of IPv6 text: one to four hexadecimal digits.
pub open spec fn is_h16(s: Seq<u8>) -> bool {
    &&& 1 <= s.len() <= 4
    &&& forall|i: int| 0 <= i < s.len() ==> is_hex_digit(#[trigger] s[i])
}

/// Parse one hexadecimal digit.
fn hex_digit(b: u8) -> (r: Option<u8>)
    ensures
        match r {
            Some(v) => is_hex_digit(b) && v == hex_digit_val(b),
            None => !is_hex_digit(b),
        },
{
    if 48 <= b && b <= 57 {
        Some(b - 48)
    } else if 97 <= b && b <= 102 {
        Some(b - 87)
    } else if 65 <= b && b <= 70 {
        Some(b - 55)
    } else {
        None
    }
}

/// Parse one group of IPv6 text.
fn parse_h16(part: &[u8]) -> (r: Option<u16>)
    ensures
        match r {
            Some(v) => is_h16(part@) && v == hex_val(part@),
            None => !is_h16(part@),
        },
{
    let n = part.len();
    if n < 1 || n > 4 {
        return None;
    }
    let mut acc: u32 = 0;
    let mut i: usize = 0;
    proof {
        assert(part@.take(0) =~= Seq::<u8>::empty());
    }
    while i < n
        invariant
            n == part@.len(),
            1 <= n <= 4,
            i <= n,
            forall|m: int| 0 <= m < i ==> is_hex_digit(#[trigger] part@[m]),
            acc == hex_val(part@.take(i as int)),
        decreases n - i,
    {
        let d = match hex_digit(part[i]) {
            Some(d) => d,
            None => {
                return None;
            },
        };
        proof {
            lemma_hex_val_le(part@.take(i as int));
        }
        acc = acc * 16 + d as u32;
        i = i + 1;
        proof {
            assert(part@.take(i as int).drop_last() =~= part@.take(i - 1));
            assert(part@.take(i as int).last() == part@[i - 1]);
        }
    }
    proof {
        assert(part@.take(n as int) =~= part@);
        lemma_hex_val_le(part@);
    }
    Some(acc as u16)
}

/// IPv4 text: four decimal octets joined by dots, as in `203.0.113.5`.
pub open spec fn spec_parse_ipv4(s: Seq<u8>) -> Option<Addr> {
    let parts = spec_split(s, 46);
    if parts.len() == 4 && (forall|i: int| 0 <= i < 4 ==> is_dec_octet(#[trigger] parts[i])) {
        Some(
            Addr::V4(
                digits_val(parts[0]) as u8,
                digits_val(parts[1]) as u8,
                digits_val(parts[2]) as u8,
                digits_val(parts[3]) as u8,
            ),
        )
    } else {
        None
    }
}

/// Parse IPv4 text; `None` exactly on text the dotted-quad grammar refuses.
pub fn parse_ipv4(s: &[u8]) -> (r: Option<Addr>)
    ensures
        r == spec_parse_ipv4(s@),
{
    let ghost sparts = spec_split(s@, 46);
    let parts = split_on(s, 46);
    if parts.len() != 4 {
        return None;
    }
    let o0 = parse_octet(parts[0].as_slice());
    let o1 = parse_octet(parts[1].as_slice());
    let o2 = parse_octet(parts[2].as_slice());
    let o3 = parse_octet(parts[3].as_slice());
    proof {
        assert(sparts[0] == parts@[0]@);
        assert(sparts[1] == parts@[1]@);
        assert(sparts[2] == parts@[2]@);
        assert(sparts[3] == parts@[3]@);
    }
    match (o0, o1, o2, o3) {
        (Some(a), Some(b), Some(c), Some(d)) => Some(Addr::V4(a, b, c, d)),
        _ => None,
    }
}

/// Every part of a run is a hexadecimal group.
pub open spec fn all_h16(ps: Seq<Seq<u8>>) -> bool {
    forall|i: int| 0 <= i < ps.len() ==> is_h16(#[trigger] ps[i])
}

/// The group values of a run of hexadecimal groups.
pub open spec fn groups_of(ps: Seq<Seq<u8>>) -> Seq<u16> {
    ps.map_values(|p: Seq<u8>| hex_val(p) as u16)
}

/// `n` zero groups: what a `::` abbreviation stands for.
pub open spec fn zero_groups(n: int) -> Seq<u16> {
    Seq::new(n as nat, |i: int| 0u16)
}

/// The group values of the colon-separated parts that end an IPv6 address:
/// hexadecimal groups, except that the last part may be IPv4 text standing
/// for the final two groups. `None` when the run follows neither form.
pub open spec fn tail_groups(ps: Seq<Seq<u8>>) -> Option<Seq<u16>> {
    if ps.len() == 0 {
        Some(Seq::empty())
    } else if !all_h16(ps.drop_last()) {
        None
    } else if is_h16(ps.last()) {
        Some(groups_of(ps))
    } else {
        match spec_parse_ipv4(ps.last()) {
            Some(Addr::V4(o0, o1, o2, o3)) => Some(
                groups_of(ps.drop_last()) + seq![
                    (o0 as int * 256 + o1 as int) as u16,
                    (o2 as int * 256 + o3 as int) as u16,
                ],
            ),
            _ => None,
        }
    }
}

/// The address with these eight groups.
pub open spec fn addr_from_groups(g: Seq<u16>) -> Addr
    recommends
        g.len() == 8,
{
    Addr::V6(g[0], g[1], g[2], g[3], g[4], g[5], g[6], g[7])
}

/// IPv6 text: eight hexadecimal groups joined by colons, possibly with one
/// `::` abbreviating a run of zero groups (which may be empty on either
/// side), the last two groups possibly written as embedded IPv4 text, as in
/// `2001:db8::1` or `::ffff:203.0.113.5`.
pub open spec fn spec_parse_ipv6(s: Seq<u8>) -> Option<Addr> {
    match spec_find(s, seq![58u8, 58u8]) {
        Some(k) => {
            let left = s.take(k);
            let right = s.skip(k + 2);
            let lparts = if left.len() == 0 {
                Seq::<Seq<u8>>::empty()
            } else {
                spec_split(left, 58)
            };
            let rparts = if right.len() == 0 {
                Seq::<Seq<u8>>::empty()
            } else {
                spec_split(right, 58)
            };
            if spec_find(right, seq![58u8, 58u8]) is Some {
                None
            } else if !all_h16(lparts) {
                None
            } else {
                match tail_groups(rparts) {
                    Some(rg) => if lparts.len() + rg.len() <= 7 {
                        Some(
                            addr_from_groups(
                                groups_of(lparts) + zero_groups(
                                    8 - lparts.len() - rg.len(),
                                ) + rg,
                            ),
                        )
                    } else {
                        None
                    },
                    None => None,
                }
            }
        },
        None => {
            match tail_groups(spec_split(s, 58)) {
                Some(g) => if g.len() == 8 {
                    Some(addr_from_groups(g))
                } else {
                    None
                },
                None => None,
            }
        },
    }
}

/// The view of a list of byte vectors.
pub open spec fn parts_view(parts: Seq<Vec<u8>>) -> Seq<Seq<u8>> {
    parts.map_values(|p: Vec<u8>| p@)
}

/// Parse the first `count` parts as hexadecimal groups.
fn parse_groups_prefix(parts: &Vec<Vec<u8>>, count: usize) -> (r: Option<Vec<u16>>)
    requires
        count <= parts@.len(),
    ensures
        match r {
            Some(g) => all_h16(parts_view(parts@).take(count as int)) && g@ == groups_of(
                parts_view(parts@).take(count as int),
            ),
            None => !all_h16(parts_view(parts@).take(count as int)),
        },
{
    let ghost pview = parts_view(parts@).take(count as int);
    let mut g: Vec<u16> = Vec::new();
    let mut i: usize = 0;
    proof {
        assert(g@ =~= groups_of(pview.take(0)));
    }
    while i < count
        invariant
            count <= parts@.len(),
            i <= count,
            pview == parts_view(parts@).take(count as int),
            all_h16(pview.take(i as int)),
            g@ == groups_of(pview.take(i as int)),
        decreases count - i,
    {
        match parse_h16(parts[i].as_slice()) {
            Some(v) => {
                g.push(v);
                i = i + 1;
                proof {
                    assert(pview.take(i as int).drop_last() =~= pview.take(i - 1));
                    assert(g@ =~= groups_of(pview.take(i as int)));
                }
            },
            None => {
                proof {
                    assert(pview[i as int] == parts@[i as int]@);
                }
                return None;
            },
        }
    }
    proof {
        assert(pview.take(count as int) =~= pview);
    }
    Some(g)
}

/// Parse a colon-separated run that may end in embedded IPv4 text.
fn parse_tail_groups(parts: &Vec<Vec<u8>>) -> (r: Option<Vec<u16>>)
    ensures
        match r {
            Some(g) => tail_groups(parts_view(parts@)) == Some(g@),
            None => tail_groups(parts_view(parts@)) is None,
        },
{
    let ghost pview = parts_view(parts@);
    let n = parts.len();
    if n == 0 {
        let g: Vec<u16> = Vec::new();
        proof {
            assert(g@ =~= Seq::<u16>::empty());
        }
        return Some(g);
    }
    proof {
        assert(pview.drop_last() =~= pview.take(n - 1));
    }
    let mut g = match parse_groups_prefix(parts, n - 1) {
        Some(g) => g,
        None => {
            return None;
        },
    };
    proof {
        assert(pview.last() == parts@[n - 1]@);
    }
    match parse_h16(parts[n - 1].as_slice()) {
        Some(v) => {
            g.push(v);
            proof {
                assert(g@ =~= groups_of(pview));
            }
            Some(g)
        },
        None => {
            match parse_ipv4(parts[n - 1].as_slice()) {
                Some(Addr::V4(o0, o1, o2, o3)) => {
                    g.push((o0 as u16) * 256 + (o1 as u16));
                    g.push((o2 as u16) * 256 + (o3 as u16));
                    proof {
                        assert(g@ =~= groups_of(pview.drop_last()) + seq![
                            (o0 as int * 256 + o1 as int) as u16,
                            (o2 as int * 256 + o3 as int) as u16,
                        ]);
                    }
                    Some(g)
                },
                _ => None,
            }
        },
    }
}

/// Parse IPv6 text; `None` exactly on text the grammar refuses.
pub fn parse_ipv6(s: &[u8]) -> (r: Option<Addr>)
    ensures
        r == spec_parse_ipv6(s@),
{
    let mut dc: Vec<u8> = Vec::new();
    dc.push(58);
    dc.push(58);
    proof {
        assert(dc@ =~= seq![58u8, 58u8]);
        assert(s@.skip(0) =~= s@);
    }
    let n = s.len();
    match find_from(s, dc.as_slice(), 0) {
        Some(k) => {
            let left = copy_range(s, 0, k);
            let right = copy_range(s, k + 2, n);
            proof {
                assert(left@ =~= s@.take(k as int));
                assert(right@ =~= s@.skip(k as int + 2));
                assert(right@.skip(0) =~= right@);
            }
            if find_from(right.as_slice(), dc.as_slice(), 0).is_some() {
                return None;
            }
            let lparts: Vec<Vec<u8>> = if left.len() == 0 {
                Vec::new()
            } else {
                split_on(left.as_slice(), 58)
            };
            let ghost lview = parts_view(lparts@);
            proof {
                if left@.len() == 0 {
                    assert(lview =~= Seq::<Seq<u8>>::empty());
                }
            }
            let rparts: Vec<Vec<u8>> = if right.len() == 0 {
                Vec::new()
            } else {
                split_on(right.as_slice(), 58)
            };
            let ghost rview = parts_view(rparts@);
            proof {
                if right@.len() == 0 {
                    assert(rview =~= Seq::<Seq<u8>>::empty());
                }
            }
            let lg = match parse_groups_prefix(&lparts, lparts.len()) {
                Some(g) => g,
                None => {
                    proof {
                        assert(lview.take(lparts@.len() as int) =~= lview);
                    }
                    return None;
                },
            };
            proof {
                assert(lview.take(lparts@.len() as int) =~= lview);
            }
            let rg = match parse_tail_groups(&rparts) {
                Some(g) => g,
                None => {
                    return None;
                },
            };
            if lg.len() > 7 || rg.len() > 7 || lg.len() + rg.len() > 7 {
                return None;
            }
            let zeros: usize = 8 - lg.len() - rg.len();
            let mut g = lg;
            let ghost lg0 = g@;
            let mut z: usize = 0;
            proof {
                assert(g@ =~= lg0 + zero_groups(0));
            }
            while z < zeros
                invariant
                    z <= zeros,
                    g@ == lg0 + zero_groups(z as int),
                decreases zeros - z,
            {
                g.push(0);
                z = z + 1;
                proof {
                    assert(g@ =~= lg0 + zero_groups(z as int));
                }
            }
            let mut m: usize = 0;
            proof {
                assert(g@ =~= lg0 + zero_groups(zeros as int) + rg@.take(0));
            }
            while m < rg.len()
                invariant
                    m <= rg@.len(),
                    g@ == lg0 + zero_groups(zeros as int) + rg@.take(m as int),
                decreases rg@.len() - m,
            {
                g.push(rg[m]);
                m = m + 1;
                proof {
                    assert(g@ =~= lg0 + zero_groups(zeros as int) + rg@.take(m as int));
                }
            }
            proof {
                assert(rg@.take(rg@.len() as int) =~= rg@);
                assert(g@.len() == 8);
            }
            Some(Addr::V6(g[0], g[1], g[2], g[3], g[4], g[5], g[6], g[7]))
        },
        None => {
            let parts = split_on(s, 58);
            let g = match parse_tail_groups(&parts) {
                Some(g) => g,
                None => {
                    return None;
                },
            };
            if g.len() != 8 {
                return None;
            }
            Some(Addr::V6(g[0], g[1], g[2], g[3], g[4], g[5], g[6], g[7]))
        },
    }
}

/// Address text: IPv4 dotted-quad text, or else IPv6 text.
pub open spec fn spec_parse_addr(s: Seq<u8>) -> Option<Addr> {
    if spec_parse_ipv4(s) is Some {
        spec_parse_ipv4(s)
    } else {
        spec_parse_ipv6(s)
    }
}

/// Parse IP address text of either family; `None` exactly on text that
/// neither grammar accepts.
pub fn parse_addr(s: &[u8]) -> (r: Option<Addr>)
    ensures
        r == spec_parse_addr(s@),
{
    match parse_ipv4(s) {
        Some(a) => Some(a),
        None => parse_ipv6(s),
    }
}

/// A server endpoint: an IP address together with a port.
#[derive(Debug, Clone, Copy, PartialEq, Eq, Hash, Structural)]
pub struct SocketAddr {
    /// The server's IP address.
    pub ip: Addr,
    /// The server's port.
    pub port: u16,
}

} // verus!
