//! Reading the state of the network interfaces from the text that `ip`,
//! `resolvectl`, `wpa_cli` and the configuration files hold.
use vstd::prelude::*;
use crate::text;

verus! {

// ---------------------------------------------------------------------------
// Shared shapes
// ---------------------------------------------------------------------------
/// The word that follows the first occurrence of `kw` among `ws`, if any
/// word follows it.
pub open spec fn word_after(ws: Seq<Seq<char>>, kw: Seq<char>) -> Option<Seq<char>>
    decreases ws.len(),
{
    if ws.len() == 0 {
        None
    } else if ws[0] == kw {
        if ws.len() > 1 {
            Some(ws[1])
        } else {
            None
        }
    } else {
        word_after(ws.drop_first(), kw)
    }
}

pub fn word_after_chars(ws: &Vec<Vec<char>>, kw: &str) -> (r: Option<Vec<char>>)
    ensures
        match r {
            Some(w) => word_after(ws.deep_view(), kw@) == Some(w@),
            None => word_after(ws.deep_view(), kw@) is None,
        },
{
    let ghost dv = ws.deep_view();
    let mut k: usize = 0;
    assert(dv.skip(0) =~= dv);
    while k < ws.len()
        invariant
            k <= ws.len(),
            dv == ws.deep_view(),
            word_after(dv, kw@) == word_after(dv.skip(k as int), kw@),
        decreases ws.len() - k,
    {
        assert(dv[k as int] == ws@[k as int]@) by {
            text::lemma_deep_view_chars(&ws@[k as int]);
        }
        if text::is_text(&ws[k], kw) {
            if k + 1 < ws.len() {
                assert(dv[k + 1] == ws@[k + 1]@) by {
                    text::lemma_deep_view_chars(&ws@[k + 1]);
                }
                assert(dv.skip(k as int)[1] == dv[k + 1]);
                return Some(text::copy_chars(&ws[k + 1]));
            }
            return None;
        }
        assert(dv.skip(k as int).drop_first() =~= dv.skip(k + 1));
        k = k + 1;
    }
    None
}

/// The value of the last line of `ls` of the form `key=value` with the given
/// key; empty when there is none.
pub open spec fn last_value(ls: Seq<Seq<char>>, key: Seq<char>) -> Seq<char>
    decreases ls.len(),
{
    if ls.len() == 0 {
        seq![]
    } else {
        match text::split_once(ls.last(), '=') {
            Some((k, v)) => if k == key {
                v
            } else {
                last_value(ls.drop_last(), key)
            },
            None => last_value(ls.drop_last(), key),
        }
    }
}

// ---------------------------------------------------------------------------
// Subnet masks
// ---------------------------------------------------------------------------
/// The octet whose `bits` leading bits are set (all of them from 8 on).
pub open spec fn octet_mask(bits: int) -> nat {
    if bits <= 0 {
        0
    } else if bits == 1 {
        128
    } else if bits == 2 {
        192
    } else if bits == 3 {
        224
    } else if bits == 4 {
        240
    } else if bits == 5 {
        248
    } else if bits == 6 {
        252
    } else if bits == 7 {
        254
    } else {
        255
    }
}

/// The dotted-quad netmask of a prefix length; lengths above 32 give the
/// full mask.
pub open spec fn subnet_text(prefix: nat) -> Seq<char> {
    text::decimal(octet_mask(prefix as int)) + seq!['.'] + text::decimal(octet_mask(prefix - 8)) + seq!['.']
        + text::decimal(octet_mask(prefix - 16)) + seq!['.'] + text::decimal(octet_mask(prefix - 24))
}

pub fn octet_mask_of(bits: i64) -> (r: u64)
    ensures
        r == octet_mask(bits as int),
{
    if bits <= 0 {
        0
    } else if bits == 1 {
        128
    } else if bits == 2 {
        192
    } else if bits == 3 {
        224
    } else if bits == 4 {
        240
    } else if bits == 5 {
        248
    } else if bits == 6 {
        252
    } else if bits == 7 {
        254
    } else {
        255
    }
}

fn subnet_chars(prefix: u8) -> (r: Vec<char>)
    ensures
        r@ == subnet_text(prefix as nat),
{
    let p = prefix as i64;
    let mut out: Vec<char> = Vec::new();
    text::push_decimal(&mut out, octet_mask_of(p));
    out.push('.');
    text::push_decimal(&mut out, octet_mask_of(p - 8));
    out.push('.');
    text::push_decimal(&mut out, octet_mask_of(p - 16));
    out.push('.');
    text::push_decimal(&mut out, octet_mask_of(p - 24));
    assert(out@ =~= subnet_text(prefix as nat));
    out
}

/// The four octets `a.b.c.d` as a dotted-quad text.
pub open spec fn quad(a: nat, b: nat, c: nat, d: nat) -> Seq<char> {
    text::decimal(a) + seq!['.'] + text::decimal(b) + seq!['.'] + text::decimal(c) + seq!['.']
        + text::decimal(d)
}

/// The octets `a.b.c.d` make the 32-bit value whose `p` leading bits are set
/// (`u32::MAX << (32 - p)`): each is a byte and together they are
/// `2^32 - 2^(32 - p)`.
pub open spec fn mask_holds(p: nat, a: nat, b: nat, c: nat, d: nat) -> bool {
    &&& a < 256 && b < 256 && c < 256 && d < 256
    &&& a * 16777216 + b * 65536 + c * 256 + d + vstd::arithmetic::power2::pow2((32 - p) as nat)
        == 4294967296
}

/// The netmask of a prefix length `p` (at most 32) is the dotted quad of the
/// 32-bit value whose `p` leading bits are set: 255.255.254.0 for 23.
pub proof fn law_subnet_is_leading_bits(p: nat)
    requires
        p <= 32,
    ensures
        exists|a: nat, b: nat, c: nat, d: nat|
            mask_holds(p, a, b, c, d) && #[trigger] quad(a, b, c, d) == subnet_text(p),
{
    vstd::arithmetic::power2::lemma2_to64();
    if p == 0 {
        assert(mask_holds(p, octet_mask(0), octet_mask(0 - 8), octet_mask(0 - 16), octet_mask(0 - 24)));
    } else if p == 1 {
        assert(mask_holds(p, octet_mask(1), octet_mask(1 - 8), octet_mask(1 - 16), octet_mask(1 - 24)));
    } else if p == 2 {
        assert(mask_holds(p, octet_mask(2), octet_mask(2 - 8), octet_mask(2 - 16), octet_mask(2 - 24)));
    } else if p == 3 {
        assert(mask_holds(p, octet_mask(3), octet_mask(3 - 8), octet_mask(3 - 16), octet_mask(3 - 24)));
    } else if p == 4 {
        assert(mask_holds(p, octet_mask(4), octet_mask(4 - 8), octet_mask(4 - 16), octet_mask(4 - 24)));
    } else if p == 5 {
        assert(mask_holds(p, octet_mask(5), octet_mask(5 - 8), octet_mask(5 - 16), octet_mask(5 - 24)));
    } else if p == 6 {
        assert(mask_holds(p, octet_mask(6), octet_mask(6 - 8), octet_mask(6 - 16), octet_mask(6 - 24)));
    } else if p == 7 {
        assert(mask_holds(p, octet_mask(7), octet_mask(7 - 8), octet_mask(7 - 16), octet_mask(7 - 24)));
    } else if p == 8 {
        assert(mask_holds(p, octet_mask(8), octet_mask(8 - 8), octet_mask(8 - 16), octet_mask(8 - 24)));
    } else if p == 9 {
        assert(mask_holds(p, octet_mask(9), octet_mask(9 - 8), octet_mask(9 - 16), octet_mask(9 - 24)));
    } else if p == 10 {
        assert(mask_holds(p, octet_mask(10), octet_mask(10 - 8), octet_mask(10 - 16), octet_mask(10 - 24)));
    } else if p == 11 {
        assert(mask_holds(p, octet_mask(11), octet_mask(11 - 8), octet_mask(11 - 16), octet_mask(11 - 24)));
    } else if p == 12 {
        assert(mask_holds(p, octet_mask(12), octet_mask(12 - 8), octet_mask(12 - 16), octet_mask(12 - 24)));
    } else if p == 13 {
        assert(mask_holds(p, octet_mask(13), octet_mask(13 - 8), octet_mask(13 - 16), octet_mask(13 - 24)));
    } else if p == 14 {
        assert(mask_holds(p, octet_mask(14), octet_mask(14 - 8), octet_mask(14 - 16), octet_mask(14 - 24)));
    } else if p == 15 {
        assert(mask_holds(p, octet_mask(15), octet_mask(15 - 8), octet_mask(15 - 16), octet_mask(15 - 24)));
    } else if p == 16 {
        assert(mask_holds(p, octet_mask(16), octet_mask(16 - 8), octet_mask(16 - 16), octet_mask(16 - 24)));
    } else if p == 17 {
        assert(mask_holds(p, octet_mask(17), octet_mask(17 - 8), octet_mask(17 - 16), octet_mask(17 - 24)));
    } else if p == 18 {
        assert(mask_holds(p, octet_mask(18), octet_mask(18 - 8), octet_mask(18 - 16), octet_mask(18 - 24)));
    } else if p == 19 {
        assert(mask_holds(p, octet_mask(19), octet_mask(19 - 8), octet_mask(19 - 16), octet_mask(19 - 24)));
    } else if p == 20 {
        assert(mask_holds(p, octet_mask(20), octet_mask(20 - 8), octet_mask(20 - 16), octet_mask(20 - 24)));
    } else if p == 21 {
        assert(mask_holds(p, octet_mask(21), octet_mask(21 - 8), octet_mask(21 - 16), octet_mask(21 - 24)));
    } else if p == 22 {
        assert(mask_holds(p, octet_mask(22), octet_mask(22 - 8), octet_mask(22 - 16), octet_mask(22 - 24)));
    } else if p == 23 {
        assert(mask_holds(p, octet_mask(23), octet_mask(23 - 8), octet_mask(23 - 16), octet_mask(23 - 24)));
    } else if p == 24 {
        assert(mask_holds(p, octet_mask(24), octet_mask(24 - 8), octet_mask(24 - 16), octet_mask(24 - 24)));
    } else if p == 25 {
        assert(mask_holds(p, octet_mask(25), octet_mask(25 - 8), octet_mask(25 - 16), octet_mask(25 - 24)));
    } else if p == 26 {
        assert(mask_holds(p, octet_mask(26), octet_mask(26 - 8), octet_mask(26 - 16), octet_mask(26 - 24)));
    } else if p == 27 {
        assert(mask_holds(p, octet_mask(27), octet_mask(27 - 8), octet_mask(27 - 16), octet_mask(27 - 24)));
    } else if p == 28 {
        assert(mask_holds(p, octet_mask(28), octet_mask(28 - 8), octet_mask(28 - 16), octet_mask(28 - 24)));
    } else if p == 29 {
        assert(mask_holds(p, octet_mask(29), octet_mask(29 - 8), octet_mask(29 - 16), octet_mask(29 - 24)));
    } else if p == 30 {
        assert(mask_holds(p, octet_mask(30), octet_mask(30 - 8), octet_mask(30 - 16), octet_mask(30 - 24)));
    } else if p == 31 {
        assert(mask_holds(p, octet_mask(31), octet_mask(31 - 8), octet_mask(31 - 16), octet_mask(31 - 24)));
    } else if p == 32 {
        assert(mask_holds(p, octet_mask(32), octet_mask(32 - 8), octet_mask(32 - 16), octet_mask(32 - 24)));
    }
    let a = octet_mask(p as int);
    let b = octet_mask(p - 8);
    let c = octet_mask(p - 16);
    let d = octet_mask(p - 24);
    assert(quad(a, b, c, d) == subnet_text(p));
}

/// The netmask of a prefix length, as dotted quad ("255.255.255.0" for 24).
pub fn prefix_to_subnet(prefix: u8) -> (r: String)
    ensures
        r@ == subnet_text(prefix as nat),
{
    text::string_of(&subnet_chars(prefix))
}

/// Number of set bits of `v`.
pub open spec fn ones(v: nat) -> nat
    decreases v,
{
    if v == 0 {
        0
    } else {
        v % 2 + ones(v / 2)
    }
}

/// Set bits that a dotted-quad piece contributes: those of the octet it
/// denotes, none if it is no octet.
pub open spec fn piece_bits(piece: Seq<char>) -> nat {
    match text::parse_unsigned(piece, 255) {
        Some(v) => ones(v),
        None => 0,
    }
}

pub open spec fn bits_sum(pieces: Seq<Seq<char>>) -> nat
    decreases pieces.len(),
{
    if pieces.len() == 0 {
        0
    } else {
        bits_sum(pieces.drop_last()) + piece_bits(pieces.last())
    }
}

/// The prefix length of a netmask: the set bits of all its pieces that are
/// octets, or 32 when that count does not fit in a byte.
pub open spec fn subnet_prefix(subnet: Seq<char>) -> nat {
    let t = bits_sum(text::split_char(subnet, '.'));
    if t <= 255 {
        t
    } else {
        32
    }
}

fn ones_of(v: u8) -> (r: u64)
    ensures
        r == ones(v as nat),
        r <= 8,
{
    let mut x: u8 = v;
    let mut n: u64 = 0;
    let mut k: u64 = 0;
    while x > 0
        invariant
            ones(v as nat) == n + ones(x as nat),
            n <= k,
            k <= 8,
            x < pow2_8(k),
        decreases x,
    {
        n = n + (x % 2) as u64;
        x = x / 2;
        k = k + 1;
    }
    n
}

spec fn pow2_8(k: u64) -> nat {
    if k == 0 {
        256
    } else if k == 1 {
        128
    } else if k == 2 {
        64
    } else if k == 3 {
        32
    } else if k == 4 {
        16
    } else if k == 5 {
        8
    } else if k == 6 {
        4
    } else if k == 7 {
        2
    } else {
        1
    }
}

/// Prefix length of a dotted-quad netmask ("255.255.255.0" gives 24).
pub fn subnet_to_prefix(subnet: &str) -> (r: u8)
    ensures
        r == subnet_prefix(subnet@),
{
    let v = text::chars_of(subnet);
    let pieces = text::split_on(&v, '.');
    let ghost dv = pieces.deep_view();
    let mut total: u64 = 0;
    let mut i: usize = 0;
    while i < pieces.len()
        invariant
            i <= pieces.len(),
            dv == pieces.deep_view(),
            total == if bits_sum(dv.take(i as int)) <= 256 {
                bits_sum(dv.take(i as int))
            } else {
                256
            },
        decreases pieces.len() - i,
    {
        proof {
            text::lemma_deep_view_chars(&pieces@[i as int]);
            assert(dv.take(i + 1).drop_last() =~= dv.take(i as int));
            assert(dv.take(i + 1).last() == pieces@[i as int]@);
        }
        let add: u64 = match text::parse_u8_chars(&pieces[i]) {
            Some(o) => ones_of(o),
            None => 0,
        };
        total = total + add;
        if total > 256 {
            total = 256;
        }
        i = i + 1;
    }
    assert(dv.take(i as int) =~= dv);
    if total <= 255 {
        total as u8
    } else {
        32
    }
}

// ---------------------------------------------------------------------------
// `ip -o -4 addr show dev IFACE`
// ---------------------------------------------------------------------------
/// Address and netmask from one line: the word after the first `inet`
/// must be `ADDRESS/PREFIX` with a prefix that is a byte.
pub open spec fn ipv4_of_line(line: Seq<char>) -> Option<(Seq<char>, Seq<char>)> {
    match word_after(text::words(line), "inet"@) {
        Some(cidr) => match text::split_once(cidr, '/') {
            Some((ip, prefix)) => match text::parse_unsigned(prefix, 255) {
                Some(p) => Some((ip, subnet_text(p))),
                None => None,
            },
            None => None,
        },
        None => None,
    }
}

/// The first line of `ls` that holds an IPv4 address.
pub open spec fn ipv4_in_lines(ls: Seq<Seq<char>>) -> Option<(Seq<char>, Seq<char>)>
    decreases ls.len(),
{
    if ls.len() == 0 {
        None
    } else {
        match ipv4_of_line(ls[0]) {
            Some(r) => Some(r),
            None => ipv4_in_lines(ls.drop_first()),
        }
    }
}

fn ipv4_of_line_chars(line: &Vec<char>) -> (r: Option<(Vec<char>, Vec<char>)>)
    ensures
        match r {
            Some(p) => ipv4_of_line(line@) == Some((p.0@, p.1@)),
            None => ipv4_of_line(line@) is None,
        },
{
    let ws = text::split_words(line);
    match word_after_chars(&ws, "inet") {
        Some(cidr) => match text::split_once_chars(&cidr, '/') {
            Some((ip, prefix)) => match text::parse_u8_chars(&prefix) {
                Some(p) => Some((ip, subnet_chars(p))),
                None => None,
            },
            None => None,
        },
        None => None,
    }
}

/// Address and netmask of the first line of `ip -o -4 addr` output that has
/// an `inet ADDRESS/PREFIX` field.
pub fn parse_ipv4_address(output: &str) -> (r: Option<(String, String)>)
    ensures
        match r {
            Some(p) => ipv4_in_lines(text::lines(output@)) == Some((p.0@, p.1@)),
            None => ipv4_in_lines(text::lines(output@)) is None,
        },
{
    let v = text::chars_of(output);
    let ls = text::split_lines(&v);
    let ghost dv = ls.deep_view();
    let mut i: usize = 0;
    assert(dv.skip(0) =~= dv);
    while i < ls.len()
        invariant
            i <= ls.len(),
            dv == ls.deep_view(),
            dv == text::lines(output@),
            ipv4_in_lines(dv) == ipv4_in_lines(dv.skip(i as int)),
        decreases ls.len() - i,
    {
        proof {
            text::lemma_deep_view_chars(&ls@[i as int]);
            assert(dv.skip(i as int)[0] == ls@[i as int]@);
            assert(dv.skip(i as int).drop_first() =~= dv.skip(i + 1));
        }
        match ipv4_of_line_chars(&ls[i]) {
            Some((ip, mask)) => {
                assert(ipv4_in_lines(dv.skip(i as int)) == ipv4_of_line(ls@[i as int]@));
                return Some((text::string_of(&ip), text::string_of(&mask)));
            },
            None => {},
        }
        i = i + 1;
    }
    None
}

// ---------------------------------------------------------------------------
// `ip -4 route show default dev IFACE`
// ---------------------------------------------------------------------------
/// The first word after `via` on the first line that has one.
pub open spec fn gateway_in_lines(ls: Seq<Seq<char>>) -> Option<Seq<char>>
    decreases ls.len(),
{
    if ls.len() == 0 {
        None
    } else {
        match word_after(text::words(ls[0]), "via"@) {
            Some(g) => Some(g),
            None => gateway_in_lines(ls.drop_first()),
        }
    }
}

/// The gateway named after `via` in `ip route` output.
pub fn parse_default_gateway(output: &str) -> (r: Option<String>)
    ensures
        match r {
            Some(g) => gateway_in_lines(text::lines(output@)) == Some(g@),
            None => gateway_in_lines(text::lines(output@)) is None,
        },
{
    let v = text::chars_of(output);
    let ls = text::split_lines(&v);
    let ghost dv = ls.deep_view();
    let mut i: usize = 0;
    assert(dv.skip(0) =~= dv);
    while i < ls.len()
        invariant
            i <= ls.len(),
            dv == ls.deep_view(),
            dv == text::lines(output@),
            gateway_in_lines(dv) == gateway_in_lines(dv.skip(i as int)),
        decreases ls.len() - i,
    {
        proof {
            text::lemma_deep_view_chars(&ls@[i as int]);
            assert(dv.skip(i as int)[0] == ls@[i as int]@);
            assert(dv.skip(i as int).drop_first() =~= dv.skip(i + 1));
        }
        let ws = text::split_words(&ls[i]);
        match word_after_chars(&ws, "via") {
            Some(g) => {
                assert(gateway_in_lines(dv.skip(i as int)) == Some(g@));
                return Some(text::string_of(&g));
            },
            None => {},
        }
        i = i + 1;
    }
    None
}

// ---------------------------------------------------------------------------
// DNS servers
// ---------------------------------------------------------------------------
/// The trimmed text after the first `':'` of the first line where that text
/// is not empty.
pub open spec fn resolvectl_in_lines(ls: Seq<Seq<char>>) -> Option<Seq<char>>
    decreases ls.len(),
{
    if ls.len() == 0 {
        None
    } else {
        match text::split_once(ls[0], ':') {
            Some((_label, servers)) => if text::trim(servers).len() > 0 {
                Some(text::trim(servers))
            } else {
                resolvectl_in_lines(ls.drop_first())
            },
            None => resolvectl_in_lines(ls.drop_first()),
        }
    }
}

/// The servers that `resolvectl dns IFACE` lists.
pub fn parse_resolvectl_dns(output: &str) -> (r: Option<String>)
    ensures
        match r {
            Some(s) => resolvectl_in_lines(text::lines(output@)) == Some(s@),
            None => resolvectl_in_lines(text::lines(output@)) is None,
        },
{
    let v = text::chars_of(output);
    let ls = text::split_lines(&v);
    let ghost dv = ls.deep_view();
    let mut i: usize = 0;
    assert(dv.skip(0) =~= dv);
    while i < ls.len()
        invariant
            i <= ls.len(),
            dv == ls.deep_view(),
            dv == text::lines(output@),
            resolvectl_in_lines(dv) == resolvectl_in_lines(dv.skip(i as int)),
        decreases ls.len() - i,
    {
        proof {
            text::lemma_deep_view_chars(&ls@[i as int]);
            assert(dv.skip(i as int)[0] == ls@[i as int]@);
            assert(dv.skip(i as int).drop_first() =~= dv.skip(i + 1));
        }
        match text::split_once_chars(&ls[i], ':') {
            Some((_label, servers)) => {
                let t = text::trim_chars(&servers);
                if t.len() > 0 {
                    assert(resolvectl_in_lines(dv.skip(i as int)) == Some(t@));
                    return Some(text::string_of(&t));
                }
            },
            None => {},
        }
        i = i + 1;
    }
    None
}

/// The server named on a `nameserver SERVER` line.
pub open spec fn nameserver_of(line: Seq<char>) -> Option<Seq<char>> {
    let ws = text::words(line);
    if ws.len() >= 2 && ws[0] == "nameserver"@ && ws[1].len() > 0 {
        Some(ws[1])
    } else {
        None
    }
}

/// The servers of all `nameserver` lines, in order.
pub open spec fn nameservers(ls: Seq<Seq<char>>) -> Seq<Seq<char>>
    decreases ls.len(),
{
    if ls.len() == 0 {
        seq![]
    } else {
        match nameserver_of(ls.last()) {
            Some(s) => nameservers(ls.drop_last()).push(s),
            None => nameservers(ls.drop_last()),
        }
    }
}

/// The servers of the `nameserver` lines of `/etc/resolv.conf`, separated by
/// single spaces.
pub fn parse_resolv_conf_dns(output: &str) -> (r: String)
    ensures
        r@ == text::join(nameservers(text::lines(output@)), seq![' ']),
{
    let v = text::chars_of(output);
    let ls = text::split_lines(&v);
    let ghost dv = ls.deep_view();
    let mut servers: Vec<Vec<char>> = Vec::new();
    let mut i: usize = 0;
    assert(dv.take(0) =~= Seq::<Seq<char>>::empty());
    while i < ls.len()
        invariant
            i <= ls.len(),
            dv == ls.deep_view(),
            servers.deep_view() == nameservers(dv.take(i as int)),
        decreases ls.len() - i,
    {
        let ghost before = servers.deep_view();
        proof {
            text::lemma_deep_view_chars(&ls@[i as int]);
            assert(dv.take(i + 1).drop_last() =~= dv.take(i as int));
            assert(dv.take(i + 1).last() == ls@[i as int]@);
        }
        let ws = text::split_words(&ls[i]);
        proof {
            if ws.len() >= 2 {
                text::lemma_deep_view_chars(&ws@[0]);
                text::lemma_deep_view_chars(&ws@[1]);
            }
        }
        if ws.len() >= 2 && text::is_text(&ws[0], "nameserver") && ws[1].len() > 0 {
            let s = text::copy_chars(&ws[1]);
            proof {
                text::lemma_deep_view_chars(&s);
            }
            servers.push(s);
            assert(servers.deep_view() =~= before.push(s@));
        }
        i = i + 1;
    }
    assert(dv.take(i as int) =~= dv);
    let joined = text::join_chars(&servers, " ");
    proof {
        reveal_strlit(" ");
    }
    assert(" "@ =~= seq![' ']);
    text::string_of(&joined)
}

// ---------------------------------------------------------------------------
// systemd-networkd files
// ---------------------------------------------------------------------------
/// A line that, trimmed, is no comment and switches DHCP on
/// (`DHCP=yes`, `true`, `ipv4` or `both`).
pub open spec fn enables_dhcp(line: Seq<char>) -> bool {
    let t = text::trim(line);
    !text::starts_with(t, seq!['#']) && match text::split_once(t, '=') {
        Some((k, v)) => k == "DHCP"@ && (v == "yes"@ || v == "true"@ || v == "ipv4"@ || v
            == "both"@),
        None => false,
    }
}

/// A line that, trimmed, is no comment and sets a static `Address=`.
pub open spec fn sets_address(line: Seq<char>) -> bool {
    let t = text::trim(line);
    !text::starts_with(t, seq!['#']) && text::starts_with(t, "Address="@)
}

/// The addressing mode a networkd file configures: `dhcp` if any line
/// enables DHCP, else `static` if any line sets an address, else none.
pub open spec fn network_mode(content: Seq<char>) -> Option<Seq<char>> {
    let ls = text::lines(content);
    if exists|i: int| 0 <= i < ls.len() && enables_dhcp(#[trigger] ls[i]) {
        Some("dhcp"@)
    } else if exists|i: int| 0 <= i < ls.len() && sets_address(#[trigger] ls[i]) {
        Some("static"@)
    } else {
        None
    }
}

fn text_string(s: &str) -> (r: String)
    ensures
        r@ == s@,
{
    let v = text::chars_of(s);
    text::string_of(&v)
}

/// The addressing mode of a systemd-networkd `.network` file.
pub fn parse_network_mode(content: &str) -> (r: Option<String>)
    ensures
        match r {
            Some(m) => network_mode(content@) == Some(m@),
            None => network_mode(content@) is None,
        },
{
    let v = text::chars_of(content);
    let ls = text::split_lines(&v);
    let ghost dv = ls.deep_view();
    proof {
        assert(dv == text::lines(content@));
    }
    let mut has_static_address = false;
    let mut i: usize = 0;
    while i < ls.len()
        invariant
            i <= ls.len(),
            dv == ls.deep_view(),
            dv == text::lines(content@),
            forall|k: int| 0 <= k < i ==> !enables_dhcp(#[trigger] dv[k]),
            has_static_address == exists|k: int| 0 <= k < i && sets_address(#[trigger] dv[k]),
        decreases ls.len() - i,
    {
        proof {
            text::lemma_deep_view_chars(&ls@[i as int]);
        }
        let t = text::trim_chars(&ls[i]);
        let comment = t.len() > 0 && t[0] == '#';
        proof {
            assert(comment == text::starts_with(t@, seq!['#'])) by {
                if t@.len() > 0 {
                    assert(t@.take(1) =~= seq![t@[0]]);
                    if t@[0] != '#' {
                        assert(t@.take(1)[0] != seq!['#'][0]);
                    }
                }
            }
        }
        if !comment {
            let dhcp = match text::split_once_chars(&t, '=') {
                Some((k, val)) => text::is_text(&k, "DHCP") && (text::is_text(&val, "yes") || text::is_text(
                    &val,
                    "true",
                ) || text::is_text(&val, "ipv4") || text::is_text(&val, "both")),
                None => false,
            };
            if dhcp {
                assert(enables_dhcp(dv[i as int]));
                return Some(text_string("dhcp"));
            }
            if text::starts_with_text(&t, "Address=") {
                has_static_address = true;
            }
        }
        assert(!enables_dhcp(dv[i as int]));
        i = i + 1;
    }
    if has_static_address {
        Some(text_string("static"))
    } else {
        None
    }
}

// ---------------------------------------------------------------------------
// `wpa_cli status` and `wpa_cli signal_poll`
// ---------------------------------------------------------------------------
/// What `wpa_cli status` reports of the connection.
pub struct WpaStatus {
    pub state: String,
    pub ssid: String,
    pub ip: String,
}

/// Parses `wpa_cli status` output: each of `wpa_state`, `ssid` and
/// `ip_address` takes the value of its last line; missing ones are empty.
pub fn parse_wpa_status(output: &str) -> (r: WpaStatus)
    ensures
        r.state@ == last_value(text::lines(output@), "wpa_state"@),
        r.ssid@ == last_value(text::lines(output@), "ssid"@),
        r.ip@ == last_value(text::lines(output@), "ip_address"@),
{
    let v = text::chars_of(output);
    let ls = text::split_lines(&v);
    let ghost dv = ls.deep_view();
    let mut state: Vec<char> = Vec::new();
    let mut ssid: Vec<char> = Vec::new();
    let mut ip: Vec<char> = Vec::new();
    let mut i: usize = 0;
    assert(dv.take(0) =~= Seq::<Seq<char>>::empty());
    while i < ls.len()
        invariant
            i <= ls.len(),
            dv == ls.deep_view(),
            state@ == last_value(dv.take(i as int), "wpa_state"@),
            ssid@ == last_value(dv.take(i as int), "ssid"@),
            ip@ == last_value(dv.take(i as int), "ip_address"@),
        decreases ls.len() - i,
    {
        proof {
            text::lemma_deep_view_chars(&ls@[i as int]);
            assert(dv.take(i + 1).drop_last() =~= dv.take(i as int));
            assert(dv.take(i + 1).last() == ls@[i as int]@);
        }
        proof {
            reveal_strlit("wpa_state");
            reveal_strlit("ssid");
            reveal_strlit("ip_address");
            assert("wpa_state"@.len() == 9);
            assert("ssid"@.len() == 4);
            assert("ip_address"@.len() == 10);
        }
        match text::split_once_chars(&ls[i], '=') {
            Some((k, val)) => {
                if text::is_text(&k, "wpa_state") {
                    state = val;
                } else if text::is_text(&k, "ssid") {
                    ssid = val;
                } else if text::is_text(&k, "ip_address") {
                    ip = val;
                }
            },
            None => {},
        }
        i = i + 1;
    }
    assert(dv.take(i as int) =~= dv);
    WpaStatus { state: text::string_of(&state), ssid: text::string_of(&ssid), ip: text::string_of(&ip) }
}

/// The signal strength of the first `RSSI=` or `AVG_RSSI=` line whose value
/// is an `i32`.
pub open spec fn signal_in_lines(ls: Seq<Seq<char>>) -> Option<int>
    decreases ls.len(),
{
    if ls.len() == 0 {
        None
    } else {
        match text::split_once(ls[0], '=') {
            Some((k, v)) => if (k == "RSSI"@ || k == "AVG_RSSI"@) && text::parse_signed(
                v,
                i32::MAX as nat,
            ) is Some {
                text::parse_signed(v, i32::MAX as nat)
            } else {
                signal_in_lines(ls.drop_first())
            },
            None => signal_in_lines(ls.drop_first()),
        }
    }
}

/// The RSSI that `wpa_cli signal_poll` reports.
pub fn parse_wifi_signal(output: &str) -> (r: Option<i32>)
    ensures
        match r {
            Some(x) => signal_in_lines(text::lines(output@)) == Some(x as int),
            None => signal_in_lines(text::lines(output@)) is None,
        },
{
    let v = text::chars_of(output);
    let ls = text::split_lines(&v);
    let ghost dv = ls.deep_view();
    let mut i: usize = 0;
    assert(dv.skip(0) =~= dv);
    while i < ls.len()
        invariant
            i <= ls.len(),
            dv == ls.deep_view(),
            dv == text::lines(output@),
            signal_in_lines(dv) == signal_in_lines(dv.skip(i as int)),
        decreases ls.len() - i,
    {
        proof {
            text::lemma_deep_view_chars(&ls@[i as int]);
            assert(dv.skip(i as int)[0] == ls@[i as int]@);
            assert(dv.skip(i as int).drop_first() =~= dv.skip(i + 1));
        }
        match text::split_once_chars(&ls[i], '=') {
            Some((k, val)) => {
                if text::is_text(&k, "RSSI") || text::is_text(&k, "AVG_RSSI") {
                    match text::parse_i32_chars(&val) {
                        Some(x) => {
                            assert(signal_in_lines(dv.skip(i as int)) == Some(x as int));
                            return Some(x);
                        },
                        None => {},
                    }
                }
            },
            None => {},
        }
        i = i + 1;
    }
    None
}

// ---------------------------------------------------------------------------
// Netmask round trip
// ---------------------------------------------------------------------------
proof fn lemma_split_first(a: Seq<char>, rest: Seq<char>)
    requires
        forall|i: int| 0 <= i < a.len() ==> a[i] != '.',
    ensures
        text::split_char(a + seq!['.'] + rest, '.') == seq![a] + text::split_char(rest, '.'),
{
    let s = a + seq!['.'] + rest;
    assert forall|k: int| 0 <= k < a.len() implies s[k] != '.' by {
        assert(s[k] == a[k]);
    }
    text::lemma_find_char_found(s, '.', a.len() as int);
    assert(s.take(a.len() as int) =~= a);
    assert(s.skip(a.len() as int + 1) =~= rest);
}

proof fn lemma_split_none(a: Seq<char>)
    requires
        forall|i: int| 0 <= i < a.len() ==> a[i] != '.',
    ensures
        text::split_char(a, '.') == seq![a],
{
    text::lemma_find_char_absent(a, '.');
}

proof fn lemma_decimal_octet(o: nat)
    requires
        o <= 255,
    ensures
        forall|i: int| 0 <= i < text::decimal(o).len() ==> text::decimal(o)[i] != '.',
        piece_bits(text::decimal(o)) == ones(o),
{
    text::lemma_decimal_roundtrip(o);
    let d = text::decimal(o);
    assert forall|i: int| 0 <= i < d.len() implies d[i] != '.' by {
        assert(text::is_digit(d[i]));
    }
    assert(text::is_digit(d[0]));
    assert(text::unsigned_digits(d) == d);
}

#[verifier::spinoff_prover]
proof fn lemma_octet_ones(b: int)
    ensures
        ones(octet_mask(b)) == if b <= 0 {
            0
        } else if b >= 8 {
            8
        } else {
            b
        },
{
    reveal_with_fuel(ones, 10);
    if b <= 0 {
        assert(ones(0) == 0);
    } else if b == 1 {
        assert(ones(128) == 1);
    } else if b == 2 {
        assert(ones(192) == 2);
    } else if b == 3 {
        assert(ones(224) == 3);
    } else if b == 4 {
        assert(ones(240) == 4);
    } else if b == 5 {
        assert(ones(248) == 5);
    } else if b == 6 {
        assert(ones(252) == 6);
    } else if b == 7 {
        assert(ones(254) == 7);
    } else {
        assert(ones(255) == 8);
    }
}

/// Turning a prefix length into a netmask and counting the netmask's bits
/// gives the prefix length back, capped at 32.
pub proof fn law_subnet_prefix_roundtrip(p: nat)
    requires
        p <= 255,
    ensures
        subnet_prefix(subnet_text(p)) == if p > 32 {
            32
        } else {
            p
        },
{
    let o1 = octet_mask(p as int);
    let o2 = octet_mask(p - 8);
    let o3 = octet_mask(p - 16);
    let o4 = octet_mask(p - 24);
    let d1 = text::decimal(o1);
    let d2 = text::decimal(o2);
    let d3 = text::decimal(o3);
    let d4 = text::decimal(o4);
    lemma_decimal_octet(o1);
    lemma_decimal_octet(o2);
    lemma_decimal_octet(o3);
    lemma_decimal_octet(o4);
    lemma_octet_ones(p as int);
    lemma_octet_ones(p - 8);
    lemma_octet_ones(p - 16);
    lemma_octet_ones(p - 24);
    let t3 = d3 + seq!['.'] + d4;
    let t2 = d2 + seq!['.'] + t3;
    let t1 = d1 + seq!['.'] + t2;
    assert(subnet_text(p) =~= t1);
    lemma_split_none(d4);
    lemma_split_first(d3, d4);
    lemma_split_first(d2, t3);
    lemma_split_first(d1, t2);
    let pieces = seq![d1, d2, d3, d4];
    assert(text::split_char(t1, '.') =~= pieces);
    assert(pieces.drop_last() =~= seq![d1, d2, d3]);
    assert(pieces.drop_last().drop_last() =~= seq![d1, d2]);
    assert(pieces.drop_last().drop_last().drop_last() =~= seq![d1]);
    assert(seq![d1].drop_last() =~= Seq::<Seq<char>>::empty());
    assert(bits_sum(Seq::<Seq<char>>::empty()) == 0);
    assert(seq![d1].last() == d1);
    assert(bits_sum(seq![d1]) == ones(o1));
    assert(bits_sum(seq![d1, d2]) == ones(o1) + ones(o2));
    assert(bits_sum(seq![d1, d2, d3]) == ones(o1) + ones(o2) + ones(o3));
    assert(bits_sum(pieces) == ones(o1) + ones(o2) + ones(o3) + ones(o4));
}

/// The key of a `KEY=VALUE` line is the text before its first `=`.
proof fn lemma_key_value_line(k: Seq<char>, v: Seq<char>)
    requires
        forall|i: int| 0 <= i < k.len() ==> k[i] != '=',
    ensures
        text::split_once(k + seq!['='] + v, '=') == Some((k, v)),
{
    let l = k + seq!['='] + v;
    assert forall|i: int| 0 <= i < k.len() implies l[i] != '=' by {
        assert(l[i] == k[i]);
    }
    text::lemma_find_char_found(l, '=', k.len() as int);
    assert(l.take(k.len() as int) =~= k);
    assert(l.skip(k.len() as int + 1) =~= v);
}

/// In `wpa_cli status` output a line `KEY=VALUE` sets a field only when
/// `KEY` (the text before its first `=`) is exactly the field's name, and the
/// last such line wins; a line with another key (`id=0` for `ssid`,
/// `address=...` for `ip_address`) or without `=` leaves the field as it was.
pub proof fn law_wpa_field_needs_exact_key(ls: Seq<Seq<char>>, name: Seq<char>, k: Seq<char>, v: Seq<char>, plain: Seq<char>)
    requires
        forall|i: int| 0 <= i < k.len() ==> k[i] != '=',
        forall|i: int| 0 <= i < plain.len() ==> plain[i] != '=',
    ensures
        last_value(ls.push(k + seq!['='] + v), name) == if k == name {
            v
        } else {
            last_value(ls, name)
        },
        last_value(ls.push(plain), name) == last_value(ls, name),
{
    lemma_key_value_line(k, v);
    assert(ls.push(k + seq!['='] + v).drop_last() =~= ls);
    assert(ls.push(plain).drop_last() =~= ls);
    text::lemma_find_char_absent(plain, '=');
}

/// `resolvectl dns` output: a line `LABEL: SERVERS` whose label holds no `:`
/// gives the trimmed text after that first `:`, whatever colons the servers
/// hold (IPv6 addresses), unless it is empty, when the next lines are read;
/// a line without `:` is skipped.
pub proof fn law_resolvectl_text_after_first_colon(label: Seq<char>, servers: Seq<char>, plain: Seq<char>, rest: Seq<Seq<char>>)
    requires
        forall|i: int| 0 <= i < label.len() ==> label[i] != ':',
        forall|i: int| 0 <= i < plain.len() ==> plain[i] != ':',
    ensures
        resolvectl_in_lines(seq![label + seq![':'] + servers] + rest) == if text::trim(servers).len() > 0 {
            Some(text::trim(servers))
        } else {
            resolvectl_in_lines(rest)
        },
        resolvectl_in_lines(seq![plain] + rest) == resolvectl_in_lines(rest),
{
    let l = label + seq![':'] + servers;
    assert forall|i: int| 0 <= i < label.len() implies l[i] != ':' by {
        assert(l[i] == label[i]);
    }
    text::lemma_find_char_found(l, ':', label.len() as int);
    assert(l.take(label.len() as int) =~= label);
    assert(l.skip(label.len() as int + 1) =~= servers);
    assert((seq![l] + rest)[0] == l);
    assert((seq![l] + rest).drop_first() =~= rest);
    text::lemma_find_char_absent(plain, ':');
    assert((seq![plain] + rest)[0] == plain);
    assert((seq![plain] + rest).drop_first() =~= rest);
}

/// Two words separated by one space are read as those two words.
pub proof fn lemma_two_words(a: Seq<char>, b: Seq<char>)
    requires
        a.len() > 0,
        b.len() > 0,
        forall|i: int| 0 <= i < a.len() ==> !text::is_ws(#[trigger] a[i]),
        forall|i: int| 0 <= i < b.len() ==> !text::is_ws(#[trigger] b[i]),
    ensures
        text::words(a + seq![' '] + b) == seq![a, b],
{
    let s = a + seq![' '] + b;
    assert forall|k: int| 0 <= k < a.len() implies !text::is_ws(#[trigger] s[k]) by {
        assert(s[k] == a[k]);
    }
    assert(s[a.len() as int] == ' ');
    assert(text::is_ws(' '));
    text::lemma_word_len(s, a.len() as int);
    assert(s[0] == a[0]);
    assert(s.take(a.len() as int) =~= a);
    let t = s.skip(a.len() as int);
    assert(t =~= seq![' '] + b);
    assert(t[0] == ' ');
    assert(t.drop_first() =~= b);
    assert(text::words(t) == text::words(b));
    text::lemma_word_len(b, b.len() as int);
    assert(b.take(b.len() as int) =~= b);
    assert(b.skip(b.len() as int) =~= Seq::<char>::empty());
    assert(text::words(Seq::<char>::empty()) =~= Seq::<Seq<char>>::empty());
    assert(text::words(b) =~= seq![b]);
    assert(text::words(s) =~= seq![a] + seq![b]);
}

/// Every `nameserver SERVER` line of `/etc/resolv.conf` adds its server to
/// the list, whatever characters the server holds (`fd00::1` as well as
/// `192.168.1.1`).
pub proof fn law_every_nameserver_is_listed(ls: Seq<Seq<char>>, server: Seq<char>)
    requires
        server.len() > 0,
        forall|i: int| 0 <= i < server.len() ==> !text::is_ws(#[trigger] server[i]),
    ensures
        nameservers(ls.push("nameserver"@ + seq![' '] + server)) == nameservers(ls).push(server),
{
    reveal_strlit("nameserver");
    let kw = "nameserver"@;
    assert(kw.len() == 10);
    assert forall|i: int| 0 <= i < kw.len() implies !text::is_ws(#[trigger] kw[i]) by {}
    lemma_two_words(kw, server);
    let l = kw + seq![' '] + server;
    assert(nameserver_of(l) == Some(server));
    assert(ls.push(l).drop_last() =~= ls);
    assert(ls.push(l).last() == l);
}

/// A decimal number, read back, is that number (when it is within `max`).
proof fn lemma_parse_decimal(n: nat, max: nat)
    requires
        n <= max,
    ensures
        text::parse_unsigned(text::decimal(n), max) == Some(n),
{
    text::lemma_decimal_roundtrip(n);
    assert(text::is_digit(text::decimal(n)[0]));
    assert(text::unsigned_digits(text::decimal(n)) == text::decimal(n));
}

/// `wpa_cli signal_poll` output whose first line is `RSSI=X` or
/// `AVG_RSSI=X`, for any `i32` value `X` in decimal, reports `X`; a first
/// line with another key is passed over.
pub proof fn law_signal_is_rssi_value(x: int, k: Seq<char>, v: Seq<char>, rest: Seq<Seq<char>>)
    requires
        i32::MIN <= x <= i32::MAX,
        forall|i: int| 0 <= i < k.len() ==> k[i] != '=',
        k != "RSSI"@ && k != "AVG_RSSI"@,
    ensures
        signal_in_lines(seq!["RSSI="@ + text::signed_decimal(x)] + rest) == Some(x),
        signal_in_lines(seq!["AVG_RSSI="@ + text::signed_decimal(x)] + rest) == Some(x),
        signal_in_lines(seq![k + seq!['='] + v] + rest) == signal_in_lines(rest),
{
    reveal_strlit("RSSI=");
    reveal_strlit("AVG_RSSI=");
    reveal_strlit("RSSI");
    reveal_strlit("AVG_RSSI");
    let d = text::signed_decimal(x);
    assert(text::parse_signed(d, i32::MAX as nat) == Some(x)) by {
        if x < 0 {
            let n = (-x) as nat;
            text::lemma_decimal_roundtrip(n);
            assert(d.drop_first() =~= text::decimal(n));
        } else {
            lemma_parse_decimal(x as nat, i32::MAX as nat);
            text::lemma_decimal_roundtrip(x as nat);
            assert(text::is_digit(d[0]));
        }
    }
    let r = seq!['R', 'S', 'S', 'I'];
    let a = seq!['A', 'V', 'G', '_', 'R', 'S', 'S', 'I'];
    assert(r =~= "RSSI"@);
    assert(a =~= "AVG_RSSI"@);
    lemma_key_value_line(r, d);
    lemma_key_value_line(a, d);
    lemma_key_value_line(k, v);
    assert("RSSI="@ + d =~= r + seq!['='] + d);
    assert("AVG_RSSI="@ + d =~= a + seq!['='] + d);
    assert((seq!["RSSI="@ + d] + rest)[0] == "RSSI="@ + d);
    assert((seq!["AVG_RSSI="@ + d] + rest)[0] == "AVG_RSSI="@ + d);
    assert((seq![k + seq!['='] + v] + rest)[0] == k + seq!['='] + v);
    assert((seq![k + seq!['='] + v] + rest).drop_first() =~= rest);
}

/// A line `inet ADDRESS/PREFIX` (address without whitespace or `/`, prefix
/// at most 255 in decimal) gives that address and the netmask of the prefix.
pub proof fn law_ipv4_from_inet_field(ip: Seq<char>, p: nat, rest: Seq<Seq<char>>)
    requires
        ip.len() > 0,
        forall|i: int| 0 <= i < ip.len() ==> !text::is_ws(#[trigger] ip[i]) && ip[i] != '/',
        p <= 255,
    ensures
        ipv4_in_lines(seq!["inet"@ + seq![' '] + ip + seq!['/'] + text::decimal(p)] + rest) == Some(
            (ip, subnet_text(p)),
        ),
{
    reveal_strlit("inet");
    let kw = "inet"@;
    assert(kw.len() == 4);
    let d = text::decimal(p);
    text::lemma_decimal_roundtrip(p);
    let cidr = ip + seq!['/'] + d;
    assert forall|i: int| 0 <= i < kw.len() implies !text::is_ws(#[trigger] kw[i]) by {}
    assert forall|i: int| 0 <= i < cidr.len() implies !text::is_ws(#[trigger] cidr[i]) by {
        if i < ip.len() {
            assert(cidr[i] == ip[i]);
        } else if i > ip.len() {
            assert(cidr[i] == d[i - ip.len() - 1]);
            assert(text::is_digit(d[i - ip.len() - 1]));
        }
    }
    lemma_two_words(kw, cidr);
    let line = kw + seq![' '] + cidr;
    assert("inet"@ + seq![' '] + ip + seq!['/'] + d =~= line);
    let ws = text::words(line);
    assert(ws[0] == kw);
    assert(word_after(ws, kw) == Some(cidr));
    assert forall|i: int| 0 <= i < ip.len() implies cidr[i] != '/' by {
        assert(cidr[i] == ip[i]);
    }
    text::lemma_find_char_found(cidr, '/', ip.len() as int);
    assert(cidr.take(ip.len() as int) =~= ip);
    assert(cidr.skip(ip.len() as int + 1) =~= d);
    lemma_parse_decimal(p, 255);
    assert(ipv4_of_line(line) == Some((ip, subnet_text(p))));
    assert((seq![line] + rest)[0] == line);
}

/// A line `via GATEWAY` (gateway without whitespace) names that gateway.
pub proof fn law_gateway_after_via(g: Seq<char>, rest: Seq<Seq<char>>)
    requires
        g.len() > 0,
        forall|i: int| 0 <= i < g.len() ==> !text::is_ws(#[trigger] g[i]),
    ensures
        gateway_in_lines(seq!["via"@ + seq![' '] + g] + rest) == Some(g),
{
    reveal_strlit("via");
    let kw = "via"@;
    assert(kw.len() == 3);
    assert forall|i: int| 0 <= i < kw.len() implies !text::is_ws(#[trigger] kw[i]) by {}
    lemma_two_words(kw, g);
    let line = kw + seq![' '] + g;
    assert(text::words(line)[0] == kw);
    assert((seq![line] + rest)[0] == line);
}

} // verus!
