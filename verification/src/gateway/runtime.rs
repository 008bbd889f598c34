//! Safe local listener defaults for WSL deployments.

use vstd::prelude::*;
use vstd::string::*;

use crate::text;

verus! {

/// An address to listen on: the four parts of an IPv4 address or the eight of
/// an IPv6 address.
#[derive(Debug, Clone, Copy, PartialEq, Eq, Structural)]
pub enum Host {
    V4(u8, u8, u8, u8),
    V6(u16, u16, u16, u16, u16, u16, u16, u16),
}

impl Host {
    /// 127.0.0.0/8, and `::1`.
    pub open spec fn loopback(self) -> bool {
        match self {
            Host::V4(a, _, _, _) => a == 127,
            Host::V6(a, b, c, d, e, f, g, h) => a == 0 && b == 0 && c == 0 && d == 0 && e == 0 && f
                == 0 && g == 0 && h == 1,
        }
    }

    pub fn is_loopback(&self) -> (r: bool)
        ensures
            r == self.loopback(),
    {
        match *self {
            Host::V4(a, _, _, _) => a == 127,
            Host::V6(a, b, c, d, e, f, g, h) => a == 0 && b == 0 && c == 0 && d == 0 && e == 0 && f
                == 0 && g == 0 && h == 1,
        }
    }
}

/// A host and a port.
#[derive(Debug, Clone, Copy, PartialEq, Eq, Structural)]
pub struct SocketAddress {
    pub host: Host,
    pub port: u16,
}

/// One hexadecimal digit.
pub open spec fn hex_digit(n: int) -> char {
    if n < 10 {
        (48 + n) as char
    } else {
        (87 + n) as char
    }
}

/// A number in hexadecimal notation, in small letters.
pub open spec fn hexadecimal(n: nat) -> Seq<char>
    decreases n,
{
    if n < 16 {
        seq![hex_digit(n as int)]
    } else {
        hexadecimal(n / 16).push(hex_digit((n % 16) as int))
    }
}

fn hexadecimal_text(n: u16) -> (r: String)
    ensures
        r@ == hexadecimal(n as nat),
    decreases n,
{
    let low: u8 = (n % 16) as u8;
    let c = if low < 10 {
        (48 + low) as char
    } else {
        (87 + low) as char
    };
    let mut r = if n < 16 {
        String::new()
    } else {
        hexadecimal_text(n / 16)
    };
    r.push(c);
    if n < 16 {
        assert(r@ =~= hexadecimal(n as nat));
    }
    r
}

/// Four numbers in decimal notation with dots between them.
pub open spec fn dotted(a: nat, b: nat, c: nat, d: nat) -> Seq<char> {
    text::decimal(a) + "."@ + text::decimal(b) + "."@ + text::decimal(c) + "."@ + text::decimal(d)
}

fn dotted_text(a: u16, b: u16, c: u16, d: u16) -> (r: String)
    ensures
        r@ == dotted(a as nat, b as nat, c as nat, d as nat),
{
    let mut r = text::decimal_text(a as u128);
    r.append(".");
    r.append(text::decimal_text(b as u128).as_str());
    r.append(".");
    r.append(text::decimal_text(c as u128).as_str());
    r.append(".");
    r.append(text::decimal_text(d as u128).as_str());
    r
}

/// The parts in hexadecimal notation with colons between them.
pub open spec fn colons(parts: Seq<u16>) -> Seq<char> {
    text::joined(parts.map_values(|p: u16| hexadecimal(p as nat)), ":"@)
}

fn colons_text(parts: &Vec<u16>, from: usize, to: usize) -> (r: String)
    requires
        from <= to <= parts@.len(),
    ensures
        r@ == colons(parts@.subrange(from as int, to as int)),
{
    let ghost shown = parts@.subrange(from as int, to as int).map_values(
        |p: u16| hexadecimal(p as nat),
    );
    let mut texts: Vec<String> = Vec::new();
    let mut i: usize = from;
    while i < to
        invariant
            from <= i <= to <= parts@.len(),
            shown == parts@.subrange(from as int, to as int).map_values(
                |p: u16| hexadecimal(p as nat),
            ),
            text::views(texts@) == shown.take(i - from),
        decreases to - i,
    {
        let ghost before = texts@;
        texts.push(hexadecimal_text(parts[i]));
        proof {
            assert(shown[i - from] == hexadecimal(parts@[i as int] as nat));
            assert(text::views(texts@) =~= text::views(before).push(shown[i - from]));
            assert(shown.take(i + 1 - from) =~= shown.take(i - from).push(shown[i - from]));
        }
        i = i + 1;
    }
    assert(shown.take(to - from) =~= shown);
    text::join(&texts, ":")
}

/// How many parts from `start` on are zero, one after the other.
pub open spec fn zeros_from(parts: Seq<u16>, start: int) -> int
    decreases parts.len() - start,
{
    if 0 <= start < parts.len() && parts[start] == 0 {
        1 + zeros_from(parts, start + 1)
    } else {
        0
    }
}

fn count_zeros(parts: &Vec<u16>, start: usize) -> (r: usize)
    requires
        start <= parts@.len(),
    ensures
        r == zeros_from(parts@, start as int),
        start + r <= parts@.len(),
    decreases parts@.len() - start,
{
    if start < parts.len() && parts[start] == 0 {
        1 + count_zeros(parts, start + 1)
    } else {
        0
    }
}

/// Where the longest run of zeros begins that begins before `end`: the first
/// one, where several are as long.
pub open spec fn longest_zeros(parts: Seq<u16>, end: int) -> int
    decreases end,
{
    if end <= 1 {
        0
    } else {
        let before = longest_zeros(parts, end - 1);
        if zeros_from(parts, end - 1) > zeros_from(parts, before) {
            end - 1
        } else {
            before
        }
    }
}

fn find_longest_zeros(parts: &Vec<u16>) -> (r: usize)
    ensures
        r == longest_zeros(parts@, parts@.len() as int),
        r <= parts@.len(),
{
    let mut best: usize = 0;
    let mut end: usize = 1;
    while end < parts.len()
        invariant
            1 <= end,
            end <= parts@.len() || end == 1,
            best <= parts@.len(),
            best == longest_zeros(parts@, end as int),
        decreases parts@.len() - end,
    {
        if count_zeros(parts, end) > count_zeros(parts, best) {
            best = end;
        }
        end = end + 1;
    }
    best
}

/// The parts in hexadecimal notation with colons between them, where the
/// longest run of two zeros or more is left out between two colons.
pub open spec fn compressed(parts: Seq<u16>) -> Seq<char> {
    let start = longest_zeros(parts, parts.len() as int);
    let count = zeros_from(parts, start);
    if count > 1 {
        colons(parts.subrange(0, start)) + "::"@ + colons(
            parts.subrange(start + count, parts.len() as int),
        )
    } else {
        colons(parts)
    }
}

fn compressed_text(parts: &Vec<u16>) -> (r: String)
    ensures
        r@ == compressed(parts@),
{
    let start = find_longest_zeros(parts);
    let count = count_zeros(parts, start);
    let len = parts.len();
    if count > 1 {
        let head = colons_text(parts, 0, start);
        let tail = colons_text(parts, start + count, len);
        text::concat3(head.as_str(), "::", tail.as_str())
    } else {
        assert(parts@.subrange(0, parts@.len() as int) =~= parts@);
        colons_text(parts, 0, len)
    }
}

impl Host {
    /// `a.b.c.d`, or the parts of an IPv6 address in their short form. One that
    /// stands for an IPv4 address shows it.
    pub open spec fn shown(self) -> Seq<char> {
        match self {
            Host::V4(a, b, c, d) => dotted(a as nat, b as nat, c as nat, d as nat),
            Host::V6(a, b, c, d, e, f, g, h) => if a == 0 && b == 0 && c == 0 && d == 0 && e == 0
                && f == 0xffff {
                "::ffff:"@ + dotted(
                    (g / 256) as nat,
                    (g % 256) as nat,
                    (h / 256) as nat,
                    (h % 256) as nat,
                )
            } else {
                compressed(seq![a, b, c, d, e, f, g, h])
            },
        }
    }

    pub fn to_string(&self) -> (r: String)
        ensures
            r@ == self.shown(),
    {
        match *self {
            Host::V4(a, b, c, d) => dotted_text(a as u16, b as u16, c as u16, d as u16),
            Host::V6(a, b, c, d, e, f, g, h) => if a == 0 && b == 0 && c == 0 && d == 0 && e == 0
                && f == 0xffff {
                text::concat2("::ffff:", dotted_text(g / 256, g % 256, h / 256, h % 256).as_str())
            } else {
                let parts: Vec<u16> = vec![a, b, c, d, e, f, g, h];
                assert(parts@ =~= seq![a, b, c, d, e, f, g, h]);
                compressed_text(&parts)
            },
        }
    }
}

impl SocketAddress {
    /// `a.b.c.d:port`, or an IPv6 address in brackets before its port.
    pub open spec fn shown(self) -> Seq<char> {
        let port = text::decimal(self.port as nat);
        match self.host {
            Host::V4(..) => self.host.shown() + ":"@ + port,
            Host::V6(..) => "["@ + self.host.shown() + "]:"@ + port,
        }
    }

    pub fn to_string(&self) -> (r: String)
        ensures
            r@ == self.shown(),
    {
        let host = self.host.to_string();
        let port = text::decimal_text(self.port as u128);
        match self.host {
            Host::V4(..) => text::concat3(host.as_str(), ":", port.as_str()),
            Host::V6(..) => {
                let mut r = text::concat3("[", host.as_str(), "]:");
                r.append(port.as_str());
                r
            },
        }
    }
}

/// Listener settings for the local gateway.
#[derive(Debug, Clone, Copy, PartialEq, Eq, Structural)]
pub struct ListenConfig {
    pub host: Host,
    pub port: u16,
}

impl Default for ListenConfig {
    fn default() -> (r: ListenConfig)
        ensures
            r == (ListenConfig { host: Host::V4(127, 0, 0, 1), port: 3456 }),
    {
        ListenConfig { host: Host::V4(127, 0, 0, 1), port: 3456 }
    }
}

impl ListenConfig {
    pub fn new(host: Host, port: u16) -> (r: ListenConfig)
        ensures
            r == (ListenConfig { host, port }),
    {
        ListenConfig { host, port }
    }

    pub fn socket_addr(self) -> (r: SocketAddress)
        ensures
            r == (SocketAddress { host: self.host, port: self.port }),
    {
        SocketAddress { host: self.host, port: self.port }
    }

    /// The gateway carries upstream credentials. Non-loopback binds are only
    /// permitted when a bearer token guards the API routes.
    pub fn validate(self, authenticated: bool) -> (r: Result<(), &'static str>)
        ensures
            r is Ok <==> self.host.loopback() || authenticated,
            r matches Err(e) ==> e@
                == "non-loopback listeners require an authenticated gateway"@,
    {
        if self.host.is_loopback() || authenticated {
            Ok(())
        } else {
            Err("non-loopback listeners require an authenticated gateway")
        }
    }
}

/// The loopback addresses are those of 127.0.0.0/8 and `::1`.
pub proof fn law_loopback_addresses(h: Host)
    ensures
        h.loopback() <==> (match h {
            Host::V4(a, _, _, _) => a == 127,
            Host::V6(a, b, c, d, e, f, g, h) => h == 1 && a == 0 && b == 0 && c == 0 && d == 0
                && e == 0 && f == 0 && g == 0,
        }),
{
}

/// An address is written with its port behind a colon, one of IPv6 in brackets;
/// the parts of one of IPv4 are decimal numbers between dots.
pub proof fn law_addresses_are_written(a: SocketAddress)
    ensures
        a.host is V6 ==> a.shown() == "["@ + a.host.shown() + "]:"@ + text::decimal(
            a.port as nat,
        ),
        a.host matches Host::V4(p, q, r, s) ==> a.shown() == text::decimal(p as nat) + "."@
            + text::decimal(q as nat) + "."@ + text::decimal(r as nat) + "."@ + text::decimal(
            s as nat,
        ) + ":"@ + text::decimal(a.port as nat),
{
}

/// The value of a hexadecimal digit.
pub open spec fn hex_value(c: char) -> int {
    if '0' <= c <= '9' {
        c as int - '0' as int
    } else {
        c as int - 'a' as int + 10
    }
}

/// A number is written in hexadecimal digits, small letters among them, with
/// its last digit behind those of its sixteens.
pub proof fn law_hexadecimal_digits(n: nat, d: nat)
    requires
        d < 16,
    ensures
        hexadecimal(d).len() == 1 && hex_value(hexadecimal(d)[0]) == d,
        '0' <= hexadecimal(d)[0] <= '9' || 'a' <= hexadecimal(d)[0] <= 'f',
        n > 0 ==> hexadecimal(n * 16 + d) == hexadecimal(n) + hexadecimal(d),
{
    if n > 0 {
        assert((n * 16 + d) / 16 == n && (n * 16 + d) % 16 == d);
        assert(hexadecimal(n * 16 + d) =~= hexadecimal(n) + hexadecimal(d));
    }
}

proof fn lemma_longest(parts: Seq<u16>, end: int, start: int)
    requires
        0 <= start < end,
    ensures
        0 <= longest_zeros(parts, end) < end,
        zeros_from(parts, start) <= zeros_from(parts, longest_zeros(parts, end)),
        start < longest_zeros(parts, end) ==> zeros_from(parts, start) < zeros_from(
            parts,
            longest_zeros(parts, end),
        ),
    decreases end,
{
    if end > 1 {
        if start < end - 1 {
            lemma_longest(parts, end - 1, start);
        } else {
            lemma_longest(parts, end - 1, 0);
        }
    }
}

/// The zeros that an address of IPv6 is written without are its longest row of
/// zeros, and the first of those.
pub proof fn law_longest_zeros_are_left_out(parts: Seq<u16>, start: int)
    requires
        0 <= start < parts.len(),
    ensures
        ({
            let at = longest_zeros(parts, parts.len() as int);
            &&& 0 <= at < parts.len()
            &&& zeros_from(parts, start) <= zeros_from(parts, at)
            &&& start < at ==> zeros_from(parts, start) < zeros_from(parts, at)
        }),
        parts[start] == 0 <==> zeros_from(parts, start) > 0,
{
    lemma_longest(parts, parts.len() as int, start);
    lemma_zeros_not_negative(parts, start + 1);
}

proof fn lemma_zeros_not_negative(parts: Seq<u16>, start: int)
    ensures
        zeros_from(parts, start) >= 0,
    decreases parts.len() - start,
{
    if 0 <= start < parts.len() && parts[start] == 0 {
        lemma_zeros_not_negative(parts, start + 1);
    }
}

/// An address of IPv6 without two zeros in a row is written in full, its eight
/// parts between colons, but for one that stands for an address of IPv4.
pub proof fn law_full_addresses(parts: Seq<u16>)
    requires
        parts.len() == 8,
        forall|i: int| 0 <= i < 7 ==> (#[trigger] parts[i] != 0) || parts[i + 1] != 0,
    ensures
        Host::V6(
            parts[0],
            parts[1],
            parts[2],
            parts[3],
            parts[4],
            parts[5],
            parts[6],
            parts[7],
        ).shown() == text::joined(parts.map_values(|p: u16| hexadecimal(p as nat)), ":"@),
{
    let all = seq![
        parts[0],
        parts[1],
        parts[2],
        parts[3],
        parts[4],
        parts[5],
        parts[6],
        parts[7],
    ];
    assert(all =~= parts);
    let at = longest_zeros(parts, 8);
    lemma_longest(parts, 8, 0);
    reveal_with_fuel(zeros_from, 3);
    assert(zeros_from(parts, at) <= 1) by {
        if parts[at] == 0 && at < 7 {
            assert(parts[at] != 0 || parts[at + 1] != 0);
        }
    }
    assert(parts[0] != 0 || parts[1] != 0);
}

/// An address of IPv6 that stands for one of IPv4 is written as such.
pub proof fn law_mapped_addresses(a: u8, b: u8, c: u8, d: u8)
    ensures
        Host::V6(
            0,
            0,
            0,
            0,
            0,
            0xffff,
            (a * 256 + b) as u16,
            (c * 256 + d) as u16,
        ).shown() == "::ffff:"@ + Host::V4(a, b, c, d).shown(),
{
    let g = (a * 256 + b) as u16;
    let h = (c * 256 + d) as u16;
    assert(g == a * 256 + b && h == c * 256 + d);
    assert(g / 256 == a && g % 256 == b && h / 256 == c && h % 256 == d);
}

/// An address of IPv6 with zeros in a row is written with two colons in their
/// place, the parts before and behind them between colons.
pub proof fn law_short_addresses(parts: Seq<u16>, at: int, n: int)
    requires
        parts.len() == 8,
        0 <= at,
        n > 1,
        at + n <= 8,
        forall|i: int| at <= i < at + n ==> #[trigger] parts[i] == 0,
        at + n == 8 || parts[at + n] != 0,
        at == 0 || parts[at - 1] != 0,
        forall|i: int|
            0 <= i < 8 && !(at <= i < at + n) ==> zeros_from(parts, i) < n,
        !(parts[0] == 0 && parts[1] == 0 && parts[2] == 0 && parts[3] == 0 && parts[4] == 0
            && parts[5] == 0xffff),
    ensures
        Host::V6(
            parts[0],
            parts[1],
            parts[2],
            parts[3],
            parts[4],
            parts[5],
            parts[6],
            parts[7],
        ).shown() == text::joined(
            parts.take(at).map_values(|p: u16| hexadecimal(p as nat)),
            ":"@,
        ) + "::"@ + text::joined(
            parts.skip(at + n).map_values(|p: u16| hexadecimal(p as nat)),
            ":"@,
        ),
{
    let all = seq![
        parts[0],
        parts[1],
        parts[2],
        parts[3],
        parts[4],
        parts[5],
        parts[6],
        parts[7],
    ];
    assert(all =~= parts);
    lemma_run(parts, at, n);
    let found = longest_zeros(parts, 8);
    lemma_longest(parts, 8, at);
    if found != at {
        if at <= found < at + n {
            lemma_run(parts, found, at + n - found);
        }
    }
    assert(found == at);
    assert(parts.subrange(0, at) =~= parts.take(at));
    assert(parts.subrange(at + n, 8) =~= parts.skip(at + n));
}

proof fn lemma_run(parts: Seq<u16>, at: int, n: int)
    requires
        0 <= at,
        n >= 0,
        at + n <= parts.len(),
        forall|i: int| at <= i < at + n ==> #[trigger] parts[i] == 0,
        at + n == parts.len() || parts[at + n] != 0,
    ensures
        zeros_from(parts, at) == n,
    decreases n,
{
    if n > 0 {
        lemma_run(parts, at + 1, n - 1);
    }
}

} // verus!
