//! Server addresses: an IPv4 address in dotted decimal, a colon and a port.
use crate::connect::is_server_address;
use crate::error::Error;
use vstd::prelude::*;
use vstd::string::StrSliceExecFns;

verus! {

/// Whether `c` is a decimal digit.
pub open spec fn is_digit(c: char) -> bool {
    '0' <= c && c <= '9'
}

/// The number that a digit stands for.
pub open spec fn digit_value(c: char) -> int {
    c as int - '0' as int
}

/// The digit that stands for `n`, for `n` below ten.
pub open spec fn digit(n: nat) -> char {
    ('0' as int + n) as char
}

/// Whether `text` consists of decimal digits alone.
pub open spec fn all_digits(text: Seq<char>) -> bool {
    forall|i: int| 0 <= i < text.len() ==> is_digit(#[trigger] text[i])
}

/// The number that a run of digits stands for; leading zeros add nothing.
pub open spec fn value(digits: Seq<char>) -> int
    decreases digits.len(),
{
    if digits.len() == 0 {
        0
    } else {
        value(digits.drop_last()) * 10 + digit_value(digits.last())
    }
}

/// `n` in decimal, without leading zeros.
pub open spec fn decimal(n: nat) -> Seq<char>
    decreases n,
{
    if n < 10 {
        seq![digit(n)]
    } else {
        decimal(n / 10).push(digit(n % 10))
    }
}

/// An IPv4 address, most significant byte first.
pub struct Ipv4 {
    pub a: u8,
    pub b: u8,
    pub c: u8,
    pub d: u8,
}

/// The address in dotted decimal.
pub open spec fn dotted(ip: Ipv4) -> Seq<char> {
    decimal(ip.a as nat) + seq!['.'] + decimal(ip.b as nat) + seq!['.'] + decimal(ip.c as nat)
        + seq!['.'] + decimal(ip.d as nat)
}

/// Whether `text` writes the address `ip` and the port `port`: the address in
/// dotted decimal, a colon, and digits that stand for the port.
pub open spec fn writes(text: Seq<char>, ip: Ipv4, port: u16) -> bool {
    let colon = dotted(ip).len() as int;
    &&& colon + 1 < text.len()
    &&& text.take(colon) == dotted(ip)
    &&& text[colon] == ':'
    &&& all_digits(text.skip(colon + 1))
    &&& value(text.skip(colon + 1)) == port
}

/// Whether `text` is a server address with the IPv4 address `host`, in dotted
/// decimal, and the port `port`.
pub open spec fn splits_into(text: Seq<char>, host: Seq<char>, port: u16) -> bool {
    exists|ip: Ipv4| #[trigger] writes(text, ip, port) && host == dotted(ip)
}

/// Whether the number `n` stands in `text` at `at`, with no further digit
/// behind it.
spec fn stands(text: Seq<char>, at: int, n: u8) -> bool {
    let end = at + decimal(n as nat).len();
    &&& 0 <= at
    &&& end <= text.len()
    &&& text.subrange(at, end) == decimal(n as nat)
    &&& end < text.len() ==> !is_digit(text[end])
}

proof fn lemma_decimal_octet(n: u8)
    ensures
        value(decimal(n as nat)) == n,
        all_digits(decimal(n as nat)),
        1 <= decimal(n as nat).len() <= 3,
        decimal(n as nat).len() > 1 ==> decimal(n as nat)[0] != '0',
{
    reveal_with_fuel(decimal, 3);
    reveal_with_fuel(value, 4);
    let s = decimal(n as nat);
    if n < 10 {
        assert(s.drop_last() =~= seq![]);
    } else if n < 100 {
        assert(s.drop_last() =~= decimal((n / 10) as nat));
    } else {
        assert(s.drop_last() =~= decimal((n / 10) as nat));
        assert(s.drop_last().drop_last() =~= decimal((n / 100) as nat));
    }
}

proof fn lemma_value_nonnegative(digits: Seq<char>)
    requires
        all_digits(digits),
    ensures
        0 <= value(digits),
        digits.len() > 0 && digits[0] != '0' ==> 1 <= value(digits),
    decreases digits.len(),
{
    if digits.len() > 0 {
        lemma_value_nonnegative(digits.drop_last());
        assert(is_digit(digits.last()));
        if digits.len() == 1 {
            reveal_with_fuel(value, 2);
        }
    }
}

/// A run of digits without a leading zero is the decimal form of its value.
proof fn lemma_decimal_of_value(digits: Seq<char>)
    requires
        all_digits(digits),
        digits.len() > 0,
        digits.len() == 1 || digits[0] != '0',
    ensures
        decimal(value(digits) as nat) == digits,
    decreases digits.len(),
{
    let init = digits.drop_last();
    assert(is_digit(digits.last()));
    assert(digits =~= init.push(digits.last()));
    if digits.len() == 1 {
        reveal_with_fuel(value, 2);
        assert(decimal(value(digits) as nat) =~= digits);
    } else {
        assert(init[0] == digits[0]);
        lemma_value_nonnegative(init);
        lemma_decimal_of_value(init);
        let n = value(digits) as nat;
        assert(n / 10 == value(init) as nat && n % 10 == digit_value(digits.last()));
    }
}

/// A number that stands at `at` is the whole run of digits there.
proof fn lemma_stands_is_run(text: Seq<char>, at: int, end: int, n: u8)
    requires
        0 <= at <= end <= text.len(),
        all_digits(text.subrange(at, end)),
        end < text.len() ==> !is_digit(text[end]),
        stands(text, at, n),
    ensures
        text.subrange(at, end) == decimal(n as nat),
{
    lemma_decimal_octet(n);
    let found = at + decimal(n as nat).len();
    if found < end {
        assert(is_digit(text.subrange(at, end)[found - at]));
    }
    if end < found {
        assert(is_digit(decimal(n as nat)[end - at]));
        assert(text.subrange(at, found)[end - at] == text[end]);
    }
}

fn is_decimal_digit(c: char) -> (yes: bool)
    ensures
        yes == is_digit(c),
{
    '0' <= c && c <= '9'
}

/// Reads the number at `at` that fits in a byte, and finds where it ends.
fn read_octet(text: &Vec<char>, at: usize) -> (octet: Option<(u8, usize)>)
    requires
        at <= text@.len(),
    ensures
        match octet {
            Some((n, end)) => stands(text@, at as int, n) && end == at + decimal(n as nat).len(),
            None => forall|n: u8| !stands(text@, at as int, n),
        },
{
    let mut end: usize = at;
    let mut number: u32 = 0;
    while end < text.len() && is_decimal_digit(text[end])
        invariant
            at <= end <= text@.len(),
            end - at <= 3,
            all_digits(text@.subrange(at as int, end as int)),
            number == value(text@.subrange(at as int, end as int)),
            end == at ==> number < 1,
            end == at + 1 ==> number < 10,
            end == at + 2 ==> number < 100,
            end == at + 3 ==> number < 1000,
        decreases text@.len() - end,
    {
        let ghost run = text@.subrange(at as int, end as int);
        assert(text@.subrange(at as int, end + 1) =~= run.push(text@[end as int]));
        assert(run.push(text@[end as int]).drop_last() =~= run);
        if end - at == 3 {
            proof {
                assert forall|n: u8| !stands(text@, at as int, n) by {
                    if stands(text@, at as int, n) {
                        lemma_decimal_octet(n);
                        let found = at + decimal(n as nat).len();
                        assert(is_digit(run.push(text@[end as int])[found - at]));
                    }
                }
            }
            return None;
        }
        number = number * 10 + (text[end] as u32 - '0' as u32);
        end = end + 1;
    }
    let ghost run = text@.subrange(at as int, end as int);
    proof {
        assert forall|n: u8| stands(text@, at as int, n) implies run == decimal(n as nat) && run.len()
            > 0 && (run.len() > 1 ==> run[0] != '0') && value(run) == n by {
            lemma_stands_is_run(text@, at as int, end as int, n);
            lemma_decimal_octet(n);
        }
    }
    if end == at || (end - at > 1 && text[at] == '0') || number > 255 {
        return None;
    }
    proof {
        lemma_decimal_of_value(run);
    }
    Some((number as u8, end))
}

/// Whether the number `n` stands at `at` with `mark` right behind it.
spec fn group(text: Seq<char>, at: int, n: u8, mark: char) -> bool {
    let end = at + decimal(n as nat).len();
    &&& stands(text, at, n)
    &&& end < text.len()
    &&& text[end] == mark
}

/// Where the group after the number `n` at `at` begins.
spec fn next_group(at: int, n: u8) -> int {
    at + decimal(n as nat).len() + 1
}

/// At most one number makes a group at a given place.
proof fn lemma_group_unique(text: Seq<char>, at: int, n: u8, m: u8, mark: char)
    requires
        group(text, at, n, mark),
        group(text, at, m, mark),
    ensures
        n == m,
{
    lemma_decimal_octet(n);
    lemma_decimal_octet(m);
    let end = at + decimal(m as nat).len();
    lemma_stands_is_run(text, at, end, n);
}

/// Whether the rest of `text` from `at` on writes the port.
spec fn port_at(text: Seq<char>, at: int, port: u16) -> bool {
    &&& 0 <= at < text.len()
    &&& all_digits(text.skip(at))
    &&& value(text.skip(at)) == port
}

/// Whether `text` is four groups with the bytes of `ip`, and the port.
spec fn groups(text: Seq<char>, ip: Ipv4, port: u16) -> bool {
    let b = next_group(0, ip.a);
    let c = next_group(b, ip.b);
    let d = next_group(c, ip.c);
    &&& group(text, 0, ip.a, '.')
    &&& group(text, b, ip.b, '.')
    &&& group(text, c, ip.c, '.')
    &&& group(text, d, ip.d, ':')
    &&& port_at(text, next_group(d, ip.d), port)
}

/// A piece of the text that lies in `host`, and the character behind it.
proof fn lemma_piece(text: Seq<char>, host: Seq<char>, from: int, piece: Seq<char>, n: u8)
    requires
        piece == decimal(n as nat),
        0 <= from,
        from + piece.len() <= host.len() < text.len(),
        text.take(host.len() as int) == host,
        forall|i: int| 0 <= i < piece.len() ==> host[from + i] == #[trigger] piece[i],
        !is_digit(text[from + piece.len()]),
    ensures
        group(text, from, n, text[from + piece.len()]),
{
    assert forall|i: int| 0 <= i < host.len() implies text[i] == #[trigger] host[i] by {
        assert(text.take(host.len() as int)[i] == text[i]);
    }
    assert(text.subrange(from, from + piece.len()) =~= piece);
}

proof fn lemma_writes_to_groups(text: Seq<char>, ip: Ipv4, port: u16)
    requires
        writes(text, ip, port),
    ensures
        groups(text, ip, port),
{
    lemma_decimal_octet(ip.a);
    lemma_decimal_octet(ip.b);
    lemma_decimal_octet(ip.c);
    lemma_decimal_octet(ip.d);
    let sa = decimal(ip.a as nat);
    let sb = decimal(ip.b as nat);
    let sc = decimal(ip.c as nat);
    let sd = decimal(ip.d as nat);
    let host = dotted(ip);
    let b = next_group(0, ip.a);
    let c = next_group(b, ip.b);
    let d = next_group(c, ip.c);
    assert(host[sa.len() as int] == '.');
    assert(host[b + sb.len()] == '.');
    assert(host[c + sc.len()] == '.');
    assert forall|i: int| 0 <= i < host.len() implies text[i] == #[trigger] host[i] by {
        assert(text.take(host.len() as int)[i] == text[i]);
    }
    lemma_piece(text, host, 0, sa, ip.a);
    lemma_piece(text, host, b, sb, ip.b);
    lemma_piece(text, host, c, sc, ip.c);
    lemma_piece(text, host, d, sd, ip.d);
}

proof fn lemma_groups_to_writes(text: Seq<char>, ip: Ipv4, port: u16)
    requires
        groups(text, ip, port),
    ensures
        writes(text, ip, port),
{
    let sa = decimal(ip.a as nat);
    let sb = decimal(ip.b as nat);
    let sc = decimal(ip.c as nat);
    let sd = decimal(ip.d as nat);
    let b = next_group(0, ip.a);
    let c = next_group(b, ip.b);
    let d = next_group(c, ip.c);
    let colon = dotted(ip).len() as int;
    assert(colon == d + sd.len());
    let pieces = text.subrange(0, sa.len() as int) + seq!['.'] + text.subrange(b, b + sb.len())
        + seq!['.'] + text.subrange(c, c + sc.len()) + seq!['.'] + text.subrange(d, d + sd.len());
    assert(pieces == dotted(ip));
    assert(text.take(colon) =~= pieces);
}

/// The digits read so far stand for no more than all the digits do.
proof fn lemma_value_grows(digits: Seq<char>, len: int)
    requires
        all_digits(digits),
        0 <= len <= digits.len(),
    ensures
        value(digits.take(len)) <= value(digits),
    decreases digits.len(),
{
    if len == digits.len() {
        assert(digits.take(len) =~= digits);
    } else {
        let init = digits.drop_last();
        assert(is_digit(digits.last()));
        assert(init.take(len) =~= digits.take(len));
        lemma_value_grows(init, len);
        lemma_value_nonnegative(init);
    }
}

/// Reads a byte in decimal and the character `mark` behind it, and finds where
/// the text goes on.
fn read_group(text: &Vec<char>, at: usize, mark: char) -> (read: Option<(u8, usize)>)
    requires
        at <= text@.len(),
    ensures
        match read {
            Some((n, next)) => group(text@, at as int, n, mark) && next == next_group(at as int, n)
                && next <= text@.len(),
            None => forall|n: u8| !group(text@, at as int, n, mark),
        },
{
    match read_octet(text, at) {
        Some((n, end)) => {
            if end < text.len() && text[end] == mark {
                Some((n, end + 1))
            } else {
                proof {
                    assert forall|m: u8| !group(text@, at as int, m, mark) by {
                        if group(text@, at as int, m, mark) {
                            lemma_decimal_octet(n);
                            lemma_stands_is_run(text@, at as int, end as int, m);
                            assert(text@.subrange(at as int, end as int) == decimal(m as nat));
                        }
                    }
                }
                None
            }
        },
        None => None,
    }
}

/// Reads the rest of the text as a port.
fn read_port(text: &Vec<char>, at: usize) -> (port: Option<u16>)
    requires
        at <= text@.len(),
    ensures
        match port {
            Some(port) => port_at(text@, at as int, port),
            None => forall|port: u16| !port_at(text@, at as int, port),
        },
{
    let ghost rest = text@.skip(at as int);
    if at == text.len() {
        return None;
    }
    let mut end: usize = at;
    let mut number: u32 = 0;
    while end < text.len()
        invariant
            at <= end <= text@.len(),
            rest == text@.skip(at as int),
            all_digits(rest.take(end - at)),
            number == value(rest.take(end - at)),
            number <= u16::MAX,
        decreases text@.len() - end,
    {
        let c = text[end];
        assert(c == rest[end - at]);
        if !is_decimal_digit(c) {
            return None;
        }
        proof {
            let run = rest.take(end - at);
            assert(rest.take(end - at + 1) =~= run.push(c));
            assert(run.push(c).drop_last() =~= run);
        }
        number = number * 10 + (c as u32 - '0' as u32);
        end = end + 1;
        if number > 65535 {
            proof {
                if all_digits(rest) {
                    lemma_value_grows(rest, end - at);
                }
            }
            return None;
        }
    }
    assert(rest.take(end - at) =~= rest);
    Some(number as u16)
}

/// Splits a server address into the IPv4 address and the port.
pub fn parse_ipv4_address(addr: &str) -> (parsed: Result<(String, u16), Error>)
    ensures
        match parsed {
            Ok((host, port)) => splits_into(addr@, host@, port),
            Err(error) => error is ParseIPAddress && forall|host: Seq<char>, port: u16|
                !splits_into(addr@, host, port),
        },
        parsed is Ok <==> is_server_address(addr@),
{
    match read_address(addr) {
        Some((colon, port)) => Ok((addr.substring_char(0, colon).to_owned(), port)),
        None => Err(Error::ParseIPAddress),
    }
}

/// Finds the colon and the port in a server address.
fn read_address(addr: &str) -> (read: Option<(usize, u16)>)
    ensures
        match read {
            Some((colon, port)) => colon <= addr@.len() && splits_into(
                addr@,
                addr@.subrange(0, colon as int),
                port,
            ),
            None => forall|ip: Ipv4, port: u16| !writes(addr@, ip, port),
        },
{
    let mut text: Vec<char> = Vec::new();
    for c in it: addr.chars()
        invariant
            it.seq() == addr@,
            text@ == addr@.take(it.index() as int),
    {
        text.push(c);
    }
    assert(text@ =~= addr@);
    proof {
        assert forall|ip: Ipv4, port: u16| #[trigger] writes(addr@, ip, port) implies groups(
            addr@,
            ip,
            port,
        ) by {
            lemma_writes_to_groups(addr@, ip, port);
        }
        assert forall|at: int, n: u8, m: u8, mark: char|
            #![trigger group(addr@, at, n, mark), group(addr@, at, m, mark)]
            group(addr@, at, n, mark) && group(addr@, at, m, mark) implies n == m by {
            lemma_group_unique(addr@, at, n, m, mark);
        }
    }
    if let Some((a, at)) = read_group(&text, 0, '.') {
        if let Some((b, at)) = read_group(&text, at, '.') {
            if let Some((c, at)) = read_group(&text, at, '.') {
                if let Some((d, at)) = read_group(&text, at, ':') {
                    if let Some(port) = read_port(&text, at) {
                        proof {
                            let ip = Ipv4 { a, b, c, d };
                            assert(groups(addr@, ip, port));
                            lemma_groups_to_writes(addr@, ip, port);
                            assert(addr@.subrange(0, at - 1) =~= addr@.take(at - 1));
                            assert(dotted(ip) == addr@.subrange(0, at - 1));
                        }
                        return Some((at - 1, port));
                    }
                }
            }
        }
    }
    None
}

proof fn lemma_decimal(n: nat)
    ensures
        value(decimal(n)) == n,
        all_digits(decimal(n)),
        decimal(n).len() > 0,
    decreases n,
{
    if n < 10 {
        reveal_with_fuel(value, 2);
        assert(decimal(n).drop_last() =~= seq![]);
    } else {
        lemma_decimal(n / 10);
        assert(decimal(n).drop_last() =~= decimal(n / 10));
    }
}

/// A server address has one IPv4 address and one port.
pub proof fn law_address_reads_one_way(
    text: Seq<char>,
    host: Seq<char>,
    port: u16,
    other_host: Seq<char>,
    other_port: u16,
)
    requires
        splits_into(text, host, port),
        splits_into(text, other_host, other_port),
    ensures
        host == other_host,
        port == other_port,
{
    let ip = choose|ip: Ipv4| #[trigger] writes(text, ip, port) && host == dotted(ip);
    let other = choose|ip: Ipv4| #[trigger]
        writes(text, ip, other_port) && other_host == dotted(ip);
    lemma_writes_to_groups(text, ip, port);
    lemma_writes_to_groups(text, other, other_port);
    lemma_group_unique(text, 0, ip.a, other.a, '.');
    let b = next_group(0, ip.a);
    lemma_group_unique(text, b, ip.b, other.b, '.');
    let c = next_group(b, ip.b);
    lemma_group_unique(text, c, ip.c, other.c, '.');
    let d = next_group(c, ip.c);
    lemma_group_unique(text, d, ip.d, other.d, ':');
}

/// The IPv4 address of a server address is the text before the colon.
pub proof fn law_host_is_the_text_before_the_colon(text: Seq<char>, host: Seq<char>, port: u16)
    requires
        splits_into(text, host, port),
    ensures
        host.len() < text.len(),
        host == text.take(host.len() as int),
        text[host.len() as int] == ':',
{
}

/// Every IPv4 address and every port can be written, and reads back.
pub proof fn law_written_address_reads_back(ip: Ipv4, port: u16)
    ensures
        splits_into(dotted(ip) + seq![':'] + decimal(port as nat), dotted(ip), port),
{
    lemma_decimal(port as nat);
    let text = dotted(ip) + seq![':'] + decimal(port as nat);
    let colon = dotted(ip).len() as int;
    assert(text.take(colon) =~= dotted(ip));
    assert(text.skip(colon + 1) =~= decimal(port as nat));
    assert(writes(text, ip, port));
}

// What is read, character by character.

/// The number that a text of digits stands for, read from left to right.
pub open spec fn number(text: Seq<char>) -> int {
    text.fold_left(0int, |n: int, c: char| 10 * n + (c as int - 48))
}

/// Whether `text` is one or more of the characters from `0` to `9`.
pub open spec fn is_number(text: Seq<char>) -> bool {
    text.len() > 0 && forall|i: int| 0 <= i < text.len() ==> 48 <= #[trigger] text[i] as int <= 57
}

/// Whether `text` is a number of a server address: at most three digits, at most
/// 255, and no zero in front of another digit.
pub open spec fn is_byte(text: Seq<char>) -> bool {
    &&& is_number(text)
    &&& text.len() <= 3
    &&& text.len() > 1 ==> text[0] as int != 48
    &&& number(text) <= 255
}

/// Four texts with dots between them.
pub open spec fn with_dots(a: Seq<char>, b: Seq<char>, c: Seq<char>, d: Seq<char>) -> Seq<char> {
    a + seq!['.'] + b + seq!['.'] + c + seq!['.'] + d
}

/// Whether `text` is a server address that consists of the four bytes and the
/// port.
pub open spec fn has_parts(
    text: Seq<char>,
    a: Seq<char>,
    b: Seq<char>,
    c: Seq<char>,
    d: Seq<char>,
    port: Seq<char>,
) -> bool {
    &&& text == with_dots(a, b, c, d) + seq![':'] + port
    &&& is_byte(a) && is_byte(b) && is_byte(c) && is_byte(d)
    &&& is_number(port)
    &&& number(port) <= 65535
}

proof fn lemma_number_is_value(text: Seq<char>)
    ensures
        number(text) == value(text),
    decreases text.len(),
{
    if text.len() > 0 {
        lemma_number_is_value(text.drop_last());
    }
}

proof fn lemma_number_is_all_digits(text: Seq<char>)
    requires
        text.len() > 0,
    ensures
        is_number(text) <==> all_digits(text),
{
    if all_digits(text) {
        assert forall|i: int| 0 <= i < text.len() implies 48 <= #[trigger] text[i] as int <= 57 by {
            assert(is_digit(text[i]));
        }
    }
}

proof fn lemma_byte_is_decimal(text: Seq<char>)
    requires
        is_byte(text),
    ensures
        0 <= value(text) <= 255,
        decimal(value(text) as nat) == text,
{
    lemma_number_is_value(text);
    lemma_number_is_all_digits(text);
    lemma_value_nonnegative(text);
    lemma_decimal_of_value(text);
}

proof fn lemma_decimal_is_byte(n: u8)
    ensures
        is_byte(decimal(n as nat)),
{
    lemma_decimal_octet(n);
    lemma_number_is_value(decimal(n as nat));
    lemma_number_is_all_digits(decimal(n as nat));
}

/// A text with the parts of a server address splits into the address, which is
/// the text up to the colon, and the port.
pub proof fn law_parts_are_split(
    text: Seq<char>,
    a: Seq<char>,
    b: Seq<char>,
    c: Seq<char>,
    d: Seq<char>,
    port: Seq<char>,
)
    requires
        has_parts(text, a, b, c, d, port),
    ensures
        0 <= number(port) <= 65535,
        splits_into(text, with_dots(a, b, c, d), number(port) as u16),
{
    lemma_byte_is_decimal(a);
    lemma_byte_is_decimal(b);
    lemma_byte_is_decimal(c);
    lemma_byte_is_decimal(d);
    lemma_number_is_value(port);
    lemma_number_is_all_digits(port);
    lemma_value_nonnegative(port);
    let ip = Ipv4 {
        a: value(a) as u8,
        b: value(b) as u8,
        c: value(c) as u8,
        d: value(d) as u8,
    };
    let host = with_dots(a, b, c, d);
    assert(dotted(ip) == host);
    assert(text.take(host.len() as int) =~= host);
    assert(text.skip(host.len() as int + 1) =~= port);
    assert(writes(text, ip, number(port) as u16));
}

/// A text that splits has the parts of a server address.
pub proof fn law_split_text_has_parts(text: Seq<char>, host: Seq<char>, port: u16)
    requires
        splits_into(text, host, port),
    ensures
        exists|a: Seq<char>, b: Seq<char>, c: Seq<char>, d: Seq<char>, digits: Seq<char>| #[trigger]
            has_parts(text, a, b, c, d, digits) && host == with_dots(a, b, c, d) && port == number(
                digits,
            ),
{
    let ip = choose|ip: Ipv4| #[trigger] writes(text, ip, port) && host == dotted(ip);
    let a = decimal(ip.a as nat);
    let b = decimal(ip.b as nat);
    let c = decimal(ip.c as nat);
    let d = decimal(ip.d as nat);
    let digits = text.skip(host.len() as int + 1);
    lemma_decimal_is_byte(ip.a);
    lemma_decimal_is_byte(ip.b);
    lemma_decimal_is_byte(ip.c);
    lemma_decimal_is_byte(ip.d);
    lemma_number_is_value(digits);
    lemma_number_is_all_digits(digits);
    assert(text =~= text.take(host.len() as int) + seq![':'] + digits);
    assert(has_parts(text, a, b, c, d, digits));
}

} // verus!
