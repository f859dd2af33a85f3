//! The room host: it searches a fixed range of ports for one it can listen
//! on, and reports the outcome to the server as one line on its standard
//! output (the port in decimal, or nothing, then a newline). The server
//! reads that line back into a port.

use vstd::prelude::*;
use vstd::string::*;
use crate::text::push_char;

verus! {

/// The first port that the room host tries.
pub const FIRST_ROOM_PORT: u16 = 27016;

/// The port after the last one that the room host tries.
pub const ROOM_PORT_END: u16 = 27115;

/// What the room host does after an attempt to listen on a port.
#[derive(Debug, Clone, Copy, PartialEq, Eq)]
pub enum BindDecision {
    /// The attempt succeeded: the host listens on this port.
    Bound(u16),
    /// The attempt failed: try this port next.
    TryPort(u16),
    /// The attempt on the last port failed: there is none left to try.
    GiveUp,
}

/// The port that the room host tries first.
pub fn first_candidate_port() -> (port: u16)
    ensures
        port == FIRST_ROOM_PORT,
{
    FIRST_ROOM_PORT
}

/// The next step of the search after trying `port`: the first port that
/// binds is kept; a failed port is followed by the next one in the range;
/// after the last one the search gives up.
pub fn after_bind_attempt(port: u16, bound: bool) -> (d: BindDecision)
    requires
        FIRST_ROOM_PORT <= port < ROOM_PORT_END,
    ensures
        bound ==> d == BindDecision::Bound(port),
        !bound && port + 1 < ROOM_PORT_END ==> d == BindDecision::TryPort((port + 1) as u16),
        !bound && port + 1 >= ROOM_PORT_END ==> d == BindDecision::GiveUp,
{
    if bound {
        BindDecision::Bound(port)
    } else if port + 1 < ROOM_PORT_END {
        BindDecision::TryPort(port + 1)
    } else {
        BindDecision::GiveUp
    }
}

/// Whether `c` is white space in Unicode (what `char::is_whitespace`
/// tests, and what `str::trim` removes).
pub open spec fn is_white_space(c: char) -> bool {
    ||| '\u{9}' <= c <= '\u{d}'
    ||| c == ' '
    ||| c == '\u{85}'
    ||| c == '\u{a0}'
    ||| c == '\u{1680}'
    ||| '\u{2000}' <= c <= '\u{200a}'
    ||| c == '\u{2028}'
    ||| c == '\u{2029}'
    ||| c == '\u{202f}'
    ||| c == '\u{205f}'
    ||| c == '\u{3000}'
}

/// The number of white-space characters at the start of `s`.
pub open spec fn leading_space(s: Seq<char>) -> nat
    decreases s.len(),
{
    if s.len() > 0 && is_white_space(s[0]) {
        1 + leading_space(s.drop_first())
    } else {
        0
    }
}

/// The number of white-space characters at the end of `s`.
pub open spec fn trailing_space(s: Seq<char>) -> nat
    decreases s.len(),
{
    if s.len() > 0 && is_white_space(s.last()) {
        1 + trailing_space(s.drop_last())
    } else {
        0
    }
}

/// `s` without its leading white space.
pub open spec fn trim_start(s: Seq<char>) -> Seq<char> {
    s.subrange(leading_space(s) as int, s.len() as int)
}

/// `s` without its trailing white space.
pub open spec fn trim_end(s: Seq<char>) -> Seq<char> {
    s.subrange(0, s.len() - trailing_space(s))
}

/// `s` without white space at either end (as `str::trim`).
pub open spec fn trim(s: Seq<char>) -> Seq<char> {
    trim_end(trim_start(s))
}

/// Whether `c` is an ASCII decimal digit.
pub open spec fn is_digit(c: char) -> bool {
    '0' <= c <= '9'
}

/// The value of the decimal digit `c`.
pub open spec fn digit_value(c: char) -> int {
    c as int - '0' as int
}

/// The character of the decimal digit `d` (`0 <= d < 10`).
pub open spec fn digit_char(d: int) -> char {
    if d == 0 {
        '0'
    } else if d == 1 {
        '1'
    } else if d == 2 {
        '2'
    } else if d == 3 {
        '3'
    } else if d == 4 {
        '4'
    } else if d == 5 {
        '5'
    } else if d == 6 {
        '6'
    } else if d == 7 {
        '7'
    } else if d == 8 {
        '8'
    } else {
        '9'
    }
}

/// Whether every character of `s` is a decimal digit.
pub open spec fn all_digits(s: Seq<char>) -> bool {
    forall|i: int| 0 <= i < s.len() ==> is_digit(#[trigger] s[i])
}

/// The number that the decimal digits `s` denote (leading zeros allowed).
pub open spec fn decimal_value(s: Seq<char>) -> int
    decreases s.len(),
{
    if s.len() == 0 {
        0
    } else {
        decimal_value(s.drop_last()) * 10 + digit_value(s.last())
    }
}

/// The decimal digits of `n`, without leading zeros (`"0"` for zero).
pub open spec fn decimal_digits(n: nat) -> Seq<char>
    decreases n,
{
    if n < 10 {
        seq![digit_char(n as int)]
    } else {
        decimal_digits(n / 10).push(digit_char((n % 10) as int))
    }
}

/// The port that a text denotes as the port of a socket address: one or
/// more decimal digits, leading zeros allowed, whose value fits in a port.
pub open spec fn spec_parse_port(s: Seq<char>) -> Option<u16> {
    if s.len() > 0 && all_digits(s) && decimal_value(s) <= u16::MAX {
        Some(decimal_value(s) as u16)
    } else {
        None
    }
}

/// The port that the server takes from the line of the room host: the
/// line without surrounding white space, read as a port.
pub open spec fn spec_parse_port_line(line: Seq<char>) -> Option<u16> {
    spec_parse_port(trim(line))
}

/// The line that the room host writes: the decimal port and a newline,
/// or a bare newline when no port could be bound.
pub open spec fn spec_port_line(port: Option<u16>) -> Seq<char> {
    match port {
        Some(p) => decimal_digits(p as nat).push('\n'),
        None => seq!['\n'],
    }
}

proof fn lemma_digit_char(d: int)
    requires
        0 <= d < 10,
    ensures
        is_digit(digit_char(d)),
        !is_white_space(digit_char(d)),
        digit_value(digit_char(d)) == d,
{
}

proof fn lemma_decimal_digits(n: nat)
    ensures
        decimal_digits(n).len() > 0,
        all_digits(decimal_digits(n)),
        decimal_value(decimal_digits(n)) == n,
        !is_white_space(decimal_digits(n)[0]),
        !is_white_space(decimal_digits(n).last()),
    decreases n,
{
    if n < 10 {
        lemma_digit_char(n as int);
        assert(decimal_digits(n).drop_last() =~= Seq::<char>::empty());
        assert(decimal_value(Seq::<char>::empty()) == 0);
        assert(decimal_value(decimal_digits(n)) == decimal_value(decimal_digits(n).drop_last()) * 10
            + digit_value(decimal_digits(n).last()));
    } else {
        lemma_decimal_digits(n / 10);
        lemma_digit_char((n % 10) as int);
        let s = decimal_digits(n);
        assert(s.drop_last() =~= decimal_digits(n / 10));
        assert(s.last() == digit_char((n % 10) as int));
        assert(n == (n / 10) * 10 + n % 10) by (nonlinear_arith);
        assert(decimal_value(s) == decimal_value(s.drop_last()) * 10 + digit_value(s.last()));
        assert(s[0] == decimal_digits(n / 10)[0]);
        assert forall|i: int| 0 <= i < s.len() implies is_digit(#[trigger] s[i]) by {
            if i < s.len() - 1 {
                assert(s[i] == decimal_digits(n / 10)[i]);
            }
        }
    }
}

/// The server reads back exactly the port that the room host reported, and
/// reads no port from the line of a room host that bound none.
pub proof fn lemma_port_line_round_trip(port: Option<u16>)
    ensures
        spec_parse_port_line(spec_port_line(port)) == port,
{
    match port {
        Some(p) => {
            let d = decimal_digits(p as nat);
            lemma_decimal_digits(p as nat);
            let line = d.push('\n');
            assert(line[0] == d[0]);
            assert(leading_space(line) == 0);
            assert(trim_start(line) =~= line);
            assert(line.drop_last() =~= d);
            assert(trailing_space(d) == 0);
            assert(trailing_space(line) == 1);
            assert(trim(line) =~= d);
        },
        None => {
            let line = seq!['\n'];
            assert(line.drop_first() =~= Seq::<char>::empty());
            assert(is_white_space(line[0]));
            assert(leading_space(line.drop_first()) == 0);
            assert(leading_space(line) == 1);
            assert(trim_start(line) =~= Seq::<char>::empty());
            assert(trim(line) =~= Seq::<char>::empty());
        },
    }
}

proof fn lemma_leading_space_step(s: Seq<char>, i: int)
    requires
        0 <= i < s.len(),
        is_white_space(s[i]),
    ensures
        leading_space(s.subrange(i, s.len() as int)) == 1 + leading_space(
            s.subrange(i + 1, s.len() as int),
        ),
{
    assert(s.subrange(i, s.len() as int).drop_first() =~= s.subrange(i + 1, s.len() as int));
}

proof fn lemma_trailing_space_step(s: Seq<char>, lo: int, j: int)
    requires
        0 <= lo < j <= s.len(),
        is_white_space(s[j - 1]),
    ensures
        trailing_space(s.subrange(lo, j)) == 1 + trailing_space(s.subrange(lo, j - 1)),
{
    assert(s.subrange(lo, j).drop_last() =~= s.subrange(lo, j - 1));
}

/// The value of a prefix of decimal digits is at most that of the whole.
proof fn lemma_decimal_prefix_le(s: Seq<char>, k: int)
    requires
        0 <= k <= s.len(),
        all_digits(s),
    ensures
        decimal_value(s.subrange(0, k)) <= decimal_value(s),
    decreases s.len() - k,
{
    if k < s.len() {
        lemma_decimal_prefix_le(s, k + 1);
        let p = s.subrange(0, k + 1);
        assert(p.drop_last() =~= s.subrange(0, k));
        assert(is_digit(s[k]));
        lemma_decimal_value_nonneg(s.subrange(0, k));
    } else {
        assert(s.subrange(0, k) =~= s);
    }
}

proof fn lemma_decimal_value_nonneg(s: Seq<char>)
    requires
        all_digits(s),
    ensures
        decimal_value(s) >= 0,
    decreases s.len(),
{
    if s.len() > 0 {
        assert(all_digits(s.drop_last())) by {
            assert forall|i: int| 0 <= i < s.drop_last().len() implies is_digit(
                #[trigger] s.drop_last()[i],
            ) by {
                assert(s.drop_last()[i] == s[i]);
            }
        }
        lemma_decimal_value_nonneg(s.drop_last());
        assert(is_digit(s[s.len() - 1]));
    }
}

/// Reads a port out of the characters `lo..hi` of `line`.
fn parse_port_range(line: &str, lo: usize, hi: usize) -> (port: Option<u16>)
    requires
        lo <= hi <= line@.len(),
    ensures
        port == spec_parse_port(line@.subrange(lo as int, hi as int)),
{
    let ghost s = line@.subrange(lo as int, hi as int);
    if lo == hi {
        return None;
    }
    let mut value: u32 = 0;
    let mut i: usize = lo;
    while i < hi
        invariant
            lo <= i <= hi <= line@.len(),
            s == line@.subrange(lo as int, hi as int),
            all_digits(s.subrange(0, i - lo)),
            value == decimal_value(s.subrange(0, i - lo)),
            value <= u16::MAX,
        decreases hi - i,
    {
        let c = line.get_char(i);
        if !('0' <= c && c <= '9') {
            assert(!all_digits(s)) by {
                assert(s[i - lo] == c);
            }
            return None;
        }
        let d = (c as u32) - ('0' as u32);
        let ghost prefix = s.subrange(0, i - lo + 1);
        assert(prefix.drop_last() =~= s.subrange(0, i - lo));
        assert(prefix.last() == c);
        assert(all_digits(prefix)) by {
            assert forall|j: int| 0 <= j < prefix.len() implies is_digit(#[trigger] prefix[j]) by {
                if j < i - lo {
                    assert(prefix[j] == s.subrange(0, i - lo)[j]);
                }
            }
        }
        if value * 10 + d > 65535 {
            proof {
                if all_digits(s) {
                    lemma_decimal_prefix_le(s, i - lo + 1);
                }
            }
            return None;
        }
        value = value * 10 + d;
        i = i + 1;
    }
    assert(s.subrange(0, hi - lo) =~= s);
    Some(value as u16)
}

/// The port that the server takes from the line written by the room host
/// (the line is trimmed and read as the port of
/// a socket address). `None` when the trimmed line is not one or more
/// decimal digits, or their value does not fit in a port.
pub fn parse_port_line(line: &str) -> (port: Option<u16>)
    ensures
        port == spec_parse_port_line(line@),
{
    let n = line.unicode_len();
    let ghost s = line@;
    let mut lo: usize = 0;
    assert(s.subrange(0, n as int) =~= s);
    while lo < n && is_white_space_char(line.get_char(lo))
        invariant
            n == s.len(),
            s == line@,
            lo <= n,
            leading_space(s) == lo + leading_space(s.subrange(lo as int, n as int)),
        decreases n - lo,
    {
        proof {
            lemma_leading_space_step(s, lo as int);
        }
        lo = lo + 1;
    }
    assert(leading_space(s) == lo);
    let ghost t = trim_start(s);
    assert(t =~= s.subrange(lo as int, n as int));
    let mut hi: usize = n;
    while hi > lo && is_white_space_char(line.get_char(hi - 1))
        invariant
            n == s.len(),
            s == line@,
            lo <= hi <= n,
            trailing_space(s.subrange(lo as int, n as int)) == (n - hi) + trailing_space(
                s.subrange(lo as int, hi as int),
            ),
        decreases hi - lo,
    {
        proof {
            lemma_trailing_space_step(s, lo as int, hi as int);
        }
        hi = hi - 1;
    }
    assert(trailing_space(s.subrange(lo as int, hi as int)) == 0);
    assert(trim(s) =~= s.subrange(lo as int, hi as int));
    parse_port_range(line, lo, hi)
}

/// Whether `c` is white space in Unicode.
fn is_white_space_char(c: char) -> (b: bool)
    ensures
        b == is_white_space(c),
{
    ('\u{9}' <= c && c <= '\u{d}') || c == ' ' || c == '\u{85}' || c == '\u{a0}' || c
        == '\u{1680}' || ('\u{2000}' <= c && c <= '\u{200a}') || c == '\u{2028}' || c
        == '\u{2029}' || c == '\u{202f}' || c == '\u{205f}' || c == '\u{3000}'
}

/// The character of the decimal digit `d`.
fn digit_char_of(d: u16) -> (c: char)
    requires
        d < 10,
    ensures
        c == digit_char(d as int),
{
    if d == 0 {
        '0'
    } else if d == 1 {
        '1'
    } else if d == 2 {
        '2'
    } else if d == 3 {
        '3'
    } else if d == 4 {
        '4'
    } else if d == 5 {
        '5'
    } else if d == 6 {
        '6'
    } else if d == 7 {
        '7'
    } else if d == 8 {
        '8'
    } else {
        '9'
    }
}

/// Appends the decimal digits of `n` to `s`.
fn push_decimal(s: &mut String, n: u16)
    ensures
        final(s)@ == old(s)@ + decimal_digits(n as nat),
    decreases n,
{
    if n >= 10 {
        push_decimal(s, n / 10);
        push_char(s, digit_char_of(n % 10));
        assert(decimal_digits(n as nat) == decimal_digits((n / 10) as nat).push(
            digit_char((n % 10) as int),
        ));
        assert(final(s)@ =~= old(s)@ + decimal_digits(n as nat));
    } else {
        push_char(s, digit_char_of(n));
        assert(final(s)@ =~= old(s)@ + decimal_digits(n as nat));
    }
}

/// The line that the room host prints for the outcome of its search:
/// the decimal port then a newline, or only a newline when no port bound.
pub fn port_line(port: Option<u16>) -> (line: String)
    ensures
        line@ == spec_port_line(port),
{
    let mut line = String::new();
    match port {
        Some(p) => {
            push_decimal(&mut line, p);
        },
        None => {},
    }
    push_char(&mut line, '\n');
    assert(line@ =~= spec_port_line(port));
    line
}

} // verus!
