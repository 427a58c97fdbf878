//! Service configuration and the rule that turns its settings into values.

use vstd::prelude::*;
use crate::text::chars_of;

verus! {

/// The port the service listens on when none, or no valid one, is set.
pub const DEFAULT_PORT: u16 = 3001;

/// Service configuration.
#[derive(Debug, Clone)]
pub struct Config {
    pub fmp_api_key: Option<String>,
    pub redis_url: Option<String>,
    pub port: u16,
}

/// `c` is an ASCII decimal digit.
pub open spec fn is_digit(c: char) -> bool {
    '0' <= c <= '9'
}

/// Every character of `s` is an ASCII decimal digit.
pub open spec fn all_digits(s: Seq<char>) -> bool {
    forall|i: int| 0 <= i < s.len() ==> is_digit(#[trigger] s[i])
}

/// The number that the decimal digits `s` spell, most significant first.
pub open spec fn digits_value(s: Seq<char>) -> nat
    decreases s.len(),
{
    if s.len() == 0 {
        0
    } else {
        digits_value(s.drop_last()) * 10 + ((s.last() as int) - ('0' as int)) as nat
    }
}

/// What `u16::from_str` gives for `s`: after an optional leading `+`, one or
/// more ASCII digits whose value fits in 16 bits; anything else is refused.
pub open spec fn parse_u16_spec(s: Seq<char>) -> Option<u16> {
    let digits = if s.len() > 0 && s[0] == '+' {
        s.drop_first()
    } else {
        s
    };
    if digits.len() > 0 && all_digits(digits) && digits_value(digits) <= u16::MAX {
        Some(digits_value(digits) as u16)
    } else {
        None
    }
}

/// The port that a `PORT` setting gives: its value when it parses as a port
/// number, and `DEFAULT_PORT` when it is unset or does not parse.
pub open spec fn port_from_setting(setting: Option<Seq<char>>) -> u16 {
    match setting {
        Some(s) => match parse_u16_spec(s) {
            Some(p) => p,
            None => DEFAULT_PORT,
        },
        None => DEFAULT_PORT,
    }
}

/// The ASCII digit of `d`, for `d` below ten.
pub open spec fn digit_char(d: nat) -> char {
    if d == 0 {
        '0'
    } else if d == 1 {
        '1'
    } else if d == 2 {
        '2'
    } else if d == 3 {
        '3'
    } else if d == 4 {
        '4'
    } else if d == 5 {
        '5'
    } else if d == 6 {
        '6'
    } else if d == 7 {
        '7'
    } else if d == 8 {
        '8'
    } else {
        '9'
    }
}

/// `n` written in decimal, without leading zeros.
pub open spec fn decimal(n: nat) -> Seq<char>
    decreases n,
{
    if n < 10 {
        seq![digit_char(n)]
    } else {
        decimal(n / 10).push(digit_char(n % 10))
    }
}

/// Writing a number in decimal gives digits that spell it.
pub proof fn lemma_decimal(n: nat)
    ensures
        decimal(n).len() > 0,
        all_digits(decimal(n)),
        digits_value(decimal(n)) == n,
    decreases n,
{
    let d = n % 10;
    assert(is_digit(digit_char(d)));
    assert(digit_char(d) as int - '0' as int == d);
    if n < 10 {
        assert(decimal(n).drop_last() =~= Seq::<char>::empty());
        assert(digits_value(Seq::<char>::empty()) == 0);
        assert(decimal(n).last() == digit_char(d));
        assert(d == n);
    } else {
        lemma_decimal(n / 10);
        assert(decimal(n).drop_last() =~= decimal(n / 10));
        assert(forall|i: int|
            0 <= i < decimal(n).len() ==> #[trigger] decimal(n)[i] == (if i < decimal(n / 10).len() {
                decimal(n / 10)[i]
            } else {
                digit_char(d)
            }));
        assert(decimal(n).last() == digit_char(d));
        assert(digits_value(decimal(n)) == digits_value(decimal(n / 10)) * 10 + d);
        assert((n / 10) * 10 + d == n);
    }
}

/// `k` zero digits.
pub open spec fn zeros(k: nat) -> Seq<char> {
    Seq::new(k, |i: int| '0')
}

/// Leading zeros do not change the value of a digit string.
pub proof fn lemma_leading_zeros(k: nat, d: Seq<char>)
    requires
        all_digits(d),
    ensures
        all_digits(zeros(k) + d),
        digits_value(zeros(k) + d) == digits_value(d),
    decreases d.len(), k,
{
    assert(all_digits(zeros(k) + d)) by {
        assert forall|i: int| 0 <= i < (zeros(k) + d).len() implies is_digit(
            #[trigger] (zeros(k) + d)[i],
        ) by {
            if i >= k {
                assert((zeros(k) + d)[i] == d[i - k]);
            }
        }
    }
    if d.len() == 0 {
        assert(zeros(k) + d =~= zeros(k));
        if k > 0 {
            assert(zeros(k).drop_last() =~= zeros((k - 1) as nat) + d);
            lemma_leading_zeros((k - 1) as nat, d);
            assert(zeros(k).last() == '0');
        }
    } else {
        assert((zeros(k) + d).drop_last() =~= zeros(k) + d.drop_last());
        assert((zeros(k) + d).last() == d.last());
        assert(all_digits(d.drop_last()));
        lemma_leading_zeros(k, d.drop_last());
    }
}

/// What a `PORT` setting gives: a port written in decimal (with or without a
/// leading `+`, with any number of leading zeros) is that port, whatever its
/// value; a number beyond 65535, a setting that holds anything but digits after an optional `+`, and no
/// setting at all give 3001.
pub proof fn law_port_setting(port: u16, k: nat, m: nat, s: Seq<char>)
    ensures
        port_from_setting(Some(decimal(port as nat))) == port,
        port_from_setting(Some(seq!['+'] + decimal(port as nat))) == port,
        port_from_setting(Some(zeros(k) + decimal(port as nat))) == port,
        m > 65535 ==> port_from_setting(Some(decimal(m))) == 3001,
        port_from_setting(None) == 3001,
        (exists|i: int| 0 <= i < s.len() && !is_digit(#[trigger] s[i]) && !(i == 0 && s[i] == '+'))
            ==> port_from_setting(Some(s)) == 3001,
        s.len() == 0 ==> port_from_setting(Some(s)) == 3001,
        parse_u16_spec(s) is Some ==> port_from_setting(Some(s)) == parse_u16_spec(s)->0,
{
    lemma_decimal(port as nat);
    lemma_decimal(m);
    let d = decimal(port as nat);
    assert(!(d[0] == '+')) by {
        assert(is_digit(d[0]));
    }
    assert((seq!['+'] + d).drop_first() =~= d);
    lemma_leading_zeros(k, d);
    assert((zeros(k) + d)[0] != '+') by {
        assert(is_digit((zeros(k) + d)[0]));
    }
    assert((seq!['+'] + d)[0] == '+');
    assert(!(decimal(m)[0] == '+')) by {
        assert(is_digit(decimal(m)[0]));
    }
    if exists|i: int| 0 <= i < s.len() && !is_digit(#[trigger] s[i]) && !(i == 0 && s[i] == '+') {
        let i = choose|i: int| 0 <= i < s.len() && !is_digit(#[trigger] s[i]) && !(i == 0 && s[i] == '+');
        if s.len() > 0 && s[0] == '+' {
            assert(i > 0);
            assert(!is_digit(s.drop_first()[i - 1]));
        } else {
            assert(!is_digit(s[i]));
        }
    }
}

/// Parses a port number as `u16::from_str` does.
pub fn parse_u16(s: &str) -> (r: Option<u16>)
    ensures
        r == parse_u16_spec(s@),
{
    let cs = chars_of(s);
    let n = cs.len();
    let mut i: usize = 0;
    if n > 0 && cs[0] == '+' {
        i = 1;
    }
    let first = i;
    let ghost digits = if s@.len() > 0 && s@[0] == '+' {
        s@.drop_first()
    } else {
        s@
    };
    assert(digits =~= s@.subrange(first as int, n as int));
    if first == n {
        return None;
    }
    let mut value: u32 = 0;
    let mut too_big = false;
    while i < n
        invariant
            cs@ == s@,
            n == s@.len(),
            first <= i <= n,
            digits =~= s@.subrange(first as int, n as int),
            digits == (if s@.len() > 0 && s@[0] == '+' {
                s@.drop_first()
            } else {
                s@
            }),
            forall|k: int| first <= k < i ==> is_digit(#[trigger] s@[k]),
            !too_big ==> value == digits_value(s@.subrange(first as int, i as int)),
            !too_big ==> value <= u16::MAX,
            too_big ==> digits_value(s@.subrange(first as int, i as int)) > u16::MAX,
        decreases n - i,
    {
        let c = cs[i];
        if !('0' <= c && c <= '9') {
            assert(digits[i - first] == c);
            assert(!is_digit(digits[i - first]));
            return None;
        }
        let ghost prefix = s@.subrange(first as int, i + 1);
        assert(prefix.drop_last() =~= s@.subrange(first as int, i as int));
        assert(prefix.last() == c);
        if !too_big {
            let d: u32 = (c as u32) - ('0' as u32);
            let next = value * 10 + d;
            if next > 65535 {
                too_big = true;
            } else {
                value = next;
            }
        } else {
            assert(digits_value(prefix) >= digits_value(prefix.drop_last()));
        }
        i = i + 1;
    }
    assert(s@.subrange(first as int, n as int) =~= digits);
    assert(all_digits(digits));
    if too_big {
        None
    } else {
        Some(value as u16)
    }
}

impl Config {
    /// The configuration that the three settings give: the API key and the
    /// cache URL as they are, and the port as `port_from_setting` says.
    pub fn from_settings(
        fmp_api_key: Option<String>,
        redis_url: Option<String>,
        port: Option<String>,
    ) -> (r: Config)
        ensures
            r.fmp_api_key == fmp_api_key,
            r.redis_url == redis_url,
            r.port == port_from_setting(
                match port {
                    Some(p) => Some(p@),
                    None => None,
                },
            ),
    {
        let port_number = match &port {
            Some(p) => match parse_u16(p.as_str()) {
                Some(n) => n,
                None => DEFAULT_PORT,
            },
            None => DEFAULT_PORT,
        };
        Config { fmp_api_key, redis_url, port: port_number }
    }
}

} // verus!
