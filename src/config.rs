//! Process settings: where the data lives, where the servers listen, and the
//! limits of binary-protocol connections.
use vstd::prelude::*;
use vstd::utf8::encode_utf8;

verus! {

/// The value of a run of ASCII decimal digits.
pub open spec fn digits_value(d: Seq<u8>) -> nat
    decreases d.len(),
{
    if d.len() == 0 {
        0
    } else {
        digits_value(d.drop_last()) * 10 + (d.last() - 48) as nat
    }
}

pub open spec fn is_digit(b: u8) -> bool {
    48 <= b <= 57
}

pub open spec fn all_digits(d: Seq<u8>) -> bool {
    forall|i: int| 0 <= i < d.len() ==> is_digit(#[trigger] d[i])
}

/// The digits of an unsigned decimal numeral, after an optional `+`.
pub open spec fn numeral_digits(s: Seq<u8>) -> Seq<u8> {
    if s.len() > 0 && s[0] == 43 {
        s.drop_first()
    } else {
        s
    }
}

/// The unsigned integer that the text `s` writes in decimal, where it is at
/// most `max`: an optional `+`, then one digit or more, and nothing else.
pub open spec fn parse_decimal(s: Seq<u8>, max: nat) -> Option<nat> {
    let d = numeral_digits(s);
    if d.len() > 0 && all_digits(d) && digits_value(d) <= max {
        Some(digits_value(d))
    } else {
        None
    }
}

proof fn lemma_digits_prefix_le(d: Seq<u8>, j: int)
    requires
        all_digits(d),
        0 <= j <= d.len(),
    ensures
        digits_value(d.subrange(0, j)) <= digits_value(d),
    decreases d.len(),
{
    if j < d.len() {
        let p = d.drop_last();
        assert(all_digits(p));
        assert(p.subrange(0, j) =~= d.subrange(0, j));
        lemma_digits_prefix_le(p, j);
    } else {
        assert(d.subrange(0, j) =~= d);
    }
}

/// Reads an unsigned decimal numeral that fits in a `u64`.
pub fn parse_u64(s: &str) -> (r: Option<u64>)
    ensures
        match r {
            Some(v) => parse_decimal(encode_utf8(s@), u64::MAX as nat) == Some(v as nat),
            None => parse_decimal(encode_utf8(s@), u64::MAX as nat) is None,
        },
{
    let b = s.as_bytes();
    let ghost text = b@;
    let start: usize = if b.len() > 0 && b[0] == 43 { 1 } else { 0 };
    let ghost d = numeral_digits(text);
    assert(d =~= text.subrange(start as int, text.len() as int));
    if start == b.len() {
        return None;
    }
    let mut acc: u64 = 0;
    let mut i: usize = start;
    while i < b.len()
        invariant
            b@ == text,
            text == encode_utf8(s@),
            d == numeral_digits(text),
            d == text.subrange(start as int, text.len() as int),
            start <= i <= text.len(),
            all_digits(d.subrange(0, i - start)),
            acc as nat == digits_value(d.subrange(0, i - start)),
        decreases text.len() - i,
    {
        let c = b[i];
        if c < 48 || c > 57 {
            assert(d[i - start] == c);
            assert(!is_digit(d[i - start]));
            assert(!all_digits(d));
            return None;
        }
        let digit = (c - 48) as u64;
        let ghost prev = d.subrange(0, i - start);
        let ghost next = d.subrange(0, i + 1 - start);
        assert(next.drop_last() =~= prev);
        assert(all_digits(next));
        if acc > (u64::MAX - digit) / 10 {
            proof {
                if all_digits(d) {
                    lemma_digits_prefix_le(d, i + 1 - start);
                    assert(digits_value(next) > u64::MAX);
                }
            }
            return None;
        }
        acc = acc * 10 + digit;
        i = i + 1;
    }
    assert(d.subrange(0, d.len() as int) =~= d);
    Some(acc)
}

/// The process settings.
#[derive(Clone, Debug)]
pub struct Config {
    pub data_dir: String,
    pub bind_addr: String,
    pub http_bind_addr: String,
    /// Maximum concurrent binary protocol connections. 0 = unlimited.
    pub max_connections: usize,
    /// Read timeout for binary protocol connections in seconds.
    pub connection_read_timeout_secs: u64,
    /// Write timeout for binary protocol connections in seconds.
    pub connection_write_timeout_secs: u64,
}

/// A text setting: the value given, else the default.
pub open spec fn text_setting(v: Option<String>, default: Seq<char>) -> Seq<char> {
    match v {
        Some(s) => s@,
        None => default,
    }
}

/// A numeric setting: the value given where it reads as a number of at most
/// `max`, else the default.
pub open spec fn number_setting(v: Option<String>, max: nat, default: nat) -> nat {
    match v {
        Some(s) => match parse_decimal(encode_utf8(s@), max) {
            Some(n) => n,
            None => default,
        },
        None => default,
    }
}

fn text_or(v: Option<String>, default: &str) -> (r: String)
    ensures
        r@ == text_setting(v, default@),
{
    match v {
        Some(s) => s,
        None => default.to_owned(),
    }
}

fn number_or(v: &Option<String>, max: u64, default: u64) -> (r: u64)
    requires
        default <= max,
    ensures
        r as nat == number_setting(*v, max as nat, default as nat),
{
    match v {
        Some(s) => match parse_u64(s.as_str()) {
            Some(n) => {
                if n <= max {
                    n
                } else {
                    default
                }
            },
            None => default,
        },
        None => default,
    }
}

impl Config {
    /// The settings from the values of the variables `CXDB_DATA_DIR`,
    /// `CXDB_BIND`, `CXDB_HTTP_BIND`, `CXDB_MAX_CONNECTIONS`,
    /// `CXDB_CONNECTION_READ_TIMEOUT_SECS` and
    /// `CXDB_CONNECTION_WRITE_TIMEOUT_SECS`, each `None` where unset. An unset
    /// variable, or a number that does not read as one, takes the default.
    pub fn from_values(
        data_dir: Option<String>,
        bind_addr: Option<String>,
        http_bind_addr: Option<String>,
        max_connections: Option<String>,
        read_timeout_secs: Option<String>,
        write_timeout_secs: Option<String>,
    ) -> (r: Config)
        ensures
            r.data_dir@ == text_setting(data_dir, "./data"@),
            r.bind_addr@ == text_setting(bind_addr, "127.0.0.1:9009"@),
            r.http_bind_addr@ == text_setting(http_bind_addr, "127.0.0.1:9010"@),
            r.max_connections as nat == number_setting(max_connections, usize::MAX as nat, 512),
            r.connection_read_timeout_secs as nat == number_setting(
                read_timeout_secs,
                u64::MAX as nat,
                300,
            ),
            r.connection_write_timeout_secs as nat == number_setting(
                write_timeout_secs,
                u64::MAX as nat,
                30,
            ),
    {
        let max_connections = number_or(&max_connections, usize::MAX as u64, 512) as usize;
        let connection_read_timeout_secs = number_or(&read_timeout_secs, u64::MAX, 300);
        let connection_write_timeout_secs = number_or(&write_timeout_secs, u64::MAX, 30);
        Config {
            data_dir: text_or(data_dir, "./data"),
            bind_addr: text_or(bind_addr, "127.0.0.1:9009"),
            http_bind_addr: text_or(http_bind_addr, "127.0.0.1:9010"),
            max_connections,
            connection_read_timeout_secs,
            connection_write_timeout_secs,
        }
    }
}

} // verus!
