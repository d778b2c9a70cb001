use vstd::prelude::*;
use vstd::string::StringExecFns;

verus! {

/// A host (name or literal address) and a port.
#[derive(Debug)]
pub struct Endpoint {
    pub addr: String,
    pub port: u16,
}

impl Clone for Endpoint {
    fn clone(&self) -> (r: Endpoint)
        ensures
            r == *self,
    {
        Endpoint { addr: self.addr.clone(), port: self.port }
    }
}

impl PartialEq for Endpoint {
    fn eq(&self, o: &Endpoint) -> (r: bool) {
        self.port == o.port && self.addr == o.addr
    }
}

impl vstd::std_specs::cmp::PartialEqSpecImpl for Endpoint {
    open spec fn obeys_eq_spec() -> bool {
        true
    }

    open spec fn eq_spec(&self, o: &Endpoint) -> bool {
        self.addr@ == o.addr@ && self.port == o.port
    }
}

impl Eq for Endpoint {

}

/// Why a text is not an endpoint.
#[derive(PartialEq, Eq, Structural, Debug, Clone, Copy)]
pub enum EndpointError {
    /// There is no `:` between address and port.
    MissingSeparator,
    /// The address before the last `:` is empty or only whitespace.
    EmptyAddress,
    /// The text after the last `:` is not a port number.
    InvalidPort,
}

/// What `str::trim` leaves of `s`.
pub uninterp spec fn trimmed(s: Seq<char>) -> Seq<char>;

/// `part` is a contiguous run of `whole`.
pub open spec fn is_slice_of(part: Seq<char>, whole: Seq<char>) -> bool {
    exists|i: int, j: int| 0 <= i <= j <= whole.len() && part == whole.subrange(i, j)
}

/// Relies on `str::trim`: the slice without leading and trailing whitespace,
/// which depends on the characters alone and is a contiguous part of `s`.
#[verifier::external_body]
fn trim<'a>(s: &'a str) -> (r: &'a str)
    ensures
        r@ == trimmed(s@),
        is_slice_of(r@, s@),
{
    s.trim()
}

/// `k` is the position of the last `:` in `s`.
pub open spec fn is_last_colon(s: Seq<char>, k: int) -> bool {
    &&& 0 <= k < s.len()
    &&& s[k] == ':'
    &&& forall|j: int| k < j < s.len() ==> s[j] != ':'
}

/// The position of the last `:` in `s`, where there is one.
pub open spec fn last_colon(s: Seq<char>) -> int {
    choose|k: int| is_last_colon(s, k)
}

pub open spec fn is_digit(c: char) -> bool {
    '0' <= c <= '9'
}

/// The value of a decimal digit.
pub open spec fn digit_value(c: char) -> nat {
    (c as int - '0' as int) as nat
}

/// The number that the decimal digits `d` spell.
pub open spec fn digits_value(d: Seq<char>) -> nat
    decreases d.len(),
{
    if d.len() == 0 {
        0
    } else {
        digits_value(d.drop_last()) * 10 + digit_value(d.last())
    }
}

/// The digits of a port text: without one leading `+`.
pub open spec fn port_digits(s: Seq<char>) -> Seq<char> {
    if s.len() > 0 && s[0] == '+' {
        s.drop_first()
    } else {
        s
    }
}

/// The port that `s` spells, as `u16`'s `FromStr` reads it: an optional `+`,
/// then one or more decimal digits of a value that fits.
pub open spec fn port_value(s: Seq<char>) -> Option<u16> {
    let d = port_digits(s);
    if d.len() > 0 && (forall|i: int| 0 <= i < d.len() ==> is_digit(d[i])) && digits_value(d)
        <= u16::MAX {
        Some(digits_value(d) as u16)
    } else {
        None
    }
}

/// What `addr:port` text means: the trimmed text before the last `:` and the
/// port after it.
pub open spec fn endpoint_of(s: Seq<char>) -> Result<(Seq<char>, u16), EndpointError> {
    if !s.contains(':') {
        Err(EndpointError::MissingSeparator)
    } else {
        let k = last_colon(s);
        let addr = trimmed(s.subrange(0, k));
        if addr.len() == 0 {
            Err(EndpointError::EmptyAddress)
        } else {
            match port_value(s.subrange(k + 1, s.len() as int)) {
                Some(p) => Ok((addr, p)),
                None => Err(EndpointError::InvalidPort),
            }
        }
    }
}

proof fn lemma_prefix_value_le(d: Seq<char>, k: int)
    requires
        0 <= k <= d.len(),
        forall|i: int| 0 <= i < d.len() ==> is_digit(d[i]),
    ensures
        digits_value(d.take(k)) <= digits_value(d),
    decreases d.len(),
{
    if k < d.len() {
        assert(d.drop_last().take(k) =~= d.take(k));
        lemma_prefix_value_le(d.drop_last(), k);
    } else {
        assert(d.take(k) =~= d);
    }
}

/// Reads a port number as `u16`'s `FromStr` does.
pub fn parse_port(s: &str) -> (r: Option<u16>)
    ensures
        r == port_value(s@),
{
    let n = s.unicode_len();
    let mut start: usize = 0;
    if n > 0 && s.get_char(0) == '+' {
        start = 1;
    }
    let ghost d = port_digits(s@);
    assert(d =~= s@.subrange(start as int, n as int));
    if start == n {
        return None;
    }
    let mut i: usize = start;
    while i < n
        invariant
            start <= i <= n,
            n == s@.len(),
            d == s@.subrange(start as int, n as int),
            d == port_digits(s@),
            forall|j: int| 0 <= j < i - start ==> is_digit(d[j]),
        decreases n - i,
    {
        let c = s.get_char(i);
        if !('0' <= c && c <= '9') {
            assert(!is_digit(d[i - start]));
            return None;
        }
        i = i + 1;
    }
    let mut v: u32 = 0;
    let mut i: usize = start;
    while i < n
        invariant
            start <= i <= n,
            n == s@.len(),
            d == s@.subrange(start as int, n as int),
            d == port_digits(s@),
            forall|j: int| 0 <= j < d.len() ==> is_digit(d[j]),
            v as nat == digits_value(d.take(i - start)),
            v <= u16::MAX,
        decreases n - i,
    {
        let c = s.get_char(i);
        assert(d.take(i - start + 1).drop_last() =~= d.take(i - start));
        assert(d[i - start] == c);
        v = v * 10 + (c as u32 - '0' as u32);
        i = i + 1;
        if v > u16::MAX as u32 {
            proof {
                lemma_prefix_value_le(d, i - start);
            }
            return None;
        }
    }
    assert(d.take(n - start) =~= d);
    Some(v as u16)
}

impl Endpoint {
    /// Reads `addr:port`: the address is the trimmed text before the last `:`,
    /// the port the text after it.
    pub fn parse(s: &str) -> (r: Result<Endpoint, EndpointError>)
        ensures
            match endpoint_of(s@) {
                Ok((a, p)) => r is Ok && r->Ok_0.addr@ == a && r->Ok_0.port == p,
                Err(e) => r == Err::<Endpoint, EndpointError>(e),
            },
    {
        let n = s.unicode_len();
        let mut i: usize = n;
        while i > 0 && s.get_char(i - 1) != ':'
            invariant
                i <= n,
                n == s@.len(),
                forall|j: int| i <= j < n ==> s@[j] != ':',
            decreases i,
        {
            i = i - 1;
        }
        if i == 0 {
            assert(!s@.contains(':'));
            return Err(EndpointError::MissingSeparator);
        }
        let k: usize = i - 1;
        assert(is_last_colon(s@, k as int));
        assert(s@.contains(':'));
        proof {
            let c = last_colon(s@);
            if c < k {
                assert(s@[k as int] == ':');
            }
            if c > k {
                assert(s@[c] == ':');
            }
        }
        let addr = trim(s.substring_char(0, k));
        Endpoint::from_trimmed(addr, s.substring_char(k + 1, n))
    }

    /// The endpoint for an address already trimmed and the text of a port:
    /// an empty address is refused, then the port is read.
    pub fn from_trimmed(addr: &str, port: &str) -> (r: Result<Endpoint, EndpointError>)
        ensures
            addr@.len() == 0 ==> r == Err::<Endpoint, EndpointError>(EndpointError::EmptyAddress),
            addr@.len() > 0 ==> match port_value(port@) {
                Some(p) => r is Ok && r->Ok_0.addr@ == addr@ && r->Ok_0.port == p,
                None => r == Err::<Endpoint, EndpointError>(EndpointError::InvalidPort),
            },
    {
        if addr.unicode_len() == 0 {
            return Err(EndpointError::EmptyAddress);
        }
        match parse_port(port) {
            Some(port) => Ok(Endpoint { addr: addr.to_owned(), port }),
            None => Err(EndpointError::InvalidPort),
        }
    }

    /// The endpoint as `addr:port` text, the port in decimal.
    pub fn to_text(&self) -> (r: String)
        ensures
            r@ == self.addr@ + seq![':'] + decimal_chars(self.port as nat),
    {
        let mut t = self.addr.clone();
        let ghost a = t@;
        proof {
            reveal_strlit(":");
        }
        t.append(":");
        push_decimal_chars(&mut t, self.port as u32);
        assert(t@ =~= a + seq![':'] + decimal_chars(self.port as nat));
        t
    }
}

/// The decimal digit character of `d`, below ten.
pub open spec fn digit_of(d: nat) -> char {
    ('0' as nat + d) as char
}

/// `n` in decimal, without leading zeros.
pub open spec fn decimal_chars(n: nat) -> Seq<char>
    decreases n,
{
    if n < 10 {
        seq![digit_of(n)]
    } else {
        decimal_chars(n / 10).push(digit_of(n % 10))
    }
}

fn digit_text(d: u32) -> (r: &'static str)
    requires
        d < 10,
    ensures
        r@ == seq![digit_of(d as nat)],
{
    proof {
        reveal_strlit("0");
        reveal_strlit("1");
        reveal_strlit("2");
        reveal_strlit("3");
        reveal_strlit("4");
        reveal_strlit("5");
        reveal_strlit("6");
        reveal_strlit("7");
        reveal_strlit("8");
        reveal_strlit("9");
    }
    let r = if d == 0 {
        "0"
    } else if d == 1 {
        "1"
    } else if d == 2 {
        "2"
    } else if d == 3 {
        "3"
    } else if d == 4 {
        "4"
    } else if d == 5 {
        "5"
    } else if d == 6 {
        "6"
    } else if d == 7 {
        "7"
    } else if d == 8 {
        "8"
    } else {
        "9"
    };
    assert(r@ =~= seq![digit_of(d as nat)]);
    r
}

fn push_decimal_chars(t: &mut String, n: u32)
    ensures
        final(t)@ == old(t)@ + decimal_chars(n as nat),
    decreases n,
{
    if n >= 10 {
        push_decimal_chars(t, n / 10);
    }
    t.append(digit_text(n % 10));
    assert(t@ =~= old(t)@ + decimal_chars(n as nat));
}

impl core::str::FromStr for Endpoint {
    type Err = EndpointError;

    fn from_str(s: &str) -> Result<Endpoint, EndpointError> {
        Endpoint::parse(s)
    }
}

} // verus!
