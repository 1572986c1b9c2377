use vstd::prelude::*;

use crate::text::{decimal_of, decimal_string, lowercase, lowercase_of, owned, push_char, same_text};

verus! {

/// Result of a publish as a client sees it.
#[derive(Debug, Clone)]
pub struct PublishResult {
    /// The server-assigned message id.
    pub message_id: String,
}

/// How command-line output is written.
#[derive(Clone, Copy, Debug, PartialEq, Eq, Structural)]
pub enum OutputFormat {
    Text,
    Json,
}

pub open spec fn format_named(lowered: Seq<char>) -> Option<OutputFormat> {
    if lowered == seq!['t', 'e', 'x', 't'] {
        Some(OutputFormat::Text)
    } else if lowered == seq!['j', 's', 'o', 'n'] {
        Some(OutputFormat::Json)
    } else {
        None
    }
}

pub open spec fn unknown_format_message(s: Seq<char>) -> Seq<char> {
    seq![
        'u', 'n', 'k', 'n', 'o', 'w', 'n', ' ', 'o', 'u', 't', 'p', 'u', 't', ' ', 'f', 'o', 'r',
        'm', 'a', 't', ':', ' '
    ] + s
}

/// The format named by an already lower-cased name: `text` or `json`.
pub fn output_format_of_lowered(lowered: &str) -> (r: Option<OutputFormat>)
    ensures
        r == format_named(lowered@),
{
    let text = "text";
    let json = "json";
    proof {
        reveal_strlit("text");
        reveal_strlit("json");
        assert(text@ =~= seq!['t', 'e', 'x', 't']);
        assert(json@ =~= seq!['j', 's', 'o', 'n']);
    }
    if same_text(lowered, text) {
        Some(OutputFormat::Text)
    } else if same_text(lowered, json) {
        Some(OutputFormat::Json)
    } else {
        None
    }
}

/// Parses an output format name, ignoring case.
pub fn parse_output_format(s: &str) -> (r: Result<OutputFormat, String>)
    ensures
        format_named(lowercase_of(s@)) matches Some(f) ==> r == Ok::<OutputFormat, String>(f),
        format_named(lowercase_of(s@)) is None ==> (r matches Err(m) && m@
            == unknown_format_message(s@)),
{
    let lowered = lowercase(s);
    match output_format_of_lowered(lowered.as_str()) {
        Some(f) => Ok(f),
        None => {
            let prefix = "unknown output format: ";
            proof {
                reveal_strlit("unknown output format: ");
            }
            let mut msg = owned(prefix);
            let rest = owned(s);
            let n = s.unicode_len();
            let mut i: usize = 0;
            while i < n
                invariant
                    n == s@.len(),
                    rest@ == s@,
                    i <= n,
                    msg@ == prefix@ + s@.take(i as int),
                decreases n - i,
            {
                push_char(&mut msg, rest.as_str().get_char(i));
                assert(s@.take(i + 1) =~= s@.take(i as int).push(s@[i as int]));
                i = i + 1;
            }
            assert(s@.take(n as int) =~= s@);
            assert(msg@ =~= unknown_format_message(s@));
            Err(msg)
        },
    }
}

impl std::str::FromStr for OutputFormat {
    type Err = String;

    fn from_str(s: &str) -> Result<Self, Self::Err> {
        parse_output_format(s)
    }
}

/// Shows a creation time in milliseconds as whole seconds since the epoch,
/// or `-` when it is zero.
pub fn chrono_format(millis: i64) -> (r: String)
    ensures
        r@ == (if millis == 0 {
            seq!['-']
        } else {
            decimal_of(if millis >= 0 {
                millis / 1000
            } else {
                -((-(millis as int)) / 1000)
            })
        }),
{
    if millis == 0 {
        let mut s = String::new();
        push_char(&mut s, '-');
        return s;
    }
    decimal_string(millis / 1000)
}

pub open spec fn pow2(e: nat) -> nat
    decreases e,
{
    if e == 0 {
        1
    } else {
        2 * pow2((e - 1) as nat)
    }
}

/// The delay before reconnection attempt `attempt`, in milliseconds: 100 ms
/// doubled per attempt, at most 5 s.
pub open spec fn backoff_ms(attempt: nat) -> nat {
    let exp = if attempt < 16 {
        attempt
    } else {
        16
    };
    if 100 * pow2(exp) > 5000 {
        5000
    } else {
        100 * pow2(exp)
    }
}

/// The delay before reconnection attempt `attempt`, in milliseconds:
/// exponential from 100 ms, capped at 5 s.
pub fn reconnect_backoff(attempt: u32) -> (r: u64)
    ensures
        r == backoff_ms(attempt as nat),
{
    let exp: u32 = if attempt < 16 {
        attempt
    } else {
        16
    };
    let mut factor: u64 = 1;
    let mut i: u32 = 0;
    while i < exp
        invariant
            i <= exp <= 16,
            factor == pow2(i as nat),
            factor <= 65536,
        decreases exp - i,
    {
        proof {
            lemma_pow2_bound(i as nat);
        }
        factor = factor * 2;
        i = i + 1;
    }
    let delay = 100 * factor;
    if delay > 5000 {
        5000
    } else {
        delay
    }
}

proof fn lemma_pow2_bound(e: nat)
    requires
        e < 16,
    ensures
        pow2(e) * 2 <= 65536,
{
    lemma_pow2_monotone(e, 15);
    reveal_with_fuel(pow2, 16);
    assert(pow2(15) == 32768);
}

proof fn lemma_pow2_monotone(a: nat, b: nat)
    requires
        a <= b,
    ensures
        pow2(a) <= pow2(b),
    decreases b,
{
    if a < b {
        lemma_pow2_monotone(a, (b - 1) as nat);
    }
}

/// A consumer's view of its credit window: how many credits it granted and
/// has not yet seen spent, and when to grant more.
#[derive(Debug, Clone, Copy)]
pub struct CreditWindow {
    credits_window: u32,
    remaining_credits: u32,
}

impl CreditWindow {
    pub closed spec fn spec_window(&self) -> u32 {
        self.credits_window
    }

    pub closed spec fn spec_remaining(&self) -> u32 {
        self.remaining_credits
    }

    /// A window of `credits_window`, all of it granted at the start.
    pub fn new(credits_window: u32) -> (r: Self)
        ensures
            r.spec_window() == credits_window,
            r.spec_remaining() == credits_window,
    {
        CreditWindow { credits_window, remaining_credits: credits_window }
    }

    /// One delivery arrived and spent a credit.
    pub fn consume_credit(&mut self)
        ensures
            final(self).spec_window() == old(self).spec_window(),
            final(self).spec_remaining() == (if old(self).spec_remaining() == 0 {
                0
            } else {
                old(self).spec_remaining() - 1
            }),
    {
        self.remaining_credits = self.remaining_credits.saturating_sub(1);
    }

    /// When fewer than half the window remains, grants a whole window more
    /// (counting at most `u32::MAX` outstanding) and returns the grant to
    /// send; otherwise returns `None`.
    pub fn maybe_refill_credits(&mut self) -> (r: Option<u32>)
        ensures
            final(self).spec_window() == old(self).spec_window(),
            old(self).spec_remaining() < old(self).spec_window() / 2 ==> {
                &&& r == Some(old(self).spec_window())
                &&& final(self).spec_remaining() == (if old(self).spec_remaining()
                    + old(self).spec_window() > u32::MAX {
                    u32::MAX as int
                } else {
                    old(self).spec_remaining() + old(self).spec_window()
                })
            },
            old(self).spec_remaining() >= old(self).spec_window() / 2 ==> r is None && *final(self)
                == *old(self),
    {
        let threshold = self.credits_window / 2;
        if self.remaining_credits < threshold {
            let grant = self.credits_window;
            self.remaining_credits = self.remaining_credits.saturating_add(grant);
            return Some(grant);
        }
        None
    }

    /// The configured window.
    pub fn credits_window(&self) -> (r: u32)
        ensures
            r == self.spec_window(),
    {
        self.credits_window
    }

    /// Credits granted and not yet seen spent.
    pub fn remaining_credits(&self) -> (r: u32)
        ensures
            r == self.spec_remaining(),
    {
        self.remaining_credits
    }
}

/// How a client reaches the server.
#[derive(Clone, Copy, Debug, PartialEq, Eq, Structural)]
pub enum EndpointScheme {
    /// `http://`: no TLS.
    Plain,
    /// `https://`: TLS, with the CA certificate given.
    Tls,
}

/// Why an endpoint and its TLS options do not go together.
#[derive(Clone, Copy, Debug, PartialEq, Eq, Structural)]
pub enum EndpointError {
    /// The endpoint starts with neither `http://` nor `https://`.
    UnknownScheme,
    /// A CA certificate or a TLS domain was given for an `http://` endpoint.
    TlsOptionsWithoutHttps,
    /// An `https://` endpoint needs a CA certificate.
    MissingTlsCa,
}

pub open spec fn http_prefix() -> Seq<char> {
    seq!['h', 't', 't', 'p', ':', '/', '/']
}

pub open spec fn https_prefix() -> Seq<char> {
    seq!['h', 't', 't', 'p', 's', ':', '/', '/']
}

pub open spec fn has_prefix(s: Seq<char>, p: Seq<char>) -> bool {
    p.len() <= s.len() && s.take(p.len() as int) == p
}

/// Whether `s` starts with `p`.
pub fn starts_with(s: &str, p: &str) -> (r: bool)
    ensures
        r == has_prefix(s@, p@),
{
    let n = s.unicode_len();
    let m = p.unicode_len();
    if m > n {
        return false;
    }
    let mut i: usize = 0;
    while i < m
        invariant
            n == s@.len(),
            m == p@.len(),
            m <= n,
            i <= m,
            forall|j: int| 0 <= j < i ==> s@[j] == p@[j],
        decreases m - i,
    {
        if s.get_char(i) != p.get_char(i) {
            assert(s@.take(m as int)[i as int] != p@[i as int]);
            return false;
        }
        i = i + 1;
    }
    assert(s@.take(m as int) =~= p@);
    true
}

/// Checks an endpoint against the TLS options given with it: `http://`
/// takes none, `https://` needs a CA certificate and may name a domain.
pub fn check_endpoint(endpoint: &str, has_tls_ca: bool, has_tls_domain: bool) -> (r: Result<
    EndpointScheme,
    EndpointError,
>)
    ensures
        !has_prefix(endpoint@, http_prefix()) && !has_prefix(endpoint@, https_prefix()) ==> r
            == Err::<EndpointScheme, EndpointError>(EndpointError::UnknownScheme),
        has_prefix(endpoint@, http_prefix()) ==> r == (if has_tls_ca || has_tls_domain {
            Err::<EndpointScheme, EndpointError>(EndpointError::TlsOptionsWithoutHttps)
        } else {
            Ok(EndpointScheme::Plain)
        }),
        has_prefix(endpoint@, https_prefix()) ==> r == (if has_tls_ca {
            Ok::<EndpointScheme, EndpointError>(EndpointScheme::Tls)
        } else {
            Err(EndpointError::MissingTlsCa)
        }),
{
    let http = "http://";
    let https = "https://";
    proof {
        reveal_strlit("http://");
        reveal_strlit("https://");
        assert(http@ =~= http_prefix());
        assert(https@ =~= https_prefix());
    }
    let is_https = starts_with(endpoint, https);
    let is_http = starts_with(endpoint, http);
    proof {
        if is_https {
            assert(endpoint@[4] == 's');
        }
        if is_http {
            assert(endpoint@[4] == ':');
        }
    }
    if !is_https && !is_http {
        return Err(EndpointError::UnknownScheme);
    }
    if is_http {
        if has_tls_ca || has_tls_domain {
            return Err(EndpointError::TlsOptionsWithoutHttps);
        }
        return Ok(EndpointScheme::Plain);
    }
    if !has_tls_ca {
        return Err(EndpointError::MissingTlsCa);
    }
    Ok(EndpointScheme::Tls)
}

} // verus!
