//! Venue-agnostic instrument identity.
//!
//! A [`Symbol`] is a pair of [`Ticker`]s. A ticker is fixed-width uppercase
//! ASCII: the text's bytes, uppercased, right-padded with zero bytes to
//! [`MAX_TICKER_LEN`], so that one spelling has exactly one encoding and
//! equality, order and hashing are plain byte comparisons.

use vstd::prelude::*;
use vstd::string::StringSliceAdditionalSpecFns;
use vstd::utf8::*;

use crate::error::CoreError;

verus! {

/// Maximum ticker length, in bytes.
pub const MAX_TICKER_LEN: usize = 12;

/// `b` is an ASCII letter or digit.
pub open spec fn is_ascii_alnum(b: u8) -> bool {
    (48 <= b <= 57) || (65 <= b <= 90) || (97 <= b <= 122)
}

/// `b` is an ASCII uppercase letter or digit.
pub open spec fn is_upper_alnum(b: u8) -> bool {
    (48 <= b <= 57) || (65 <= b <= 90)
}

/// `b` with an ASCII lowercase letter mapped to its uppercase form.
pub open spec fn ascii_upper(b: u8) -> u8 {
    if 97 <= b <= 122 {
        (b - 32) as u8
    } else {
        b
    }
}

/// Every byte of `bytes` is an ASCII letter or digit.
pub open spec fn all_ascii_alnum(bytes: Seq<u8>) -> bool {
    forall|i: int| 0 <= i < bytes.len() ==> is_ascii_alnum(#[trigger] bytes[i])
}

/// The stored form of ticker text: its bytes uppercased, then zero bytes up
/// to [`MAX_TICKER_LEN`].
pub open spec fn padded_ticker(bytes: Seq<u8>) -> Seq<u8> {
    Seq::new(
        MAX_TICKER_LEN as nat,
        |i: int|
            if i < bytes.len() {
                ascii_upper(bytes[i])
            } else {
                0u8
            },
    )
}

/// A well-formed stored ticker: [`MAX_TICKER_LEN`] bytes, a non-empty run of
/// uppercase letters and digits, then only zero bytes.
pub open spec fn is_stored_ticker(b: Seq<u8>) -> bool {
    &&& b.len() == MAX_TICKER_LEN
    &&& is_upper_alnum(b[0])
    &&& forall|i: int| 0 <= i < b.len() ==> (#[trigger] b[i] == 0 || is_upper_alnum(b[i]))
    &&& forall|i: int, j: int| 0 <= i < j < b.len() && #[trigger] b[i] == 0 ==> #[trigger] b[j] == 0
}

/// `n` is where the zero padding of `stored` starts: every byte before it
/// is non-zero, and it is the length or the index of a zero byte.
pub open spec fn is_padding_start(stored: Seq<u8>, n: int) -> bool {
    &&& 0 <= n <= stored.len()
    &&& forall|i: int| 0 <= i < n ==> #[trigger] stored[i] != 0
    &&& (n == stored.len() || stored[n] == 0)
}

/// Where the zero padding of `stored` starts.
pub open spec fn padding_start(stored: Seq<u8>) -> int {
    choose|n: int| is_padding_start(stored, n)
}

/// The text bytes of a stored ticker: everything before its zero padding.
pub open spec fn ticker_text(stored: Seq<u8>) -> Seq<u8> {
    stored.take(padding_start(stored))
}

/// The padding start is unique.
pub proof fn lemma_padding_start_unique(stored: Seq<u8>, n: int)
    requires
        is_padding_start(stored, n),
    ensures
        padding_start(stored) == n,
{
    let m = padding_start(stored);
    assert(is_padding_start(stored, m));
    if m < n {
        assert(stored[m] != 0);
    } else if n < m {
        assert(stored[n] != 0);
    }
}

/// The characters of ASCII bytes, one per byte.
pub open spec fn ascii_chars(bytes: Seq<u8>) -> Seq<char> {
    Seq::new(bytes.len(), |i: int| bytes[i] as char)
}

/// What [`Ticker::new`] returns for `raw`.
pub open spec fn ticker_outcome(raw: &str, r: Result<Ticker, CoreError>) -> bool {
    let bytes = raw.spec_bytes();
    if raw@.len() == 0 {
        r == Err::<Ticker, CoreError>(CoreError::TickerEmpty)
    } else if bytes.len() > MAX_TICKER_LEN {
        r matches Err(CoreError::TickerTooLong { ticker, len }) && ticker@ == raw@ && len
            == bytes.len()
    } else if !all_ascii_alnum(bytes) {
        r matches Err(CoreError::TickerNotAscii { ticker }) && ticker@ == raw@
    } else {
        r matches Ok(t) && t@ == padded_ticker(bytes)
    }
}

/// One side of a trading pair, as fixed-width uppercase ASCII.
#[derive(Clone, Copy, PartialEq, Eq, PartialOrd, Ord, Hash, Debug)]
pub struct Ticker([u8; MAX_TICKER_LEN]);

impl View for Ticker {
    type V = Seq<u8>;

    closed spec fn view(&self) -> Seq<u8> {
        self.0@
    }
}

/// Tickers with equal stored bytes are equal: one text has exactly one
/// encoding.
pub proof fn lemma_ticker_view_injective(a: Ticker, b: Ticker)
    requires
        a@ == b@,
    ensures
        a == b,
{
    assert(a.0 =~= b.0);
}

/// `std::str::from_utf8`, which succeeds exactly on valid UTF-8 and then
/// returns a string whose UTF-8 bytes are the input bytes.
#[verifier::external_body]
fn str_from_utf8(bytes: &[u8]) -> (r: Option<&str>)
    ensures
        r is Some <==> valid_utf8(bytes@),
        r matches Some(s) ==> s.spec_bytes() == bytes@,
{
    std::str::from_utf8(bytes).ok()
}

/// ASCII bytes are valid UTF-8, and they decode to one character per byte.
proof fn lemma_ascii_bytes_utf8(bytes: Seq<u8>)
    requires
        forall|i: int| 0 <= i < bytes.len() ==> #[trigger] bytes[i] < 128,
    ensures
        valid_utf8(bytes),
        encode_utf8(ascii_chars(bytes)) == bytes,
{
    let c = ascii_chars(bytes);
    assert(is_ascii_chars(c));
    is_ascii_chars_encode_utf8(c);
    assert(encode_utf8(c) =~= bytes);
    encode_utf8_valid_utf8(c);
}

/// Non-empty text has non-empty UTF-8 bytes.
proof fn lemma_nonempty_bytes(s: &str)
    requires
        s@.len() > 0,
    ensures
        s.spec_bytes().len() > 0,
{
    assert(encode_utf8(s@).len() >= encode_scalar(s@[0] as u32).len());
}

impl Ticker {
    #[verifier::type_invariant]
    spec fn well_formed(self) -> bool {
        is_stored_ticker(self.0@)
    }

    /// Parses a ticker, uppercasing ASCII letters. Empty text, text longer
    /// than [`MAX_TICKER_LEN`] bytes, and text holding a byte outside
    /// `[A-Za-z0-9]` are rejected, in that order, rather than truncated or
    /// substituted.
    pub fn new(raw: &str) -> (r: Result<Ticker, CoreError>)
        ensures
            ticker_outcome(raw, r),
    {
        if raw.is_empty() {
            return Err(CoreError::TickerEmpty);
        }
        proof {
            lemma_nonempty_bytes(raw);
        }
        let bytes = raw.as_bytes();
        let len = bytes.len();
        if len > MAX_TICKER_LEN {
            return Err(CoreError::TickerTooLong { ticker: raw.to_owned(), len });
        }
        let mut out = [0u8; MAX_TICKER_LEN];
        let mut i: usize = 0;
        while i < len
            invariant
                0 < len <= MAX_TICKER_LEN,
                bytes@ == raw.spec_bytes(),
                bytes@.len() == len,
                i <= len,
                out@.len() == MAX_TICKER_LEN,
                forall|j: int| 0 <= j < i ==> is_ascii_alnum(#[trigger] bytes@[j]),
                forall|j: int| 0 <= j < i ==> #[trigger] out@[j] == ascii_upper(bytes@[j]),
                forall|j: int| i <= j < MAX_TICKER_LEN ==> #[trigger] out@[j] == 0,
            decreases len - i,
        {
            let b = bytes[i];
            if !((b >= 48 && b <= 57) || (b >= 65 && b <= 90) || (b >= 97 && b <= 122)) {
                return Err(CoreError::TickerNotAscii { ticker: raw.to_owned() });
            }
            let up = if b >= 97 && b <= 122 {
                b - 32
            } else {
                b
            };
            out[i] = up;
            i = i + 1;
        }
        assert(out@ =~= padded_ticker(bytes@));
        Ok(Ticker(out))
    }

    /// The ticker as text, without the zero padding.
    pub fn as_str(&self) -> (s: &str)
        ensures
            is_stored_ticker(self@),
            s.spec_bytes() == ticker_text(self@),
            s@ == ascii_chars(ticker_text(self@)),
    {
        proof {
            use_type_invariant(self);
        }
        let mut end: usize = 0;
        while end < MAX_TICKER_LEN && self.0[end] != 0
            invariant
                end <= MAX_TICKER_LEN,
                is_stored_ticker(self.0@),
                forall|i: int| 0 <= i < end ==> #[trigger] self.0@[i] != 0,
            decreases MAX_TICKER_LEN - end,
        {
            end = end + 1;
        }
        let (text, _) = self.0.as_slice().split_at(end);
        proof {
            lemma_padding_start_unique(self.0@, end as int);
            assert(text@ =~= ticker_text(self.0@));
            assert forall|i: int| 0 <= i < text@.len() implies #[trigger] text@[i] < 128 by {
                assert(self.0@[i] != 0);
                assert(is_upper_alnum(self.0@[i]));
            }
            lemma_ascii_bytes_utf8(text@);
        }
        match str_from_utf8(text) {
            Some(s) => {
                proof {
                    encode_utf8_decode_utf8(s@);
                    encode_utf8_decode_utf8(ascii_chars(text@));
                }
                s
            },
            None => "",
        }
    }

    /// The ticker as an owned string, without the zero padding.
    pub fn to_string(&self) -> (s: String)
        ensures
            is_stored_ticker(self@),
            s@ == ascii_chars(ticker_text(self@)),
    {
        String::from_str(self.as_str())
    }

    /// The ticker as `Ticker("<text>")`, the form used in logs.
    pub fn debug_text(&self) -> (s: String)
        ensures
            s@ == "Ticker(\""@ + ascii_chars(ticker_text(self@)) + "\")"@,
    {
        let mut s = String::from_str("Ticker(\"");
        s.append(self.as_str());
        s.append("\")");
        s
    }
}

/// `raw` is accepted by [`Ticker::new`].
pub open spec fn ticker_accepts(raw: &str) -> bool {
    &&& raw@.len() != 0
    &&& raw.spec_bytes().len() <= MAX_TICKER_LEN
    &&& all_ascii_alnum(raw.spec_bytes())
}

/// What [`Symbol::new`] returns for `base` and `quote`: the first ticker
/// error, base side first, or the pair of parsed tickers.
pub open spec fn symbol_outcome(base: &str, quote: &str, r: Result<Symbol, CoreError>) -> bool {
    if !ticker_accepts(base) {
        r matches Err(e) && ticker_outcome(base, Err(e))
    } else if !ticker_accepts(quote) {
        r matches Err(e) && ticker_outcome(quote, Err(e))
    } else {
        r matches Ok(sym) && sym.base@ == padded_ticker(base.spec_bytes()) && sym.quote@
            == padded_ticker(quote.spec_bytes())
    }
}

/// A trading pair, normalized across venues. The derived order compares
/// `base` first, then `quote`.
#[derive(Clone, Copy, Debug, PartialEq, Eq, PartialOrd, Ord, Hash)]
pub struct Symbol {
    pub base: Ticker,
    pub quote: Ticker,
}

impl Symbol {
    /// Builds a symbol from two venue-native ticker strings, failing with
    /// the base ticker's error first, then the quote ticker's.
    pub fn new(base: &str, quote: &str) -> (r: Result<Symbol, CoreError>)
        ensures
            symbol_outcome(base, quote, r),
    {
        let b = match Ticker::new(base) {
            Ok(t) => t,
            Err(e) => return Err(e),
        };
        let q = match Ticker::new(quote) {
            Ok(t) => t,
            Err(e) => return Err(e),
        };
        Ok(Symbol { base: b, quote: q })
    }

    /// The pair as `BASE/QUOTE`.
    pub fn to_string(&self) -> (s: String)
        ensures
            s@ == ascii_chars(ticker_text(self.base@)) + "/"@ + ascii_chars(
                ticker_text(self.quote@),
            ),
    {
        let mut s = String::from_str(self.base.as_str());
        s.append("/");
        s.append(self.quote.as_str());
        s
    }
}

/// Ticker text that differs only in ASCII letter case parses the same way:
/// both are accepted or both rejected, and accepted ones give equal
/// tickers. This is what lets venues that disagree on case agree on a
/// symbol.
pub proof fn lemma_ticker_case_insensitive(
    a: &str,
    b: &str,
    ra: Result<Ticker, CoreError>,
    rb: Result<Ticker, CoreError>,
)
    requires
        a.spec_bytes().len() == b.spec_bytes().len(),
        forall|i: int|
            0 <= i < a.spec_bytes().len() ==> ascii_upper(#[trigger] a.spec_bytes()[i])
                == ascii_upper(b.spec_bytes()[i]),
        ticker_outcome(a, ra),
        ticker_outcome(b, rb),
    ensures
        ra is Ok <==> rb is Ok,
        ra is Ok ==> ra->Ok_0 == rb->Ok_0,
{
    let x = a.spec_bytes();
    let y = b.spec_bytes();
    if a@.len() > 0 {
        lemma_nonempty_bytes(a);
    }
    if b@.len() > 0 {
        lemma_nonempty_bytes(b);
    }
    assert(all_ascii_alnum(x) <==> all_ascii_alnum(y)) by {
        if all_ascii_alnum(x) {
            assert forall|i: int| 0 <= i < y.len() implies is_ascii_alnum(#[trigger] y[i]) by {
                assert(is_ascii_alnum(x[i]));
                assert(ascii_upper(x[i]) == ascii_upper(y[i]));
            }
        }
        if all_ascii_alnum(y) {
            assert forall|i: int| 0 <= i < x.len() implies is_ascii_alnum(#[trigger] x[i]) by {
                assert(is_ascii_alnum(y[i]));
                assert(ascii_upper(x[i]) == ascii_upper(y[i]));
            }
        }
    }
    assert(padded_ticker(x) =~= padded_ticker(y));
    if ra is Ok && rb is Ok {
        lemma_ticker_view_injective(ra->Ok_0, rb->Ok_0);
    }
}

/// A parsed ticker reads back as its input text, uppercased: the padding
/// never leaks into the text and nothing is truncated.
pub proof fn lemma_ticker_round_trip(raw: &str, r: Result<Ticker, CoreError>)
    requires
        ticker_outcome(raw, r),
        r is Ok,
    ensures
        ticker_text(r->Ok_0@) == raw.spec_bytes().map_values(|b: u8| ascii_upper(b)),
{
    let bytes = raw.spec_bytes();
    lemma_nonempty_bytes(raw);
    let stored = padded_ticker(bytes);
    assert forall|i: int| 0 <= i < bytes.len() implies #[trigger] stored[i] != 0 by {
        assert(is_ascii_alnum(bytes[i]));
    }
    lemma_padding_start_unique(stored, bytes.len() as int);
    assert(ticker_text(stored) =~= bytes.map_values(|b: u8| ascii_upper(b)));
}

/// `b` is an ASCII digit or letter, written with character bounds.
pub open spec fn is_digit_or_letter(b: u8) -> bool {
    ||| '0' as u8 <= b <= '9' as u8
    ||| 'A' as u8 <= b <= 'Z' as u8
    ||| 'a' as u8 <= b <= 'z' as u8
}

/// Every non-empty text of at most [`MAX_TICKER_LEN`] bytes whose bytes are
/// all ASCII digits or letters is accepted. The stored ticker is the text
/// byte for byte, with each lowercase letter raised to its uppercase form
/// and everything else kept, then zero bytes.
pub proof fn lemma_ticker_accepts_alphanumeric(raw: &str, r: Result<Ticker, CoreError>)
    requires
        ticker_outcome(raw, r),
        0 < raw.spec_bytes().len() <= MAX_TICKER_LEN,
        forall|i: int|
            0 <= i < raw.spec_bytes().len() ==> is_digit_or_letter(#[trigger] raw.spec_bytes()[i]),
    ensures
        r is Ok,
        r->Ok_0@.len() == MAX_TICKER_LEN,
        forall|i: int|
            0 <= i < raw.spec_bytes().len() ==> {
                let b = #[trigger] raw.spec_bytes()[i];
                let c = r->Ok_0@[i];
                if 'a' as u8 <= b <= 'z' as u8 {
                    'A' as u8 <= c <= 'Z' as u8 && c + ('a' as u8 - 'A' as u8) == b
                } else {
                    c == b
                }
            },
        forall|i: int| raw.spec_bytes().len() <= i < MAX_TICKER_LEN ==> #[trigger] r->Ok_0@[i] == 0,
{
    let bytes = raw.spec_bytes();
    assert(raw@.len() != 0) by {
        if raw@.len() == 0 {
            assert(raw@ =~= Seq::<char>::empty());
            assert(encode_utf8(raw@).len() == 0);
        }
    }
    assert forall|i: int| 0 <= i < bytes.len() implies is_ascii_alnum(#[trigger] bytes[i]) by {
        assert(is_digit_or_letter(bytes[i]));
    }
}

/// A text of one to [`MAX_TICKER_LEN`] bytes holding a byte that is not an
/// ASCII digit or letter is rejected as not alphanumeric, naming the text.
pub proof fn lemma_ticker_rejects_other_bytes(raw: &str, r: Result<Ticker, CoreError>, i: int)
    requires
        ticker_outcome(raw, r),
        0 < raw.spec_bytes().len() <= MAX_TICKER_LEN,
        0 <= i < raw.spec_bytes().len(),
        !is_digit_or_letter(raw.spec_bytes()[i]),
    ensures
        r matches Err(CoreError::TickerNotAscii { ticker }) && ticker@ == raw@,
{
    let bytes = raw.spec_bytes();
    assert(raw@.len() != 0) by {
        if raw@.len() == 0 {
            assert(raw@ =~= Seq::<char>::empty());
            assert(encode_utf8(raw@).len() == 0);
        }
    }
    assert(!is_ascii_alnum(bytes[i]));
}

} // verus!
